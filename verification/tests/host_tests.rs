use node_speedtest::host::{
    ensure_safe_basename, log_listing_order, log_tail_from, no_proxy_list, pick_ico_entry, proxy_enabled,
    proxy_host_port_of, proxy_url, reg_query_lookup, translate_isp, translate_isp_short,
};

#[test]
fn base_names_reject_path_characters() {
    assert_eq!(ensure_safe_basename("").unwrap_err(), "名称不能为空");
    assert_eq!(ensure_safe_basename("../x").unwrap_err(), "名称含非法字符");
    assert_eq!(ensure_safe_basename("a\\b").unwrap_err(), "名称含非法字符");
    assert_eq!(ensure_safe_basename("c:").unwrap_err(), "名称含非法字符");
    assert_eq!(ensure_safe_basename("a\0").unwrap_err(), "名称含非法字符");
    assert!(ensure_safe_basename("Node Speedtest-2024").is_ok());
}

fn ico(entries: &[(u8, u8, u32, u32)], total: usize) -> Vec<u8> {
    let mut v = vec![0u8, 0, 1, 0, entries.len() as u8, 0];
    for &(w, h, size, off) in entries {
        v.extend_from_slice(&[w, h, 0, 0, 1, 0, 32, 0]);
        v.extend_from_slice(&size.to_le_bytes());
        v.extend_from_slice(&off.to_le_bytes());
    }
    v.resize(total, 0xAB);
    v
}

#[test]
fn icon_entry_closest_to_the_wanted_size() {
    let data = ico(&[(16, 16, 4, 100), (32, 32, 4, 104), (48, 48, 4, 108), (0, 0, 4, 112)], 120);
    assert_eq!(pick_ico_entry(&data, 32).unwrap().len(), 4);
    assert_eq!(pick_ico_entry(&data, 40).map(|s| s.as_ptr() as usize - data.as_ptr() as usize), Some(108));
    assert_eq!(pick_ico_entry(&data, 300).map(|s| s.as_ptr() as usize - data.as_ptr() as usize), Some(112));
    assert_eq!(pick_ico_entry(&data, 24).map(|s| s.as_ptr() as usize - data.as_ptr() as usize), Some(104));
    let broken = ico(&[(16, 16, 4, 1000)], 40);
    assert!(pick_ico_entry(&broken, 16).is_none());
    assert!(pick_ico_entry(&[0, 0, 1], 16).is_none());
    let short = ico(&[(16, 16, 4, 100)], 20);
    assert!(pick_ico_entry(&short, 16).is_none());
}

#[test]
fn carriers_are_named_in_chinese() {
    assert_eq!(translate_isp(""), "");
    assert_eq!(translate_isp("CHINANET Guangdong"), "中国电信");
    assert_eq!(translate_isp("China Unicom Beijing"), "中国联通");
    assert_eq!(translate_isp("Hurricane Electric LLC"), "Hurricane Electric");
    assert_eq!(translate_isp("Some Other ISP"), "Some Other ISP");
    assert_eq!(translate_isp_short("China Mobile"), "中国移动");
    assert_eq!(translate_isp_short("Amazon"), "Amazon");
}

#[test]
fn reg_query_output_is_read() {
    let out = "\r\nHKEY_CURRENT_USER\\Software\r\n    ProxyEnable    REG_DWORD    0x1\r\n    ProxyServer    REG_SZ    127.0.0.1:7897\r\n";
    assert_eq!(reg_query_lookup(out, "ProxyEnable").unwrap(), "0x1");
    assert_eq!(reg_query_lookup(out, "ProxyServer").unwrap(), "127.0.0.1:7897");
    assert!(reg_query_lookup(out, "ProxyOverride").is_none());
    let spaced = "    ProxyOverride    REG_SZ    a b  c\n";
    assert_eq!(reg_query_lookup(spaced, "ProxyOverride").unwrap(), "a b c");
}

#[test]
fn system_proxy_settings_are_interpreted() {
    assert!(proxy_enabled("0x1"));
    assert!(proxy_enabled("REG 0x1"));
    assert!(!proxy_enabled("0x0"));
    assert_eq!(proxy_host_port_of(" 127.0.0.1:7897 ").unwrap(), "127.0.0.1:7897");
    assert_eq!(proxy_host_port_of("ftp=f:1;HTTPS = h:2;http=x:3").unwrap(), "h:2");
    assert!(proxy_host_port_of("ftp=f:1;socks=s:2").is_none());
    assert!(proxy_host_port_of("  ").is_none());
    assert_eq!(proxy_url("127.0.0.1:7897"), "http://127.0.0.1:7897");
    assert_eq!(proxy_url("https://p:1"), "https://p:1");
    assert_eq!(no_proxy_list(""), "127.0.0.1,localhost,::1");
    assert_eq!(no_proxy_list("*.lan; <local>;localhost;"), "*.lan,localhost,127.0.0.1,::1");
}

#[test]
fn log_files_are_listed_newest_first() {
    let names: Vec<String> = vec!["b.log".into(), "runtime.log".into(), "a.log".into(), "app-startup.log".into()];
    let modified = vec![10i64, 1, 20, 5];
    assert_eq!(log_listing_order(&names, &modified), vec![2, 0, 3, 1]);
    let same: Vec<String> = vec!["x.log".into(), "y.log".into()];
    assert_eq!(log_listing_order(&same, &[7, 7]), vec![0, 1]);
}

#[test]
fn log_tail_keeps_the_last_kilobytes() {
    assert_eq!(log_tail_from(1000, Some(0)), 1000);
    assert_eq!(log_tail_from(0, Some(0)), 0);
    assert_eq!(log_tail_from(3000, Some(1)), 3000 - 1024);
    assert_eq!(log_tail_from(100, None), 0);
    assert_eq!(log_tail_from(600 * 1024, None), 88 * 1024);
}
