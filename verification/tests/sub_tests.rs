use base64::Engine;
use node_speedtest::sub::{
    build_providers_config, default_group_for, is_share_link, link_meta, link_node, load_clash, load_subscription,
    urlsafe_base64_decode, NodeInfo,
};

fn unit(raw: &str, link: bool, proxy: &str) -> NodeInfo {
    NodeInfo {
        id: -1,
        group: "Default".into(),
        remarks: "r".into(),
        server: "s".into(),
        port: 1,
        proxy_str: proxy.into(),
        proxy_type: String::new(),
        raw_unit: raw.into(),
        is_link_unit: link,
    }
}

#[test]
fn share_links_need_a_non_http_scheme() {
    assert!(is_share_link("vless://uuid@host:443"));
    assert!(is_share_link("Hysteria2://x"));
    assert!(is_share_link("ss+v2://abc"));
    assert!(!is_share_link("https://example.com/sub"));
    assert!(!is_share_link("HTTP://example.com"));
    assert!(!is_share_link("://nothing"));
    assert!(!is_share_link("plain text"));
    assert!(!is_share_link("bad scheme://x"));
}

#[test]
fn link_meta_reads_server_port_and_remark() {
    let (s, p, r) = link_meta("trojan://pass@example.com:443?sni=a#My%20Node");
    assert_eq!((s.as_str(), p.as_str(), r.as_str()), ("example.com", "443", "My Node"));
    let (s, p, r) = link_meta("vless://id@[2001:db8::1]:8443/path?x=1");
    assert_eq!((s.as_str(), p.as_str(), r.as_str()), ("2001:db8::1", "8443", ""));
    let (s, p, _) = link_meta("ss://host-only");
    assert_eq!((s.as_str(), p.as_str()), ("host-only", ""));
    let (_, _, r) = link_meta("ss://h:1#%E4%BD%A0%E5%A5%BD");
    assert_eq!(r, "你好");
    let (_, _, r) = link_meta("ss://h:1#%FF");
    assert_eq!(r, "");
}

#[test]
fn link_node_uses_custom_port_and_fallback_name() {
    let n = link_node("vmess://id@srv.example:10086", "");
    assert_eq!(n.server, "srv.example");
    assert_eq!(n.port, 10086);
    assert_eq!(n.remarks, "srv.example:10086");
    assert_eq!(n.group, "Default");
    assert!(n.is_link_unit);
    assert_eq!(n.raw_unit, "vmess://id@srv.example:10086");
    assert_eq!(n.id, -1);
    let n = link_node("vmess://id@srv.example:10086#HK", "8080");
    assert_eq!(n.port, 8080);
    assert_eq!(n.remarks, "HK");
    let n = link_node("vmess://id@srv.example:notaport", "");
    assert_eq!(n.port, 0);
    assert_eq!(default_group_for("x"), "Default");
}

#[test]
fn base64_bodies_decode_in_either_alphabet() {
    let text: Vec<char> = "dm1lc3M6Ly9h".chars().collect();
    assert_eq!(urlsafe_base64_decode(&text).into_iter().collect::<String>(), "vmess://a");
    let url_safe: Vec<char> = " Pz8_ ".chars().collect();
    assert_eq!(urlsafe_base64_decode(&url_safe).into_iter().collect::<String>(), "???");
    let unpadded: Vec<char> = "YQ".chars().collect();
    assert_eq!(urlsafe_base64_decode(&unpadded).into_iter().collect::<String>(), "a");
    let not_utf8: Vec<char> = "_-8".chars().collect();
    assert!(urlsafe_base64_decode(&not_utf8).is_empty());
    let bad: Vec<char> = "@@@@".chars().collect();
    assert!(urlsafe_base64_decode(&bad).is_empty());
}

#[test]
fn subscription_forms_are_recognised() {
    assert!(load_subscription("   ", "").unwrap().is_empty());
    let one = load_subscription("  trojan://p@h:443#A  ", "").unwrap();
    assert_eq!(one.len(), 1);
    assert_eq!(one[0].remarks, "A");
    let lines = load_subscription("hello\ntrojan://p@h1:1#A\r\nss://x@h2:2#B\n", "").unwrap();
    assert_eq!(lines.len(), 2);
    assert_eq!(lines[1].server, "h2");
    let b64 = load_subscription("dHJvamFuOi8vcEBoOjQ0MyNB", "").unwrap();
    assert_eq!(b64.len(), 1);
    assert_eq!(b64[0].server, "h");
    assert!(load_subscription("just words", "").unwrap().is_empty());
}

#[test]
fn clash_documents_give_yaml_units() {
    let doc = "proxies:\n  - name: A\n    server: a.example\n    port: 443\n    type: ss\n  - plain\n  - server: b.example\n    port: 80\n";
    let nodes = load_subscription(doc, "").unwrap();
    assert_eq!(nodes.len(), 2);
    assert_eq!(nodes[0].remarks, "A");
    assert_eq!(nodes[0].port, 443);
    assert!(!nodes[0].is_link_unit);
    assert!(nodes[0].raw_unit.contains("a.example"));
    assert!(!nodes[0].raw_unit.starts_with("---"));
    assert_eq!(nodes[1].remarks, "b.example:80");
    let custom = load_subscription(doc, "1234").unwrap();
    assert_eq!(custom[0].port, 1234);
    assert!(custom[0].raw_unit.contains("1234"));
}

#[test]
fn clash_errors_are_reported() {
    let e = load_subscription("proxies: [unclosed", "").unwrap_err();
    assert!(e.starts_with("YAML 解析失败: "));
    let e = load_clash("other: 1", "").unwrap_err();
    assert_eq!(e, "无 proxies 列表");
    let empty = load_subscription("proxies: []\n", "").unwrap();
    assert!(empty.is_empty());
}

#[test]
fn providers_split_links_and_yaml_units() {
    let nodes = vec![
        unit("trojan://p@h:1#A", true, ""),
        unit("name: B\nserver: b\nport: 2\ntype: ss", false, ""),
        unit("", true, ""),
        unit("trojan://p@h:2#C", true, "LOG"),
        unit("ss://x@h:3#D", true, ""),
        unit("[unclosed", false, ""),
    ];
    let b = build_providers_config(&nodes, 65432, "127.0.0.1:9990");
    assert_eq!(b.link_order, vec![0, 4]);
    assert_eq!(b.yaml_order, vec![1]);
    assert_eq!(b.link_provider_path, "sub_link.txt");
    assert_eq!(b.yaml_provider_path, "sub_yaml.yaml");
    let decoded = base64::engine::general_purpose::STANDARD.decode(&b.link_provider_body).unwrap();
    assert_eq!(decoded, b"trojan://p@h:1#A\nss://x@h:3#D\n");
    assert!(b.yaml_provider_body.contains("proxies"));
    assert!(b.config_yaml.starts_with("mixed-port: 0\nsocks-port: 65432\n"));
    assert!(b.config_yaml.contains("external-controller: '127.0.0.1:9990'\n"));
    assert!(b.config_yaml.ends_with("use:\n      - yaml_sub\n      - link_sub\n"));
}

#[test]
fn providers_without_units_have_no_groups() {
    let b = build_providers_config(&[], 1080, "c");
    assert!(b.link_order.is_empty() && b.yaml_order.is_empty());
    assert_eq!(
        b.config_yaml,
        "mixed-port: 0\nsocks-port: 1080\nallow-lan: false\nbind-address: '127.0.0.1'\nmode: global\nlog-level: warning\nipv6: true\nexternal-controller: 'c'\nsecret: ''\nunified-delay: true\n"
    );
    assert_eq!(b.link_provider_body, "");
}

#[test]
fn clash_proxy_list_falls_back_to_capital_key_only_when_absent() {
    let doc = "Proxy:\n  - name: a\n    server: h\n    port: 1\n";
    let nodes = load_clash(doc, "").unwrap();
    assert_eq!(nodes.len(), 1);
    assert_eq!(nodes[0].remarks, "a");
    let shadowed = "proxies: 5\nProxy:\n  - name: a\n    server: h\n    port: 1\n";
    assert_eq!(load_clash(shadowed, "").unwrap_err(), "无 proxies 列表");
}

#[test]
fn clash_custom_port_rewrites_the_unit() {
    let doc = "proxies:\n  - name: a\n    server: h\n    port: 1\n";
    let nodes = load_clash(doc, "8443").unwrap();
    assert_eq!(nodes[0].port, 8443);
    assert!(nodes[0].raw_unit.contains("port: 8443"));
}
