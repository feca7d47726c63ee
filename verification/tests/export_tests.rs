use node_speedtest::export::{summary_counts, RowFacts};
use node_speedtest::export::{ip_api_error, ip_api_succeeded, my_ip_info_from, no_ip_info, read_ip_api};
use node_speedtest::export::{
    collect_export_meta, format_duration_hms, format_stamp, format_utc_test_time, image_scale_from, log_text,
    result_base_name, sanitize_dest_name, sanitize_filename, should_show_udp_col, tls_footer_state, truncate,
    udp_label, LogNode, TlsFootKind,
};

#[test]
fn udp_column_shows_unknown_not_hidden() {
    let mut nat_type = String::from("Unknown");
    assert!(should_show_udp_col(&nat_type));
    assert_eq!(udp_label("Unknown"), "未知");
    nat_type = String::from("Blocked");
    assert!(should_show_udp_col(&nat_type));
    assert_eq!(udp_label("Blocked"), "不支持");
    nat_type.clear();
    assert!(!should_show_udp_col(&nat_type));
}

#[test]
fn tls_footer_three_states() {
    assert!(tls_footer_state(5, 0, 0).is_none());
    let all_ok = tls_footer_state(5, 5, 0).expect("all ok");
    assert!(matches!(all_ok.0, TlsFootKind::AllOk));
    assert_eq!(all_ok.1, "已核实全部节点的 TLS 证书");
    let partial = tls_footer_state(5, 2, 1).expect("partial");
    assert!(matches!(partial.0, TlsFootKind::Partial));
    assert_eq!(partial.1, "已核实部分节点的 TLS 证书");
    let all_bad = tls_footer_state(5, 0, 5).expect("all bad");
    assert!(matches!(all_bad.0, TlsFootKind::AllBad));
    assert_eq!(all_bad.1, "未核实全部节点的 TLS 证书");
}

#[test]
fn udp_labels_cover_every_nat_type() {
    assert_eq!(udp_label("FullCone"), "完全支持");
    assert_eq!(udp_label("RestrictedCone"), "受限支持");
    assert_eq!(udp_label("PortRestrictedCone"), "端口受限");
    assert_eq!(udp_label("Symmetric"), "对称受限");
    assert_eq!(udp_label("whatever"), "未知");
}

#[test]
fn duration_is_zero_padded_hours_minutes_seconds() {
    assert_eq!(format_duration_hms(478), "00:07:58");
    assert_eq!(format_duration_hms(0), "00:00:00");
    assert_eq!(format_duration_hms(360000), "100:00:00");
}

#[test]
fn utc_test_time_formats_epoch_seconds() {
    assert_eq!(format_utc_test_time(0), "1970-01-01 00:00:00 (UTC)");
    assert_eq!(format_utc_test_time(951782400), "2000-02-29 00:00:00 (UTC)");
    assert_eq!(format_utc_test_time(1700000000), "2023-11-14 22:13:20 (UTC)");
}

#[test]
fn stamp_is_compact_date_time() {
    assert_eq!(format_stamp(1700000000), "19675-221320");
    assert_eq!(format_stamp(0), "00000-000000");
}

#[test]
fn truncate_keeps_short_text_and_marks_cut_text() {
    assert_eq!(truncate("abc", 5), "abc");
    assert_eq!(truncate("abcdefghij", 5), "abcde…");
    assert_eq!(truncate("abcde", 5), "abcde");
    assert_eq!(truncate("香港节点", 2), "香港…");
}

#[test]
fn file_names_replace_reserved_characters() {
    assert_eq!(sanitize_filename(""), "Results");
    assert_eq!(sanitize_filename("a/b:c"), "a_b_c");
    assert_eq!(sanitize_dest_name(""), "");
    assert_eq!(sanitize_dest_name("x*y?"), "x_y_");
    assert_eq!(result_base_name("My Group", "20240101-000000"), "My Group-20240101-000000");
    assert_eq!(result_base_name("", "S"), "Results-S");
}

#[test]
fn image_scale_reads_and_clamps_the_setting() {
    assert_eq!(image_scale_from(None), 4);
    assert_eq!(image_scale_from(Some("")), 4);
    assert_eq!(image_scale_from(Some("a=1\n image_scale= 2 \n")), 2);
    assert_eq!(image_scale_from(Some("image_scale=9")), 6);
    assert_eq!(image_scale_from(Some("image_scale=0")), 1);
    assert_eq!(image_scale_from(Some("image_scale=x\nimage_scale=3")), 4);
}

#[test]
fn log_text_lists_each_node() {
    let n = LogNode {
        group: "G".into(),
        remarks: "R".into(),
        avg_ping: "12.50".into(),
        site_ping: "12.50".into(),
        avg_speed: "1.00MB".into(),
        max_speed: "2.00MB".into(),
        used_traffic: 42,
        nat_type: "FullCone".into(),
        tls_verified: "Verified".into(),
        raw_speed: [1; 20],
    };
    let t = log_text("Tester", &[n]);
    let expected = format!(
        "[Basic]\nTester=Tester\n\n[G^R]\nAvgPing=12.50\nSitePing=12.50\nAvgSpeed=1.00MB\nMaxSpeed=2.00MB\nUsedTraffic=42\nNatType=FullCone\nTlsVerified=Verified\nRawSpeed={}\n\n",
        vec!["1"; 20].join(",")
    );
    assert_eq!(t, expected);
    assert_eq!(log_text("T", &[]), "[Basic]\nTester=T\n\n");
}

#[test]
fn export_meta_keeps_the_batch_start() {
    let m = collect_export_meta("广东 深圳".into(), "中国电信".into(), "2026-07-22 05:11:00 (CST)".into(), 478);
    assert_eq!(m.test_time, "2026-07-22 05:11:00 (CST)");
    assert_eq!(m.duration, "00:07:58");
    assert_eq!(m.region_line, "广东 深圳");
    assert_eq!(m.isp, "中国电信");
}

#[test]
fn my_ip_info_reads_a_successful_answer() {
    let body = r#"{"status":"success","country":"中国","regionName":"广东","city":"深圳","isp":"China Telecom backbone"}"#;
    let a = read_ip_api(body.as_bytes()).unwrap();
    assert!(ip_api_succeeded(&a));
    let g = my_ip_info_from(&a);
    assert_eq!((g.country.as_str(), g.region.as_str(), g.city.as_str()), ("中国", "广东", "深圳"));
    assert_eq!(g.isp, "中国电信");
}

#[test]
fn my_ip_info_degrades_to_empty_fields_on_failure() {
    let a = read_ip_api(br#"{"status":"fail","message":"quota","country":"X"}"#).unwrap();
    assert!(!ip_api_succeeded(&a));
    assert_eq!(ip_api_error(&a), "ip-api 返回错误: quota");
    let g = my_ip_info_from(&a);
    assert!(g.country.is_empty() && g.region.is_empty() && g.city.is_empty() && g.isp.is_empty());
    let e = no_ip_info();
    assert!(e.country.is_empty() && e.isp.is_empty());
}

#[test]
fn result_image_summary_counts() {
    let row = |online: bool, recv: u64, speed: &str, nat: &str, tls: &str, top: u64| {
        let mut raw = [0u64; 20];
        raw[7] = top;
        RowFacts {
            online,
            total_recv_bytes: recv,
            avg_speed: speed.to_string(),
            nat_type: nat.to_string(),
            tls_verified: tls.to_string(),
            raw_speed: raw,
        }
    };
    let c = summary_counts(&[
        row(true, 100, "N/A", "", "Verified", 5),
        row(false, 20, "", "", "Failed", 900),
        row(true, 3, "N/A", "", "NotApplicable", 0),
    ]);
    assert_eq!((c.onlines, c.traffic, c.tls_ok, c.tls_fail, c.peak), (2, 123, 1, 1, 900));
    assert!(!c.show_speed && !c.show_udp);
    let d = summary_counts(&[row(true, 1, "1.00MB", "Unknown", "", 0)]);
    assert!(d.show_speed && d.show_udp);
    let e = summary_counts(&[]);
    assert_eq!((e.onlines, e.traffic, e.peak), (0, 0, 0));
}
