use node_speedtest::engine::BatchFields;
use node_speedtest::node_test::{single_test_step, TestAction, TestEvent, TestStage};
use node_speedtest::engine::{
    completed_positions, controller_ready, core_alive, count_failed_probes, current_result, decide_start,
    delay_endpoints, export_base_name, file_import_reply, get_route, is_file_config_route, is_ping_only, launch_check,
    match_targets, node_online, normalize_sort_method, number_imported, post_route, reconcile_provider,
    reported_results, request_path, resolve_test_group, result_done, status_text, stop_reply, sub_size_error,
    sub_status_error, subscription_request, unknown_path_error, version_output, web_type, within_cooldown,
    BatchCursor, GetRoute, NodeConfigFields, NodeConfigIn, PostRoute, StartDecision, StartRequest, SubRequest,
};
use node_speedtest::sub::{build_providers_config, NodeInfo};

fn node(group: &str, remarks: &str, server: &str, port: i32) -> NodeInfo {
    NodeInfo {
        id: -1,
        group: group.into(),
        remarks: remarks.into(),
        server: server.into(),
        port,
        proxy_str: String::new(),
        proxy_type: String::new(),
        raw_unit: format!("ss://x@{server}:{port}"),
        is_link_unit: true,
    }
}

fn cfg(group: &str, remarks: &str, server: &str, port: i32) -> NodeConfigIn {
    NodeConfigIn {
        kind: "SS".into(),
        config: NodeConfigFields { group: group.into(), remarks: remarks.into(), server: server.into(), server_port: port },
    }
}

#[test]
fn routes_ignore_the_query() {
    assert_eq!(request_path("/getresults?x=1"), "/getresults");
    assert_eq!(get_route("/status"), GetRoute::Status);
    assert_eq!(get_route("/getversion?t=2"), GetRoute::Version);
    assert_eq!(get_route("/checkappupdate"), GetRoute::CheckAppUpdate);
    assert_eq!(get_route("/nope"), GetRoute::Unknown);
    assert_eq!(post_route("/start"), PostRoute::Start);
    assert_eq!(post_route("/readsubscriptions?a"), PostRoute::ReadSubscriptions);
    assert!(is_file_config_route("/readfileconfig?x"));
    assert!(!is_file_config_route("/start"));
    assert_eq!(unknown_path_error("/x?y"), "未知路径: /x");
    assert_eq!(status_text(true), "running");
    assert_eq!(stop_reply(false), "stopped");
    assert_eq!(stop_reply(true), "stopping");
}

#[test]
fn sort_methods_are_normalised() {
    assert_eq!(normalize_sort_method("Reverse_Speed"), "rspeed");
    assert_eq!(normalize_sort_method("PING"), "ping");
    assert_eq!(normalize_sort_method("reverse_reverse_x"), "rrx");
    assert!(is_ping_only("TCP_PING"));
    assert!(!is_ping_only("FULL"));
}

#[test]
fn group_label_defaults_when_blank() {
    assert_eq!(resolve_test_group("  ", &[]), "Node Speedtest");
    assert_eq!(resolve_test_group(" My ", &[]), "My");
}

#[test]
fn targets_follow_the_chosen_order() {
    let all = vec![node("D", "a", "h1", 1), node("D", "b", "h2", 2), node("D", "a", "h1", 1)];
    let picked = match_targets(&all, &[cfg("D", "b", "h2", 2), cfg("D", "zz", "h9", 9), cfg("D", "a", "h1", 1)]);
    assert_eq!(picked.len(), 2);
    assert_eq!(picked[0].remarks, "b");
    assert_eq!(picked[0].id, 0);
    assert_eq!(picked[1].remarks, "a");
    assert_eq!(picked[1].id, 1);
}

#[test]
fn start_requests_are_gated() {
    let all = vec![node("D", "a", "h1", 1)];
    let req = StartRequest {
        configs: vec![cfg("D", "a", "h1", 1)],
        test_mode: "TCP_PING".into(),
        sort_method: "Reverse_Ping".into(),
        group: "".into(),
    };
    assert!(matches!(decide_start(&all, &req, true, false, false), Ok(StartDecision::Busy)));
    assert!(matches!(decide_start(&all, &req, false, true, false), Ok(StartDecision::Busy)));
    assert!(matches!(decide_start(&all, &req, false, false, true), Ok(StartDecision::Done)));
    match decide_start(&all, &req, false, false, false) {
        Ok(StartDecision::Start { targets, ping_only, sort_method, group_label }) => {
            assert_eq!(targets.len(), 1);
            assert_eq!(targets[0].group, "Node Speedtest");
            assert!(ping_only);
            assert_eq!(sort_method, "rping");
            assert_eq!(group_label, "Node Speedtest");
        },
        _ => panic!("expected a start"),
    }
    let none = StartRequest { configs: vec![cfg("X", "y", "z", 0)], test_mode: "".into(), sort_method: "".into(), group: "".into() };
    match decide_start(&all, &none, false, false, false) {
        Err(e) => assert_eq!(e, "没有匹配到可测节点，请重新导入订阅"),
        _ => panic!("expected an error"),
    }
    assert!(within_cooldown(4999));
    assert!(!within_cooldown(5000));
}

#[test]
fn subscription_requests_choose_fetch_or_import() {
    match subscription_request(r#"{"url":" https://example.com/s "}"#) {
        Ok(SubRequest::Fetch(u)) => assert_eq!(u, "https://example.com/s"),
        _ => panic!("fetch expected"),
    }
    match subscription_request(r#"{"url":"trojan://p@h:1"}"#) {
        Ok(SubRequest::Import(u)) => assert_eq!(u, "trojan://p@h:1"),
        _ => panic!("import expected"),
    }
    match subscription_request(r#"{"url":"https://a\nhttps://b"}"#) {
        Ok(SubRequest::Import(_)) => {},
        _ => panic!("multi-line text is imported"),
    }
    assert_eq!(subscription_request(r#"{"url":"  "}"#).err().unwrap(), "订阅链接为空");
    assert_eq!(subscription_request(r#"{"other":1}"#).err().unwrap(), "订阅链接为空");
    assert!(subscription_request("{").err().unwrap().starts_with("JSON 无效: "));
}

#[test]
fn imports_are_numbered() {
    let mut v = vec![node("D", "a", "h", 1), node("D", "b", "h", 2)];
    assert!(number_imported(&mut v).is_ok());
    assert_eq!((v[0].id, v[1].id), (0, 1));
    let mut empty: Vec<NodeInfo> = Vec::new();
    assert_eq!(number_imported(&mut empty).unwrap_err(), "未解析到可测速节点");
    assert_eq!(file_import_reply(Err("x".into())), "error");
    assert_eq!(file_import_reply(Ok("[]".into())), "[]");
}

#[test]
fn subscription_download_checks() {
    assert!(sub_status_error(200).is_none());
    assert_eq!(sub_status_error(404).unwrap(), "下载订阅 HTTP 404");
    assert!(sub_size_error(10 * 1024 * 1024).is_none());
    assert_eq!(sub_size_error(10 * 1024 * 1024 + 1).unwrap(), "订阅过大(10485761 字节，上限 10 MB)");
}

#[test]
fn launch_needs_units_for_the_core() {
    let b = build_providers_config(&[], 1, "c");
    assert_eq!(launch_check(0, &b).unwrap_err(), "无节点");
    assert_eq!(launch_check(3, &b).unwrap_err(), "没有可交给 mihomo 的节点");
    let b = build_providers_config(&[node("D", "a", "h", 1)], 1, "c");
    assert!(launch_check(1, &b).is_ok());
}

#[test]
fn provider_listing_names_the_units() {
    let mut v = vec![node("D", "a", "h", 1), node("D", "b", "h", 2), node("D", "c", "h", 3)];
    let body = br#"{"proxies":[{"name":"A","type":"Shadowsocks"},{"name":7,"type":"Trojan"}]}"#;
    reconcile_provider(&mut v, &[2, 0], body);
    assert_eq!(v[2].proxy_str, "A");
    assert_eq!(v[2].proxy_type, "Shadowsocks");
    assert_eq!(v[0].proxy_str, "");
    assert_eq!(v[0].proxy_type, "Trojan");
    assert_eq!(v[1].proxy_type, "");
    let mut w = vec![node("D", "a", "h", 1)];
    reconcile_provider(&mut w, &[0], b"garbage");
    assert_eq!(w[0].proxy_str, "");
}

#[test]
fn stopped_polls_report_only_completed_units() {
    assert!(result_done(true, 1, 3, &[]));
    assert!(!result_done(false, 1, 3, &[]));
    assert!(result_done(false, 1, 3, &[1]));
    assert_eq!(reported_results(&[0, -1, 1, 2], true, 2, &[0]), vec![0, 2]);
    assert_eq!(reported_results(&[0, 1, 2], false, 2, &[2]), vec![2]);
    assert_eq!(completed_positions(&[5, 6, 7], &[7, 5]), vec![0, 2]);
    assert_eq!(current_result(&[3, 4, 4], true, 4), Some(1));
    assert_eq!(current_result(&[3, 4], false, 4), None);
    assert_eq!(current_result(&[3, 4], true, -1), None);
}

#[test]
fn batch_cursor_hands_out_units_in_order_until_cancelled() {
    let mut c = BatchCursor::new(3);
    assert_eq!(c.next_unit(false), Some(0));
    c.unit_finished(false);
    assert_eq!(c.next_unit(false), Some(1));
    c.unit_finished(true);
    assert_eq!(c.next_unit(false), None);
    let mut d = BatchCursor::new(1);
    assert_eq!(d.next_unit(false), Some(0));
    assert_eq!(d.next_unit(false), None);
    let mut e = BatchCursor::new(2);
    assert_eq!(e.next_unit(true), None);
}

#[test]
fn small_engine_decisions() {
    assert_eq!(web_type(""), "Unknown");
    assert_eq!(web_type("Trojan"), "Trojan");
    assert!(node_online(true, true, 0));
    assert!(!node_online(true, false, 100));
    assert!(node_online(false, false, 100));
    assert!(controller_ready(r#"{"version":"1.19"}"#));
    assert!(!controller_ready("{}"));
    assert!(core_alive(404));
    assert!(!core_alive(502));
    assert_eq!(version_output("  \n", "Mihomo v1"), "Mihomo v1");
    assert_eq!(version_output("out", "err"), "out");
    assert_eq!(export_base_name("orig", ""), "orig");
    assert_eq!(export_base_name("orig", "a:b"), "a_b");
    let mut raw = [10i32; 10];
    raw[2] = 0;
    raw[9] = 0;
    assert_eq!(count_failed_probes(&raw), 2);
}

#[test]
fn delay_endpoints_encode_the_names() {
    let (a, b) = delay_endpoints("香港 01");
    assert_eq!(
        a,
        "http://127.0.0.1:9990/proxies/GLOBAL/delay?timeout=8000&url=https%3A%2F%2Fcp.cloudflare.com%2Fgenerate_204"
    );
    assert_eq!(
        b,
        "http://127.0.0.1:9990/proxies/%E9%A6%99%E6%B8%AF%2001/delay?timeout=8000&url=https%3A%2F%2Fcp.cloudflare.com%2Fgenerate_204"
    );
}

#[test]
fn node_test_full_sequence() {
    use_step_sequence();
}

fn use_step_sequence() {
    let (s, a) = single_test_step(TestStage::Start, TestEvent::Began, false, false, false);
    assert_eq!(a, TestAction::CheckAlive);
    let (s, a) = single_test_step(s, TestEvent::Alive(true), false, false, false);
    assert_eq!(a, TestAction::SwitchProxy);
    let (s, a) = single_test_step(s, TestEvent::Switched(false), false, false, false);
    assert_eq!(a, TestAction::RetrySwitch);
    let (s, a) = single_test_step(s, TestEvent::Switched(true), false, false, false);
    assert_eq!(a, TestAction::ProbeLatency);
    let (s, a) = single_test_step(s, TestEvent::Latency(false), false, false, false);
    assert_eq!(a, TestAction::DetectNat);
    let (s, a) = single_test_step(s, TestEvent::NatDone, false, false, false);
    assert_eq!(a, TestAction::VerifyTls);
    let (s, a) = single_test_step(s, TestEvent::TlsDone, false, false, false);
    assert_eq!(a, TestAction::DownloadWithGeo);
    let (s, a) = single_test_step(s, TestEvent::Downloaded(42), false, false, false);
    assert_eq!(a, TestAction::Publish { online: true });
    assert_eq!(s, TestStage::Done);
}

#[test]
fn node_test_failures_and_stops() {
    assert_eq!(
        single_test_step(TestStage::Start, TestEvent::Began, false, false, true),
        (TestStage::Done, TestAction::Stop)
    );
    assert_eq!(
        single_test_step(TestStage::AwaitAlive, TestEvent::Alive(false), false, false, false),
        (TestStage::Done, TestAction::FailNode)
    );
    assert_eq!(
        single_test_step(TestStage::AwaitAlive, TestEvent::Alive(true), false, true, false),
        (TestStage::Done, TestAction::MarkOffline)
    );
    assert_eq!(
        single_test_step(TestStage::Switching { retried: true }, TestEvent::Switched(false), false, false, false),
        (TestStage::Done, TestAction::FailNode)
    );
    assert_eq!(
        single_test_step(TestStage::Nat { latency_ok: true }, TestEvent::NatDone, false, false, true),
        (TestStage::Done, TestAction::Stop)
    );
    assert_eq!(
        single_test_step(TestStage::Download { latency_ok: false }, TestEvent::Downloaded(0), false, false, false),
        (TestStage::Done, TestAction::Publish { online: false })
    );
}

#[test]
fn node_test_latency_only_mode() {
    let (s, a) = single_test_step(TestStage::Latency, TestEvent::Latency(true), true, false, false);
    assert_eq!(a, TestAction::GeoNatTls);
    assert_eq!(single_test_step(s, TestEvent::ExtrasDone, true, false, false).1, TestAction::Publish { online: true });
    let (s, _) = single_test_step(TestStage::Latency, TestEvent::Latency(false), true, false, true);
    assert_eq!(single_test_step(s, TestEvent::ExtrasDone, true, false, true).1, TestAction::Publish { online: false });
}

#[test]
fn batch_fields_follow_a_batch() {
    let mut b = BatchFields::new();
    assert!(!b.running && b.current_id == 0);
    b.begin(true, "ping".to_string(), "G".to_string());
    assert!(b.running && b.ping_only && b.current_id == -1 && b.completed.is_empty());
    b.test_node(0);
    b.complete(0);
    b.complete(0);
    assert_eq!(b.completed, vec![0]);
    b.finish();
    assert!(!b.running && b.current_id == -1 && b.completed == vec![0]);
    assert_eq!((b.sort_method.as_str(), b.custom_group.as_str()), ("ping", "G"));
    b.clear_progress(true);
    assert!(b.completed.is_empty() && !b.running);
}
