use node_speedtest::canvas::alpha_bounds;
use node_speedtest::calendar::{civil_from_days, days_to_ymd, format_clock};
use node_speedtest::cancel::CancelFlag;
use node_speedtest::canvas::{inside_round_rect_exec, Canvas, Rgb};
use node_speedtest::emoji::{code_to_flag, keyword_country_code, resolve_flag, split_flag};
use node_speedtest::rlog::{info, log_line};
use node_speedtest::socks::{connect_request, greeting_accepted, reply_addr_kind, ReplyAddrKind, GREETING};
use node_speedtest::stun::{
    combine_nat, make_tid_from, nat_needs_retry, parse_ipv4_text, parse_stun, unwrap_socks_udp, wrap_socks_udp,
    NatType,
};
use node_speedtest::text::parse_i32_chars;
use node_speedtest::tls_check::{
    connect_reply_tail, handshake_conclusion, handshake_error_outcome, reply_tail_len, verdict_of, TlsVerifyState,
};
use node_speedtest::version::{compare_version, mihomo_asset_name, parse_mihomo_cli_version, update_available};

#[test]
fn civil_dates_from_day_numbers() {
    assert_eq!(days_to_ymd(0), (1970, 1, 1));
    assert_eq!(days_to_ymd(11016), (2000, 2, 29));
    assert_eq!(days_to_ymd(-1), (1969, 12, 31));
    assert_eq!(civil_from_days(19675), (2023, 11, 14));
    assert_eq!(format_clock(0), "1970-01-01 00:00:00");
    assert_eq!(format_clock(1700000000 + 28800), "2023-11-15 06:13:20");
}

#[test]
fn flags_from_names_and_codes() {
    let (f, rest) = split_flag("🇭🇰 香港 01");
    assert_eq!(f.as_deref(), Some("🇭🇰"));
    assert_eq!(rest, "香港 01");
    let (f, rest) = split_flag("plain");
    assert!(f.is_none());
    assert_eq!(rest, "plain");
    assert_eq!(code_to_flag("jp").as_deref(), Some("🇯🇵"));
    assert!(code_to_flag("J1").is_none());
    assert_eq!(keyword_country_code("香港 IEPL"), Some("HK"));
    assert_eq!(keyword_country_code("nowhere"), None);
    let (f, rest) = resolve_flag("🇺🇸 node", "", "");
    assert_eq!(f.as_deref(), Some("🇺🇸"));
    assert_eq!(rest, "node");
}

#[test]
fn versions_compare_numerically() {
    assert_eq!(compare_version("v1.19.10", "v1.19.9"), 1);
    assert_eq!(compare_version("1.2", "1.2.0"), 0);
    assert_eq!(compare_version("v1.2", "v1.10"), -1);
    assert!(update_available("v1.19.30", "v1.19.29"));
    assert!(!update_available("", "v1"));
    assert_eq!(parse_mihomo_cli_version("Mihomo Meta v1.19.29 linux amd64"), "v1.19.29");
    assert_eq!(parse_mihomo_cli_version("nothing here"), "");
    let (name, zipped) = mihomo_asset_name("windows", "x86_64", "v1.2.3").unwrap();
    assert_eq!(name, "mihomo-windows-amd64-v1.2.3.zip");
    assert!(zipped);
    assert!(mihomo_asset_name("plan9", "x86_64", "v1").is_none());
}

#[test]
fn stun_answers_are_parsed() {
    let tid = make_tid_from(0x0102_0304_0506_0708);
    assert_eq!(&tid[..4], &[0x21, 0x12, 0xa4, 0x42]);
    let mut p = vec![0x01u8, 0x01, 0x00, 0x18];
    p.extend_from_slice(&tid);
    p.extend_from_slice(&[0x00, 0x01, 0x00, 0x08, 0x00, 0x01, 0x1f, 0x90, 1, 2, 3, 4]);
    p.extend_from_slice(&[0x00, 0x05, 0x00, 0x08, 0x00, 0x01, 0x0d, 0x96, 5, 6, 7, 8]);
    let r = parse_stun(&p, &tid).unwrap();
    assert!(!r.failed);
    assert_eq!((r.ext_ip.0, r.ext_ip.1, r.ext_ip.2, r.ext_ip.3, r.ext_port), (1, 2, 3, 4, 8080));
    assert_eq!((r.change_ip.0, r.change_port), (5, 3478));
    let mut other = tid;
    other[15] ^= 1;
    assert!(parse_stun(&p, &other).is_none());
    assert!(parse_stun(&p[..10], &tid).is_none());
}

#[test]
fn socks_udp_frames_round_trip() {
    let framed = wrap_socks_udp("1.2.3.4", 3478, b"data");
    assert_eq!(&framed[..10], &[0, 0, 0, 1, 1, 2, 3, 4, 0x0d, 0x96]);
    assert_eq!(unwrap_socks_udp(&framed).unwrap(), b"data");
    let named = wrap_socks_udp("stun.example", 19302, b"x");
    assert_eq!(named[3], 3);
    assert_eq!(unwrap_socks_udp(&named).unwrap(), b"x");
    assert!(unwrap_socks_udp(&[0, 0, 1, 1, 0, 0, 0, 0, 0, 0]).is_none());
    assert_eq!(parse_ipv4_text("10.0.0.255"), Some((10, 0, 0, 255)));
    assert!(parse_ipv4_text("10.0.0.256").is_none());
    assert!(parse_ipv4_text("01.2.3.4").is_none());
}

#[test]
fn nat_retry_keeps_conclusive_answers() {
    assert!(nat_needs_retry(NatType::Blocked));
    assert!(!nat_needs_retry(NatType::Symmetric));
    assert_eq!(combine_nat(NatType::FullCone, Some(NatType::Symmetric)), NatType::FullCone);
    assert_eq!(combine_nat(NatType::Blocked, Some(NatType::Symmetric)), NatType::Symmetric);
    assert_eq!(combine_nat(NatType::Unknown, Some(NatType::Blocked)), NatType::Unknown);
    assert_eq!(NatType::PortRestrictedCone.as_str(), "PortRestrictedCone");
}

#[test]
fn socks_requests_and_replies() {
    assert_eq!(GREETING, [5, 1, 0]);
    assert!(greeting_accepted(&[5, 0]));
    assert!(!greeting_accepted(&[5, 2]));
    assert_eq!(connect_request("ab", 443).unwrap(), vec![5, 1, 0, 3, 2, b'a', b'b', 1, 187]);
    assert!(connect_request(&"a".repeat(256), 1).is_none());
    assert_eq!(reply_addr_kind(4), Some(ReplyAddrKind::V6));
    assert_eq!(reply_addr_kind(2), None);
}

#[test]
fn tls_check_decisions() {
    assert_eq!(connect_reply_tail(&[5, 0, 0, 1]).unwrap(), ReplyAddrKind::V4);
    assert_eq!(connect_reply_tail(&[5, 5, 0, 1]).unwrap_err(), "socks connect failed 5");
    assert_eq!(connect_reply_tail(&[5, 0, 0, 9]).unwrap_err(), "bad atyp");
    assert_eq!(reply_tail_len(ReplyAddrKind::V4, 0), 6);
    assert_eq!(reply_tail_len(ReplyAddrKind::Domain, 10), 12);
    assert_eq!(reply_tail_len(ReplyAddrKind::V6, 0), 18);
    assert_eq!(handshake_conclusion(Ok(())), Ok(true));
    assert_eq!(handshake_conclusion(Err("invalid peer certificate: UnknownIssuer".into())), Ok(false));
    assert_eq!(handshake_conclusion(Err("connection reset".into())), Err("connection reset".to_string()));
    assert_eq!(handshake_error_outcome("Certificate EXPIRED"), Some(false));
    assert_eq!(verdict_of(Ok(true)), TlsVerifyState::Verified);
    assert_eq!(verdict_of(Ok(false)), TlsVerifyState::Failed);
    assert_eq!(verdict_of(Err("x".into())), TlsVerifyState::NotApplicable);
    assert_eq!(TlsVerifyState::NotApplicable.as_str(), "NotApplicable");
}

#[test]
fn log_lines_and_cancellation() {
    assert_eq!(log_line("T", "INFO", "hello"), "[T] [INFO] hello\n");
    let l = info("m");
    assert!(l.starts_with('[') && l.ends_with("] [INFO] m\n"));
    let a = CancelFlag::new();
    let b = a.child_token();
    assert!(!b.is_cancelled());
    a.cancel();
    assert!(b.is_cancelled());
    assert!(a.same_as(&b));
    assert!(!a.same_as(&CancelFlag::new()));
}

#[test]
fn integer_parsing_follows_str_parse() {
    let p = |s: &str| parse_i32_chars(&s.chars().collect::<Vec<char>>());
    assert_eq!(p("443"), Some(443));
    assert_eq!(p("+7"), Some(7));
    assert_eq!(p("-2147483648"), Some(i32::MIN));
    assert_eq!(p("2147483648"), None);
    assert_eq!(p("-"), None);
    assert_eq!(p(""), None);
    assert_eq!(p(" 1"), None);
    for s in ["0", "12", "-12", "2147483647", "00012", "1a", "--1"] {
        assert_eq!(p(s), s.parse::<i32>().ok());
    }
}

#[test]
fn canvas_shapes_paint_the_right_pixels() {
    let bg = Rgb { r: 0, g: 0, b: 0 };
    let fg = Rgb { r: 255, g: 1, b: 2 };
    let mut c = Canvas::new(10, 8, bg);
    c.fill_rect(2, 2, 3, 2, fg);
    assert_eq!(c.pixels[2 * 10 + 2], fg);
    assert_eq!(c.pixels[3 * 10 + 4], fg);
    assert_eq!(c.pixels[3 * 10 + 5], bg);
    c.put(-1, 0, fg);
    c.put(10, 0, fg);
    assert!(c.pixels[..10].iter().all(|&p| p == bg));
    c.hline(7, 5, 7, fg);
    assert_eq!(&c.pixels[75..78], &[fg, fg, fg]);
    assert_eq!(c.pixels[74], bg);
    assert!(inside_round_rect_exec(5, 5, 0, 0, 10, 10, 3));
    assert!(!inside_round_rect_exec(0, 0, 0, 0, 10, 10, 3));
    assert!(inside_round_rect_exec(0, 0, 0, 0, 10, 10, 0));
    let mut r = Canvas::new(10, 10, bg);
    r.fill_round_rect(0, 0, 10, 10, 3, fg);
    assert_eq!(r.pixels[0], bg);
    assert_eq!(r.pixels[5 * 10 + 5], fg);
    let mut s = Canvas::new(12, 12, bg);
    s.stroke_round_rect(2, 2, 8, 8, 0, fg, 1);
    assert_eq!(s.pixels[2 * 12 + 2], fg);
    assert_eq!(s.pixels[5 * 12 + 5], bg);
    let mut t = Canvas::new(10, 10, bg);
    t.fill_round_rect_top(0, 0, 10, 10, 3, fg);
    assert_eq!(t.pixels[0], bg);
    assert_eq!(t.pixels[9 * 10], fg);
}

#[test]
fn alpha_bounds_box_of_visible_pixels() {
    // 4 x 3 plane, visible pixels at (1,0) and (2,2)
    let alpha = [0u8, 200, 0, 0, 0, 5, 0, 0, 0, 0, 90, 0];
    assert_eq!(alpha_bounds(&alpha, 4, 3, 8), Some((1, 0, 2, 2)));
    assert_eq!(alpha_bounds(&alpha, 4, 3, 201), None);
    assert_eq!(alpha_bounds(&alpha, 4, 3, 5), Some((1, 0, 2, 2)));
    assert_eq!(alpha_bounds(&[], 0, 0, 1), None);
}

#[test]
fn civil_dates_around_leap_day_and_epoch() {
    assert_eq!(civil_from_days(0), (1970, 1, 1));
    assert_eq!(civil_from_days(-1), (1969, 12, 31));
    assert_eq!(civil_from_days(19782), (2024, 2, 29));
    assert_eq!(civil_from_days(19783), (2024, 3, 1));
}

#[test]
fn version_compare_by_digit_runs() {
    assert_eq!(compare_version("v1.19.29", "v1.19.3"), 1);
    assert_eq!(compare_version("v1.19.3", "v1.19.29"), -1);
    assert_eq!(compare_version("v1.2.0", "1.2"), 0);
}
