use std::time::Duration;

use node_speedtest::measure::{
    backfill_leading_zeros, geo_from_members, geo_unavailable, latency_parts, parse_geo_body, peak_of, slot_index,
    SampleMeter, MEASURE_MAX_MS, SAMPLE_SLOT_MS, WARMUP_MS,
};
use node_speedtest::json::JsonField;

#[test]
fn measure_window_fills_twenty_spark_slots() {
    assert_eq!(SAMPLE_SLOT_MS, 500);
    assert_eq!(Duration::from_millis(WARMUP_MS), Duration::from_secs(1));
    assert_eq!(Duration::from_millis(MEASURE_MAX_MS), Duration::from_secs(11));
    let sample_window_ms = MEASURE_MAX_MS.saturating_sub(WARMUP_MS);
    assert!(sample_window_ms / SAMPLE_SLOT_MS >= 20, "有效采样窗 {sample_window_ms}ms 不足以采满 20 格");
}

#[test]
fn sample_index_covers_full_array_after_warmup() {
    let mut raw = [0u64; 20];
    let after_ms = MEASURE_MAX_MS.saturating_sub(WARMUP_MS);
    let idx = slot_index(after_ms);
    let sample_i = node_speedtest::measure::fill_through(&mut raw, 0, idx, 1);
    let sample_i = node_speedtest::measure::fill_through(&mut raw, sample_i, 19, 1);
    assert_eq!(sample_i, 20);
    assert!(raw.iter().all(|&v| v > 0));
}

#[test]
fn slot_index_is_half_seconds_capped_at_last_slot() {
    assert_eq!(slot_index(0), 0);
    assert_eq!(slot_index(499), 0);
    assert_eq!(slot_index(500), 1);
    assert_eq!(slot_index(9999), 19);
    assert_eq!(slot_index(50_000), 19);
}

#[test]
fn meter_writes_nothing_during_warmup_then_fills_slots() {
    let mut m = SampleMeter::new();
    m.on_sample(250, 1000, 7);
    assert!(!m.warmup_ended);
    assert_eq!(m.sample_i, 0);
    m.on_sample(1000, 5000, 9);
    assert!(m.warmup_ended);
    assert_eq!(m.bytes_at_warmup_end, 5000);
    assert_eq!(m.sample_i, 1);
    assert_eq!(m.raw_speed[0], 9);
    m.on_sample(2250, 9000, 11);
    assert_eq!(m.sample_i, 3);
    assert_eq!(m.raw_speed[1], 11);
    assert_eq!(m.raw_speed[2], 11);
    assert_eq!(m.peak_raw, 11);
    assert_eq!(m.measured_bytes(9000), 4000);
    assert_eq!(m.final_measured_bytes(9000), 4000);
}

#[test]
fn finishing_fills_the_tail_and_backfills_the_head() {
    let mut m = SampleMeter::new();
    m.on_sample(1000, 0, 0);
    m.on_sample(1500, 100, 4);
    m.finish(false, 6);
    assert_eq!(m.sample_i, 20);
    assert_eq!(m.raw_speed[0], 4);
    assert_eq!(m.raw_speed[1], 4);
    assert!(m.raw_speed[2..].iter().all(|&v| v == 6));
    assert_eq!(m.peak_raw, 6);
}

#[test]
fn cancelled_window_keeps_what_it_measured() {
    let mut m = SampleMeter::new();
    m.on_sample(1000, 0, 3);
    m.finish(true, 99);
    assert_eq!(m.raw_speed[0], 3);
    assert!(m.raw_speed[1..].iter().all(|&v| v == 0));
    assert_eq!(m.peak_raw, 3);
    assert!(SampleMeter::window_over(11_000));
    assert!(!SampleMeter::window_over(10_999));
}

#[test]
fn warmup_that_never_ends_counts_every_byte() {
    let m = SampleMeter::new();
    assert_eq!(m.final_measured_bytes(1234), 1234);
    assert_eq!(m.measured_bytes(1234), 0);
}

#[test]
fn backfill_only_touches_leading_empty_slots() {
    let mut raw = [0u64; 20];
    raw[3] = 5;
    raw[7] = 0;
    raw[9] = 8;
    backfill_leading_zeros(&mut raw);
    assert_eq!(&raw[..4], &[5, 5, 5, 5]);
    assert_eq!(raw[7], 0);
    assert_eq!(raw[9], 8);
    let mut zero = [0u64; 20];
    backfill_leading_zeros(&mut zero);
    assert_eq!(zero, [0u64; 20]);
    assert_eq!(peak_of(&raw), 8);
}

#[test]
fn latency_drops_the_worst_of_three_or_more() {
    assert_eq!(latency_parts(&[]), None);
    assert_eq!(latency_parts(&[100, 200]), Some((300, 2)));
    assert_eq!(latency_parts(&[100, 300, 200]), Some((300, 2)));
    assert_eq!(latency_parts(&[50, 60, 70, 500, 80]), Some((260, 4)));
}

#[test]
fn geo_block_without_answer_is_not_available() {
    let g = geo_unavailable("1.2.3.4");
    assert_eq!(g.address, "1.2.3.4");
    assert_eq!(g.info, "N/A N/A, N/A");
    let g = parse_geo_body(None, "");
    assert_eq!(g.info, "N/A N/A, N/A");
    let g = parse_geo_body(Some(b"not json"), "h");
    assert_eq!(g.address, "h");
    assert_eq!(g.info, "N/A N/A, N/A");
}

#[test]
fn geo_block_reads_the_answer_members() {
    let body = br#"{"ip":"8.8.8.8","country":"United States","city":"Mountain View","isp":"Google","country_code":"US"}"#;
    let g = parse_geo_body(Some(body), "fallback");
    assert_eq!(g.address, "8.8.8.8");
    assert_eq!(g.ip, "8.8.8.8");
    assert_eq!(g.info, "United States Mountain View, Google");
    assert_eq!(g.organization, "Google");
    assert_eq!(g.country_code, "US");
    let body = br#"{"organization":5,"isp":"X"}"#;
    let g = parse_geo_body(Some(body), "fb");
    assert_eq!(g.address, "fb");
    assert_eq!(g.info, "N/A N/A, N/A");
    assert_eq!(g.country_code, "");
}

#[test]
fn organization_falls_back_to_isp_only_when_missing() {
    let g = geo_from_members(
        "fb",
        &JsonField::Absent,
        &JsonField::Text("C".into()),
        &JsonField::Other,
        &JsonField::Absent,
        &JsonField::Text("ISP".into()),
        &JsonField::Absent,
    );
    assert_eq!(g.info, "C N/A, ISP");
    assert_eq!(g.address, "fb");
}
