use node_speedtest::history::{history_items, HistoryFile};

fn file(stem: &str, ext: &str, size: u64, modified_ms: i64) -> HistoryFile {
    HistoryFile {
        stem: stem.to_string(),
        ext: ext.to_string(),
        path: format!("results/{stem}.{ext}"),
        size,
        modified_ms,
    }
}

#[test]
fn history_groups_log_and_image_by_stem() {
    let items = history_items(&[file("a", "log", 10, 100), file("a", "png", 20, 300), file("b", "txt", 5, 999)]);
    assert_eq!(items.len(), 1);
    assert_eq!(items[0].name, "a");
    assert_eq!(items[0].log_path.as_deref(), Some("results/a.log"));
    assert_eq!(items[0].image_path.as_deref(), Some("results/a.png"));
    assert_eq!(items[0].size, 30);
    assert_eq!(items[0].modified_ms, 300);
}

#[test]
fn history_newest_first_then_by_name() {
    let items = history_items(&[
        file("old", "log", 1, 10),
        file("zeta", "png", 1, 50),
        file("alpha", "PNG", 1, 50),
        file("new", "Log", 1, 90),
    ]);
    let names: Vec<&str> = items.iter().map(|i| i.name.as_str()).collect();
    assert_eq!(names, vec!["new", "alpha", "zeta", "old"]);
    assert_eq!(items[1].image_path.as_deref(), Some("results/alpha.PNG"));
    assert!(items[1].log_path.is_none());
}

#[test]
fn history_time_never_below_zero() {
    let items = history_items(&[file("x", "log", 3, -5)]);
    assert_eq!(items[0].modified_ms, 0);
}

#[test]
fn history_empty_without_results() {
    assert!(history_items(&[file("x", "json", 3, 5)]).is_empty());
    assert!(history_items(&[]).is_empty());
}
