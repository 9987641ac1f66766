use astrocalc::weather::{freshest_cache, hours_within, parse_cache_timestamp, pick_fresh_cache};

const NS: i128 = 1_000_000_000;

fn strings(v: &[&str]) -> Vec<String> {
    v.iter().map(|s| s.to_string()).collect()
}

#[test]
fn cache_name_timestamp() {
    assert_eq!(parse_cache_timestamp("48.86_2.35_1700000000.yaml", "48.86_2.35"), Some(1_700_000_000));
    assert_eq!(parse_cache_timestamp("48.86_2.35_0.yaml", "48.86_2.35"), Some(0));
}

#[test]
fn cache_name_rejected_shapes() {
    let p = "48.86_2.35";
    assert_eq!(parse_cache_timestamp("48.86_2.35_.yaml", p), None);
    assert_eq!(parse_cache_timestamp("48.86_2.35_12a.yaml", p), None);
    assert_eq!(parse_cache_timestamp("48.86_2.35_12.yml", p), None);
    assert_eq!(parse_cache_timestamp("48.86_2.36_12.yaml", p), None);
    assert_eq!(parse_cache_timestamp("x48.86_2.35_12.yaml", p), None);
    assert_eq!(parse_cache_timestamp("48.86_2.35_-12.yaml", p), None);
    assert_eq!(parse_cache_timestamp("48.86_2.35_99999999999999999999.yaml", p), None);
}

#[test]
fn cache_prefix_dot_matches_any_character() {
    assert_eq!(parse_cache_timestamp("48x86_2y35_5.yaml", "48.86_2.35"), Some(5));
    assert_eq!(parse_cache_timestamp("48\n86_2.35_5.yaml", "48.86_2.35"), None);
}

#[test]
fn freshest_cache_file_wins() {
    let names = strings(&[
        "48.86_2.35_1000.yaml",
        "48.86_2.35_3000.yaml",
        "other.txt",
        "48.86_2.35_2000.yaml",
    ]);
    let now = 3_500 * NS;
    assert_eq!(pick_fresh_cache(&names, "48.86_2.35", now, 3_600 * NS), Some(1));
}

#[test]
fn stale_or_future_cache_files_are_ignored() {
    let names = strings(&["48.86_2.35_1000.yaml", "48.86_2.35_9000.yaml"]);
    let now = 5_000 * NS;
    assert_eq!(pick_fresh_cache(&names, "48.86_2.35", now, 1_000 * NS), None);
    assert_eq!(pick_fresh_cache(&names, "48.86_2.35", now, 4_000 * NS), Some(0));
    let same_instant = strings(&["48.86_2.35_5000.yaml"]);
    assert_eq!(pick_fresh_cache(&same_instant, "48.86_2.35", now, 4_000 * NS), None);
}

#[test]
fn equal_ages_keep_the_first_file() {
    let names = strings(&["48.86_2.35_2000.yaml", "48.86_2.35_02000.yaml"]);
    assert_eq!(pick_fresh_cache(&names, "48.86_2.35", 2_500 * NS, 1_000 * NS), Some(0));
}

#[test]
fn hourly_samples_inside_window() {
    let times = vec![0, 3_600_000, 7_200_000, 10_800_000, 14_400_000];
    assert_eq!(hours_within(&times, 3_600_000, 10_800_000), vec![1, 2, 3]);
    assert_eq!(hours_within(&times, 3_600_001, 3_600_002), Vec::<usize>::new());
    assert_eq!(hours_within(&times, 10, 0), Vec::<usize>::new());
}

#[test]
fn unrepresentable_timestamps_are_skipped() {
    let names = strings(&["48.86_2.35_1000.yaml", "48.86_2.35_3000.yaml", "48.86_2.35_2000.yaml"]);
    let now = 3_500 * NS;
    assert_eq!(freshest_cache(&names, "48.86_2.35", now, 3_600 * NS, &vec![true, true, true]), Some(1));
    assert_eq!(freshest_cache(&names, "48.86_2.35", now, 3_600 * NS, &vec![true, false, true]), Some(2));
    assert_eq!(freshest_cache(&names, "48.86_2.35", now, 3_600 * NS, &vec![false, false, false]), None);
}

#[test]
fn far_future_cache_name_is_not_usable() {
    let names = strings(&["p_9000000000000000.yaml", "p_100.yaml"]);
    assert_eq!(pick_fresh_cache(&names, "p", 9_000_000_000_000_001 * NS, 2 * NS), None);
    assert_eq!(pick_fresh_cache(&names, "p", 200 * NS, 1_000 * NS), Some(1));
}

#[test]
fn calendar_range_bounds_of_cache_names() {
    // 262142-12-31 23:59:59 UTC is the last representable second; one more is not.
    let last = strings(&["p_8210266876799.yaml"]);
    let beyond = strings(&["p_8210266876800.yaml"]);
    let now = 8_210_266_876_800 * NS;
    assert_eq!(pick_fresh_cache(&last, "p", now, 2 * NS), Some(0));
    assert_eq!(pick_fresh_cache(&beyond, "p", now + NS, 2 * NS), None);
}
