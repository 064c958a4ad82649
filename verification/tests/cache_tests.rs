use referral_list::cache::{file_stamp, find_cache_hit, is_cache_hit, snapshot_file_name};

#[test]
fn cache_window_edges() {
    // A snapshot written at t answers queries through t + 3599 and not at
    // t + 3600 or later.
    let t = 1_700_000_000u64;
    assert!(is_cache_hit(t, t));
    assert!(is_cache_hit(t, t + 1));
    assert!(is_cache_hit(t, t + 3599));
    assert!(!is_cache_hit(t, t + 3600));
    assert!(!is_cache_hit(t, t + 50_000));
    // A snapshot from the future never hits.
    assert!(!is_cache_hit(t, t - 1));
}

#[test]
fn file_stamps_read_the_prefix() {
    assert_eq!(file_stamp("1700000000.json"), Some(1_700_000_000));
    assert_eq!(file_stamp("12.34.json"), Some(12));
    assert_eq!(file_stamp("nodot"), None);
    assert_eq!(file_stamp("abc.json"), None);
    assert_eq!(file_stamp(".json"), None);
    assert_eq!(file_stamp("99999999999999999999999.json"), None);
}

#[test]
fn first_fresh_snapshot_wins() {
    let names = vec![
        "notes.txt".to_string(),
        "100.json".to_string(),
        "3000.json".to_string(),
        "3500.json".to_string(),
    ];
    // At 3700 the 100-second snapshot is expired; 3000 is the first hit,
    // even though 3500 is fresher.
    assert_eq!(find_cache_hit(&names, 3700), Some(2));
    assert_eq!(find_cache_hit(&names, 100_000), None);
    assert_eq!(find_cache_hit(&Vec::new(), 3700), None);
}

#[test]
fn snapshot_names_round_trip() {
    let name = snapshot_file_name(1_700_000_123);
    assert_eq!(name, "1700000123.json");
    assert_eq!(file_stamp(&name), Some(1_700_000_123));
}
