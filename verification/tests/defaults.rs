use fs_guard::query::{
    default_false, default_file_pattern, default_max_file_size, default_max_results,
    default_timeout, default_true, default_zero,
};

#[test]
fn query_defaults_match_documented_values() {
    assert_eq!(default_file_pattern(), "*");
    assert!(default_true());
    assert!(!default_false());
    assert_eq!(default_zero(), 0);
    assert_eq!(default_max_results(), 100);
    assert_eq!(default_max_file_size(), 10 * 1024 * 1024);
    assert_eq!(default_timeout(), 30);
}
