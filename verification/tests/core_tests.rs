use kira_core::info::parse_battery;

#[test]
fn test_parse_battery() {
    assert_eq!(parse_battery("level:50"), Some(50));
    assert_eq!(parse_battery("level: 75"), Some(75));
    assert_eq!(parse_battery("level:100"), Some(100));
    assert_eq!(parse_battery("level:0"), Some(0));
    assert_eq!(parse_battery("other:50"), None);
    assert_eq!(parse_battery("level:"), None);
    assert_eq!(parse_battery(""), None);
}
