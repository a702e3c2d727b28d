use agent_skills::cli::{scan_exit_status, sources_exit_status, upload_abort_message, upload_may_proceed};
use agent_skills::store::{connection_url, Address, DEFAULT_CONNECTION_URL};
use agent_skills::text::{decimal_string, str_contains, trim_string};

#[test]
fn exit_statuses() {
    assert_eq!(scan_exit_status(true), 1);
    assert_eq!(scan_exit_status(false), 0);
    assert!(upload_may_proceed(false));
    assert!(!upload_may_proceed(true));
    assert_eq!(sources_exit_status(true, true), 1);
    assert_eq!(sources_exit_status(false, true), 0);
    assert_eq!(sources_exit_status(true, false), 0);
    assert!(upload_abort_message().starts_with("aborting upload"));
}

#[test]
fn database_location() {
    assert_eq!(connection_url(None), "sqlite::memory:");
    assert_eq!(DEFAULT_CONNECTION_URL, "sqlite::memory:");
    assert_eq!(connection_url(Some("sqlite:./x.db".into())), "sqlite:./x.db");
    let a = Address { street: "1 Analytical Way".into(), city: "London".into(), country: "GB".into() };
    assert_eq!(a.clone(), a);
}

#[test]
fn text_helpers() {
    assert_eq!(decimal_string(0), "0");
    assert_eq!(decimal_string(1024), "1024");
    assert_eq!(decimal_string(u64::MAX), u64::MAX.to_string());
    assert_eq!(trim_string("\u{3000} a b \u{85}"), "a b");
    for s in [" x ", "\t\n", "", "a\u{a0}", "\u{200b}z"] {
        assert_eq!(trim_string(s), s.trim(), "{s:?}");
    }
    assert!(str_contains("abc", "bc"));
    assert!(str_contains("abc", ""));
    assert!(!str_contains("ab", "abc"));
}
