use toroidal_tql::context::ContextKey;

#[test]
fn context_key_constructors() {
    assert_eq!(ContextKey::user_role("admin"), ContextKey::UserRole("admin".to_string()));
    assert_eq!(ContextKey::device("mobile"), ContextKey::DeviceClass("mobile".to_string()));
    assert_eq!(ContextKey::custom("k"), ContextKey::Custom("k".to_string()));
}

#[test]
fn hour_is_capped_at_23() {
    assert_eq!(ContextKey::hour(5), ContextKey::HourOfDay(5));
    assert_eq!(ContextKey::hour(23), ContextKey::HourOfDay(23));
    assert_eq!(ContextKey::hour(24), ContextKey::HourOfDay(23));
    assert_eq!(ContextKey::hour(255), ContextKey::HourOfDay(23));
}
