use toroidal_tql::ast::EmitClause;
use toroidal_tql::subscription_manager::{ActiveSubscription, SubscriptionManager, SubscriptionStatus};

const NOW: u64 = 1_700_000_000;

#[test]
fn test_register_subscription() {
    let mut manager = SubscriptionManager::new();
    let id = manager.register(None, EmitClause::Changes, NOW).unwrap();
    assert!(!id.is_empty());
    assert_eq!(id.len(), 36);
    let subs = manager.list_subscriptions();
    assert_eq!(subs.len(), 1);
    assert_eq!(subs[0].id, id);
    assert_eq!(subs[0].created_at, NOW);
    assert_eq!(subs[0].status, SubscriptionStatus::Active);
}

#[test]
fn test_unsubscribe() {
    let mut manager = SubscriptionManager::new();
    let id = manager.register(None, EmitClause::Changes, NOW).unwrap();
    assert!(manager.unsubscribe(&id).is_ok());
    assert_eq!(manager.list_subscriptions().len(), 0);
    assert_eq!(manager.unsubscribe(&id).unwrap_err(), format!("Subscription '{id}' not found"));
}

#[test]
fn test_pause_resume() {
    let mut manager = SubscriptionManager::new();
    let id = manager.register(None, EmitClause::Changes, NOW).unwrap();

    assert!(manager.pause(&id).is_ok());
    let sub = manager.get_subscription(&id).unwrap();
    assert_eq!(sub.status, SubscriptionStatus::Paused);

    assert!(manager.resume(&id).is_ok());
    let sub = manager.get_subscription(&id).unwrap();
    assert_eq!(sub.status, SubscriptionStatus::Active);
}

#[test]
fn test_get_stats() {
    let mut manager = SubscriptionManager::new();
    for _ in 0..3 {
        manager.register(None, EmitClause::Changes, NOW).unwrap();
    }
    let stats = manager.get_stats();
    assert_eq!(stats.total_subscriptions, 3);
    assert_eq!(stats.active_subscriptions, 3);
}

#[test]
fn subscription_counts_follow_registrations_only() {
    let mut manager = SubscriptionManager::new();
    manager.register(Some("a".to_string()), EmitClause::Events, NOW).unwrap();
    manager.register(Some("b".to_string()), EmitClause::WebSocket { endpoint: "ws://x".to_string() }, NOW).unwrap();
    manager.pause("a").unwrap();
    // pausing leaves the counts as they were
    assert_eq!(manager.get_stats().active_subscriptions, 2);
    manager.register(Some("c".to_string()), EmitClause::Changes, NOW).unwrap();
    assert_eq!(manager.get_stats().total_subscriptions, 3);
    assert_eq!(manager.get_stats().active_subscriptions, 2);
    let mut active = manager.active_subscription_ids();
    active.sort();
    assert_eq!(active, vec!["b".to_string(), "c".to_string()]);
    assert_eq!(manager.pause("zzz").unwrap_err(), "Subscription 'zzz' not found");
}

#[test]
fn subscription_triggers_and_errors() {
    let mut manager = SubscriptionManager::new();
    manager.register(Some("s".to_string()), EmitClause::Changes, NOW).unwrap();
    manager.record_trigger("s", NOW + 5);
    let s = manager.get_subscription("s").unwrap();
    assert_eq!(s.trigger_count, 1);
    assert_eq!(s.last_triggered, Some(NOW + 5));
    for _ in 0..10 {
        manager.record_error("s");
    }
    assert_eq!(manager.get_subscription("s").unwrap().status, SubscriptionStatus::Active);
    manager.record_error("s");
    let s = manager.get_subscription("s").unwrap();
    assert_eq!(s.error_count, 11);
    assert_eq!(s.status, SubscriptionStatus::Error("Too many errors".to_string()));
    manager.record_event_stats(4, 2);
    manager.record_event_stats(1, 0);
    assert_eq!(manager.get_stats().total_events, 5);
    assert_eq!(manager.get_stats().total_errors, 2);
}

#[test]
fn subscription_import_replaces_and_recounts() {
    let mut manager = SubscriptionManager::new();
    manager.register(Some("x".to_string()), EmitClause::Changes, NOW).unwrap();
    let paused = ActiveSubscription {
        id: "x".to_string(),
        emit: EmitClause::Events,
        created_at: 1,
        last_triggered: None,
        trigger_count: 7,
        error_count: 0,
        status: SubscriptionStatus::Paused,
    };
    manager.import_subscriptions(vec![("x".to_string(), paused)]);
    assert_eq!(manager.get_subscription("x").unwrap().trigger_count, 7);
    assert_eq!(manager.get_stats().total_subscriptions, 1);
    assert_eq!(manager.get_stats().active_subscriptions, 0);
}

#[test]
fn subscription_from_query_text() {
    let mut manager = SubscriptionManager::new();
    let (id, q) = manager.create_from_tql("MATCH (d:Doc) RETURN d.id LIMIT 3", NOW).unwrap();
    assert_eq!(id.len(), 36);
    assert_eq!(q.limit, 3);
    assert_eq!(q.match_clause.unwrap().source.label, "Doc");
    let sub = manager.get_subscription(&id).unwrap();
    assert_eq!(sub.emit, EmitClause::Changes);
    assert_eq!(manager.create_from_tql("not a query", NOW).unwrap_err(), "Parse error: Failed to parse query");
    assert_eq!(manager.list_subscriptions().len(), 1);
}
