use stream_log_client::subscription_manager::SubscriptionManager;
use stream_log_client::subscription_type::SubscriptionType;

fn event(id: &str) -> SubscriptionType {
    SubscriptionType::EventLogData(String::from(id))
}

fn names(types: &[SubscriptionType]) -> Vec<String> {
    types.iter().map(|t| format!("{:?}", t)).collect()
}

#[test]
fn new_manager_is_empty() {
    let manager = SubscriptionManager::new();
    assert!(manager.is_empty());
    assert_eq!(manager.active_count(&SubscriptionType::AdminUsers), 0);
}

#[test]
fn request_confirm_remove() {
    let mut manager = SubscriptionManager::new();
    manager.record_subscription_request(event("a"));
    assert_eq!(manager.requested_count(&event("a")), 1);
    assert_eq!(manager.active_count(&event("a")), 0);
    manager.subscription_confirmation_received(event("a"));
    assert_eq!(manager.requested_count(&event("a")), 0);
    assert_eq!(manager.active_count(&event("a")), 1);
    manager.remove_subscription(event("a"));
    assert!(manager.is_empty());
}

#[test]
fn confirmation_without_request_changes_nothing() {
    let mut manager = SubscriptionManager::new();
    manager.subscription_confirmation_received(SubscriptionType::AdminEvents);
    assert!(manager.is_empty());
}

#[test]
fn failure_forgets_request() {
    let mut manager = SubscriptionManager::new();
    manager.record_subscription_request(SubscriptionType::AdminTags);
    manager.subscription_failure_received(SubscriptionType::AdminTags);
    assert!(manager.is_empty());
}

#[test]
fn removal_decrements_counts() {
    let mut manager = SubscriptionManager::new();
    let types = vec![SubscriptionType::AdminUsers, SubscriptionType::AdminUsers, event("x")];
    let plan = manager.plan_subscriptions(&types);
    manager = plan.next;
    assert_eq!(manager.requested_count(&SubscriptionType::AdminUsers), 2);
    manager.remove_subscription(SubscriptionType::AdminUsers);
    assert_eq!(manager.requested_count(&SubscriptionType::AdminUsers), 1);
    manager.remove_subscription(SubscriptionType::AdminUsers);
    assert_eq!(manager.requested_count(&SubscriptionType::AdminUsers), 0);
    assert_eq!(manager.requested_count(&event("x")), 1);
    manager.remove_subscription(SubscriptionType::AdminUsers);
    assert_eq!(manager.requested_count(&event("x")), 1);
}

#[test]
fn plan_subscriptions_ends_and_starts() {
    let mut manager = SubscriptionManager::new();
    let first = manager.plan_subscriptions(&vec![event("a"), event("b")]);
    assert!(first.ends.is_empty());
    assert_eq!(names(&first.starts), names(&[event("a"), event("b")]));
    manager = first.next;
    manager.subscription_confirmation_received(event("a"));

    let second = manager.plan_subscriptions(&vec![event("c"), event("a"), event("c")]);
    assert_eq!(names(&second.ends), names(&[event("b")]));
    assert_eq!(names(&second.starts), names(&[event("c")]));
    let next = second.next;
    assert_eq!(next.active_count(&event("a")), 1);
    assert_eq!(next.requested_count(&event("c")), 2);
    assert_eq!(next.requested_count(&event("b")), 0);
}

#[test]
fn plan_keeps_place_with_new_count() {
    let mut manager = SubscriptionManager::new();
    manager = manager.plan_subscriptions(&vec![SubscriptionType::AdminEvents]).next;
    manager.subscription_confirmation_received(SubscriptionType::AdminEvents);
    let plan = manager.plan_subscriptions(&vec![SubscriptionType::AdminEvents, SubscriptionType::AdminEvents]);
    assert!(plan.ends.is_empty());
    assert!(plan.starts.is_empty());
    assert_eq!(plan.next.active_count(&SubscriptionType::AdminEvents), 2);
}

#[test]
fn single_subscription_flow() {
    let mut manager = SubscriptionManager::new();
    manager = manager.plan_subscriptions(&vec![event("a"), event("b"), event("a")]).next;
    manager.subscription_confirmation_received(event("b"));
    let ends = manager.ends_for_single(&event("a"));
    assert_eq!(names(&ends), names(&[event("b")]));
    manager.retain_only(&event("a"));
    assert_eq!(manager.requested_count(&event("a")), 1);
    assert_eq!(manager.active_count(&event("b")), 0);
    assert!(!manager.is_empty());

    let ends = manager.ends_for_single(&event("z"));
    assert_eq!(names(&ends), names(&[event("a")]));
    manager.retain_only(&event("z"));
    assert!(manager.is_empty());
    manager.record_subscription_request(event("z"));
    assert_eq!(manager.requested_count(&event("z")), 1);
}

#[test]
fn same_as_compares_targets() {
    assert!(event("a").same_as(&event("a")));
    assert!(!event("a").same_as(&event("b")));
    assert!(!SubscriptionType::AdminUsers.same_as(&SubscriptionType::AdminEvents));
    assert!(SubscriptionType::TagList.same_as(&SubscriptionType::TagList.duplicate()));
}
