//! Notification values and subscription matching.

use meh::notifications::{
    Category, Notification, NotificationType, Priority, Subscription,
};

#[test]
fn test_notification_create() {
    let notif = Notification::new(
        Category::System,
        Priority::High,
        "test",
        NotificationType::Alert,
        "Test Alert",
        "This is a test",
    );

    assert_eq!(notif.category.as_str(), "system");
    assert_eq!(notif.priority, Priority::High);
    assert_eq!(notif.source, "test");
}

#[test]
fn test_subscription_category_filter() {
    let fact_notif = Notification::for_new_fact(1, "@products/alpha", "Alpha", "local");
    let ci_notif = Notification::for_ci("Build OK", "Success", Priority::Normal);
    let sec_notif = Notification::for_security("Vuln found", "Critical CVE");

    let sub = Subscription::default().categories(vec![Category::Facts]);
    assert!(sub.matches(&fact_notif));
    assert!(!sub.matches(&ci_notif));
    assert!(!sub.matches(&sec_notif));
}

#[test]
fn test_subscription_path_filter() {
    let alpha = Notification::for_new_fact(1, "@products/alpha/api", "API", "local");
    let beta = Notification::for_new_fact(2, "@products/beta/api", "Beta API", "local");
    let docs = Notification::for_new_fact(3, "@docs/readme", "Readme", "local");

    let sub = Subscription::default().paths(vec!["@products/alpha".to_string()]);
    assert!(sub.matches(&alpha));
    assert!(!sub.matches(&beta));
    assert!(!sub.matches(&docs));

    // a notification without a path fails every path filter
    let pathless = Notification::for_ci("Build", "ok", Priority::Normal);
    assert!(!sub.matches(&pathless));
}

#[test]
fn test_subscription_priority_filter() {
    let normal = Notification::for_ci("Normal build", "ok", Priority::Normal);
    let high = Notification::for_ci("High build", "warn", Priority::High);
    let critical = Notification::for_security("Critical!", "CVE");

    let sub = Subscription::default().priority_min(Priority::High);
    assert!(!sub.matches(&normal));
    assert!(sub.matches(&high));
    assert!(sub.matches(&critical));
}

#[test]
fn test_priority_parse_and_names() {
    assert_eq!(Priority::parse_str("HIGH"), Some(Priority::High));
    assert_eq!(Priority::parse_str("bogus"), None);
    assert_eq!(Priority::Critical.as_str(), "critical");
    assert_eq!(NotificationType::parse_str("new_fact"), Some(NotificationType::NewFact));
    assert_eq!(NotificationType::Alert.as_str(), "alert");
}

#[test]
fn test_category_parse_folds_case() {
    assert_eq!(Category::parse_str("Facts"), Category::Facts);
    let custom = Category::parse_str("MyTopic");
    assert_eq!(custom.as_str(), "mytopic");
}

#[test]
fn test_notification_type_round_trip() {
    for nt in [
        NotificationType::NewFact,
        NotificationType::Correction,
        NotificationType::Deprecation,
        NotificationType::Extension,
        NotificationType::Alert,
        NotificationType::Match,
    ] {
        assert_eq!(NotificationType::parse_str(nt.as_str()), Some(nt.clone()));
    }
}

#[test]
fn test_category_round_trip() {
    for c in [
        Category::Facts,
        Category::Ci,
        Category::Security,
        Category::Docs,
        Category::System,
    ] {
        assert_eq!(Category::parse_str(c.as_str()), c);
    }
}
