use compactor::{Policy, PolicyBuilder, PolicyError, Resolution};

#[test]
fn policy_test_fmt() {
    let policy = Policy::new()
        .keep_for_days(1, Resolution::FiveSecond)
        .keep_for_days(2, Resolution::FifteenSecond)
        .keep_for_days(5, Resolution::Minute)
        .keep_for_days(10, Resolution::FiveMinute)
        .keep_for_days(30, Resolution::FifteenMinute)
        .keep_for_days(90, Resolution::Hour)
        .keep_for_days(180, Resolution::AmPm)
        .keep_for_days(365, Resolution::Day)
        .build()
        .unwrap();
    assert_eq!(
        policy.describe(),
        "Initial: 5s-resolution\n\
            After 1 days: reduce to 15s-resolution\n\
            After 2 days: reduce to minute-resolution\n\
            After 5 days: reduce to 5m-resolution\n\
            After 10 days: reduce to 15m-resolution\n\
            After 30 days: reduce to hour-resolution\n\
            After 90 days: reduce to AM/PM-resolution\n\
            After 180 days: reduce to day-resolution\n\
            After 365 days: delete"
    );
    assert_eq!(
        policy.to_string(),
        "5s →  (1d) 15s →  (2d) minute →  (5d) 5m →  (10d) 15m \
            →  (30d) hour →  (90d) AM/PM →  (180d) day →  (365d) delete"
    );
}

#[test]
fn test_dominated_policies() {
    assert!(PolicyBuilder::default()
        .keep_for_days(5, Resolution::Hour)
        .keep_for_days(2, Resolution::AmPm)
        .build()
        .is_err());
    assert!(PolicyBuilder::default()
        .keep_for_days(2, Resolution::AmPm)
        .keep_for_days(5, Resolution::Hour)
        .build()
        .is_err());
    assert!(PolicyBuilder::default()
        .keep_for_days(2, Resolution::Hour)
        .keep_for_days(2, Resolution::AmPm)
        .build()
        .is_err());
}

#[test]
fn test_duplicate_policies() {
    let x = PolicyBuilder::default()
        .keep_for_days(2, Resolution::Hour)
        .keep_for_days(2, Resolution::Hour)
        .build();
    let y = PolicyBuilder::default()
        .keep_for_days(2, Resolution::Hour)
        .build();
    assert_eq!(x, y);
}

#[test]
fn test_policy_error_variants() {
    assert_eq!(
        PolicyBuilder::default().build(),
        Err(PolicyError::ZeroRetention)
    );
    assert_eq!(
        PolicyBuilder::default()
            .keep_for_days(0, Resolution::Hour)
            .keep_for_days(3, Resolution::Day)
            .build()
            .unwrap_err(),
        PolicyError::PolicyAppliesForZeroDays
    );
    assert_eq!(
        PolicyBuilder::default()
            .keep_for_days(5, Resolution::Hour)
            .keep_for_days(2, Resolution::AmPm)
            .build()
            .unwrap_err(),
        PolicyError::SomePoliciesDominateOthers
    );
}

#[test]
fn test_equal_rule_sets_equal_policies() {
    // Rule order does not matter: equal rule sets build equal policies.
    let x = PolicyBuilder::default()
        .keep_for_days(7, Resolution::FiveMinute)
        .keep_for_days(30, Resolution::Hour)
        .keep_for_days(100, Resolution::Day)
        .build()
        .unwrap();
    let y = PolicyBuilder::default()
        .keep_for_days(100, Resolution::Day)
        .keep_for_days(7, Resolution::FiveMinute)
        .keep_for_days(30, Resolution::Hour)
        .keep_for_days(7, Resolution::FiveMinute)
        .build()
        .unwrap();
    assert_eq!(x, y);
    assert_eq!(x.max_res(), Resolution::FiveMinute);
    assert_eq!(x.max_retention(), 100);
    assert_eq!(x.rule_count(), 2);
    assert_eq!(x.rule_at(0), (30, Resolution::Day));
    assert_eq!(x.rule_at(1), (7, Resolution::Hour));
}
