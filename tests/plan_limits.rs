use collab_sync::{PlanLimits, SubscriptionPlan};

#[test]
fn test_free_plan_limits() {
    let limits = PlanLimits::from_plan(&SubscriptionPlan::Free);
    assert_eq!(limits.member_limit, i64::MAX);
    assert!(limits.storage_unlimited);
    assert_eq!(limits.ai_responses_limit, 0);
}

#[test]
fn test_basic_plan_limits() {
    let limits = PlanLimits::from_plan(&SubscriptionPlan::Basic);
    assert_eq!(limits.member_limit, 2);
    assert_eq!(limits.storage_bytes_limit, 2 * 1024 * 1024 * 1024);
    assert_eq!(limits.ai_responses_limit, 10);
    assert_eq!(limits.single_upload_limit, 5 * 1024 * 1024);
}

#[test]
fn test_pro_plan_limits() {
    let limits = PlanLimits::from_plan(&SubscriptionPlan::Pro);
    assert_eq!(limits.member_limit, 5);
    assert_eq!(limits.storage_bytes_limit, 10 * 1024 * 1024 * 1024);
    assert_eq!(limits.ai_responses_limit, 40);
    assert_eq!(limits.single_upload_limit, 10 * 1024 * 1024);
}

#[test]
fn test_team_plan_limits() {
    let limits = PlanLimits::from_plan(&SubscriptionPlan::Team);
    assert_eq!(limits.member_limit, 10);
    assert_eq!(limits.storage_bytes_limit, 20 * 1024 * 1024 * 1024);
    assert_eq!(limits.ai_responses_limit, 120);
    assert_eq!(limits.single_upload_limit, 20 * 1024 * 1024);
}

#[test]
fn test_ai_max_unlimited() {
    let limits = PlanLimits::from_plan(&SubscriptionPlan::AiMax);
    assert!(limits.ai_unlimited);
    assert_eq!(limits.ai_responses_limit, i64::MAX);
    // Should inherit Pro's other limits
    assert_eq!(limits.member_limit, 5);
}

#[test]
fn test_can_add_members() {
    let limits = PlanLimits::from_plan(&SubscriptionPlan::Basic);
    assert!(limits.can_add_members(1, 1));
    assert!(!limits.can_add_members(2, 1));
}

#[test]
fn test_can_add_storage() {
    let limits = PlanLimits::from_plan(&SubscriptionPlan::Basic);
    let gb = 1024 * 1024 * 1024;
    assert!(limits.can_add_storage(gb, gb));
    assert!(!limits.can_add_storage(gb, 2 * gb));
}

#[test]
fn test_can_upload_file() {
    let limits = PlanLimits::from_plan(&SubscriptionPlan::Basic);
    let mb = 1024 * 1024;
    assert!(limits.can_upload_file(4 * mb));
    assert!(!limits.can_upload_file(6 * mb));
}

#[test]
fn test_can_use_ai() {
    let limits = PlanLimits::from_plan(&SubscriptionPlan::Basic);
    assert!(limits.can_use_ai(5));
    assert!(!limits.can_use_ai(10));
}

#[test]
fn test_ai_max_unlimited_ai() {
    let limits = PlanLimits::from_plan(&SubscriptionPlan::AiMax);
    assert!(limits.can_use_ai(1000000));
}

#[test]
fn ai_local_matches_ai_max() {
    assert_eq!(
        PlanLimits::from_plan(&SubscriptionPlan::AiLocal),
        PlanLimits::from_plan(&SubscriptionPlan::AiMax)
    );
}

#[test]
fn member_check_does_not_overflow() {
    let limits = PlanLimits::from_plan(&SubscriptionPlan::Free);
    assert!(!limits.can_add_members(i64::MAX, 1));
    assert!(limits.can_add_members(i64::MAX - 1, 1));
}

#[test]
fn unlimited_storage_always_fits() {
    let limits = PlanLimits::from_plan(&SubscriptionPlan::Free);
    assert!(limits.can_add_storage(i64::MAX, i64::MAX));
    assert!(!limits.can_upload_file(1));
    assert!(!limits.can_use_ai(0));
}
