use arkhe::governance::{ActionClass, BusinessHoursHook, ExecutionResult, GovernanceViolation, GuardError, HookError};
use arkhe::nexus::{check_migration_status, NexusAdminAction};

#[test]
fn business_hours_window() {
    let hook = BusinessHoursHook::weekday_9_to_18();
    assert!(hook.is_allowed_at(10, 1));
    assert!(hook.is_allowed_at(9, 0));
    assert!(!hook.is_allowed_at(18, 0));
    assert!(!hook.is_allowed_at(8, 2));
    assert!(!hook.is_allowed_at(12, 5));
    assert!(!hook.is_allowed_at(12, 6));
}

#[test]
fn no_listed_day_allows_every_day() {
    let hook = BusinessHoursHook { start_hour: 0, end_hour: 24, allowed_days: vec![] };
    assert!(hook.is_allowed_at(23, 6));
}

#[test]
fn execution_result_success() {
    assert!(ExecutionResult::Success.is_success());
    assert!(!ExecutionResult::Rejected("no".to_string()).is_success());
    assert!(!ExecutionResult::Cancelled.is_success());
}

#[test]
fn violation_converts_to_denied_cancellation() {
    let e: GuardError = GovernanceViolation("quorum".to_string()).into();
    match e {
        GuardError::CancellationDenied(s) => assert_eq!(s, "quorum"),
        _ => panic!("wrong variant"),
    }
}

#[test]
fn nexus_actions_map_to_classes() {
    assert_eq!(NexusAdminAction::KernelUpdate.to_generic(), ActionClass::Critical);
    assert_eq!(NexusAdminAction::SecurityPolicyChange.to_generic(), ActionClass::Critical);
    assert_eq!(NexusAdminAction::CapsuleModification.to_generic(), ActionClass::Operational);
    assert_eq!(NexusAdminAction::BundleHashtreeUpdate.to_generic(), ActionClass::Operational);
    assert_eq!(NexusAdminAction::Other.to_generic(), ActionClass::Other);
}

#[test]
fn migration_status_lists_remaining_stubs_in_order() {
    let code = "fn x() { NEXUS::admin_action(); SafeCoreGuard::execute(); }";
    assert_eq!(
        check_migration_status(code),
        vec!["SafeCoreGuard::execute", "NEXUS::admin_action"]
    );
    assert!(check_migration_status("clean code").is_empty());
    assert_eq!(
        check_migration_status("SafeCoreGuard::update_kernel and SafeCoreGuard::execute_all"),
        vec!["SafeCoreGuard::execute", "SafeCoreGuard::update_kernel"]
    );
}

#[test]
fn pre_submit_blocks_critical_actions_out_of_hours() {

    let hook = BusinessHoursHook::weekday_9_to_18();
    assert!(hook.pre_submit_at(ActionClass::Operational, 3, 6).is_ok());
    assert!(hook.pre_submit_at(ActionClass::Critical, 10, 2).is_ok());
    match hook.pre_submit_at(ActionClass::Critical, 7, 2) {
        Err(HookError::Blocked(m)) => assert_eq!(m, "Fora do horário de expediente (7h, precisa 9h-18h)"),
        _ => panic!("expected a block"),
    }
}

#[test]
fn oats_error_text_names_the_cause() {
    let e = arkhe::oats::OatsError::InternalError("boom".to_string());
    assert_eq!(e.text(), "OATS Internal Error: boom");
}
