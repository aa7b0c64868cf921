use runit_ui::manage_service::{
    action_plan, interpret_control_outcome, interpret_link_outcome, plan_action, ActionError,
    ActionPlan, ActiveLinks, LinkOutcome, ServiceAction,
};

#[test]
fn the_five_action_words_are_recognized() {
    assert_eq!(ServiceAction::from_str("start"), Some(ServiceAction::Start));
    assert_eq!(ServiceAction::from_str("stop"), Some(ServiceAction::Stop));
    assert_eq!(ServiceAction::from_str("restart"), Some(ServiceAction::Restart));
    assert_eq!(ServiceAction::from_str("enable"), Some(ServiceAction::Enable));
    assert_eq!(ServiceAction::from_str("disable"), Some(ServiceAction::Disable));
}

#[test]
fn other_words_are_refused() {
    assert_eq!(ServiceAction::from_str("bogus-action"), None);
    assert_eq!(ServiceAction::from_str(""), None);
    assert_eq!(ServiceAction::from_str("Start"), None);
    assert_eq!(ServiceAction::from_str("start "), None);
    assert_eq!(ServiceAction::from_str("up"), None);
}

#[test]
fn bogus_action_fails_validation_before_any_side_effect() {
    let r = plan_action("websrv", "bogus-action");
    assert!(matches!(r, Err(ActionError::InvalidAction)));
}

#[test]
fn control_actions_plan_the_right_verbs() {
    match plan_action("websrv", "start").unwrap() {
        ActionPlan::RunControl { verb } => assert_eq!(verb, "up"),
        other => panic!("start should run the control command, got {:?}", other),
    }
    match plan_action("websrv", "stop").unwrap() {
        ActionPlan::RunControl { verb } => assert_eq!(verb, "down"),
        other => panic!("stop should run the control command, got {:?}", other),
    }
    match plan_action("websrv", "restart").unwrap() {
        ActionPlan::RunControl { verb } => assert_eq!(verb, "restart"),
        other => panic!("restart should run the control command, got {:?}", other),
    }
}

#[test]
fn enable_plans_the_activation_symlink() {
    match action_plan("websrv", ServiceAction::Enable) {
        ActionPlan::CreateLink { source, target } => {
            assert_eq!(source, "/etc/sv/websrv");
            assert_eq!(target, "/etc/service/websrv");
        },
        other => panic!("enable should create a symlink, got {:?}", other),
    }
}

#[test]
fn disable_plans_the_symlink_removal() {
    match action_plan("websrv", ServiceAction::Disable) {
        ActionPlan::RemoveLink { target } => assert_eq!(target, "/etc/service/websrv"),
        other => panic!("disable should remove a symlink, got {:?}", other),
    }
}

#[test]
fn control_outcome_reports_success_and_failure() {
    let ok = interpret_control_outcome("websrv", ServiceAction::Start, true, "");
    assert_eq!(ok.unwrap(), "Service websrv started.");
    let ok = interpret_control_outcome("websrv", ServiceAction::Stop, true, "");
    assert_eq!(ok.unwrap(), "Service websrv stopped.");
    let ok = interpret_control_outcome("websrv", ServiceAction::Restart, true, "");
    assert_eq!(ok.unwrap(), "Service websrv restarted.");
    let err = interpret_control_outcome("websrv", ServiceAction::Start, false, "timeout: run");
    match err {
        Err(ActionError::CommandFailed { diagnostic }) => assert_eq!(diagnostic, "timeout: run"),
        other => panic!("a failed command must be reported, got {:?}", other),
    }
}

#[test]
fn link_outcome_classification() {
    let ok = interpret_link_outcome("websrv", ServiceAction::Enable, LinkOutcome::Done);
    assert_eq!(ok.unwrap(), "Service websrv enabled.");
    let ok = interpret_link_outcome("websrv", ServiceAction::Disable, LinkOutcome::Done);
    assert_eq!(ok.unwrap(), "Service websrv disabled.");
    let r = interpret_link_outcome("websrv", ServiceAction::Enable, LinkOutcome::AlreadyExists);
    assert!(matches!(r, Err(ActionError::FilesystemConflict)));
    let r = interpret_link_outcome("websrv", ServiceAction::Disable, LinkOutcome::Missing);
    assert!(matches!(r, Err(ActionError::FilesystemConflict)));
    let r = interpret_link_outcome("websrv", ServiceAction::Enable, LinkOutcome::Failed);
    assert!(matches!(r, Err(ActionError::IoFailure)));
}

#[test]
fn enable_twice_conflicts() {
    let mut links = ActiveLinks::new();
    assert!(links.enable("websrv").is_ok());
    let second = links.enable("websrv");
    assert!(matches!(second, Err(ActionError::FilesystemConflict)));
}

#[test]
fn disable_missing_conflicts_and_enable_after_disable_succeeds() {
    let mut links = ActiveLinks::new();
    assert!(matches!(links.disable("websrv"), Err(ActionError::FilesystemConflict)));
    assert!(links.enable("websrv").is_ok());
    assert!(links.disable("websrv").is_ok());
    assert!(links.enable("websrv").is_ok());
}

#[test]
fn links_are_independent_between_names() {
    let mut links = ActiveLinks::new();
    assert!(links.enable("a").is_ok());
    assert!(links.enable("b").is_ok());
    assert!(matches!(links.enable("a"), Err(ActionError::FilesystemConflict)));
    assert!(links.disable("a").is_ok());
    assert!(matches!(links.disable("a"), Err(ActionError::FilesystemConflict)));
    assert!(matches!(links.enable("b"), Err(ActionError::FilesystemConflict)));
}
