use std::time::Duration;

use frona_server::supervisor::{
    crash_title, dead_entity_action, hibernates, restore_failure_title, DeadAction,
    SupervisorConfig,
};

#[test]
fn health_tick_restarts_dead_under_max() {
    assert_eq!(dead_entity_action(0, 3), DeadAction::Restart);
    assert_eq!(dead_entity_action(2, 3), DeadAction::Restart);
}

#[test]
fn health_tick_marks_failed_at_max_restarts() {
    assert_eq!(
        dead_entity_action(3, 3),
        DeadAction::GiveUp {
            reason: "exceeded 3 restart attempts".into()
        }
    );
    assert_eq!(
        dead_entity_action(7, 3),
        DeadAction::GiveUp {
            reason: "exceeded 3 restart attempts".into()
        }
    );
}

#[test]
fn notice_titles() {
    assert_eq!(crash_title("App", "demo"), "App 'demo' crashed");
    assert_eq!(restore_failure_title("App", "demo"), "App 'demo' failed to start");
}

#[test]
fn hibernation_is_optional() {
    let mut c = SupervisorConfig {
        health_check_interval: Duration::from_secs(30),
        max_restart_attempts: 3,
        hibernate_after: None,
    };
    assert!(!hibernates(&c));
    c.hibernate_after = Some(Duration::from_secs(600));
    assert!(hibernates(&c));
}
