use asr_rs::daemon::{Action, Backoff, Daemon, Event, Phase};

fn started() -> Daemon {
    Daemon::start().0
}

#[test]
fn starts_inactive_and_connects_ahead() {
    let (daemon, action) = Daemon::start();
    assert_eq!(daemon.phase, Phase::Inactive);
    assert_eq!(action, Action::Preconnect);
}

#[test]
fn toggle_opens_and_closes_a_session() {
    let mut daemon = started();
    assert_eq!(daemon.handle(Event::Toggle), Action::Activate);
    assert_eq!(daemon.handle(Event::Activated), Action::Wait);
    assert_eq!(daemon.phase, Phase::Active);
    assert_eq!(daemon.handle(Event::Toggle), Action::Deactivate);
    assert_eq!(daemon.handle(Event::Deactivated), Action::Preconnect);
    assert_eq!(daemon.phase, Phase::Inactive);
}

#[test]
fn failed_activation_connects_ahead_again() {
    let mut daemon = started();
    assert_eq!(daemon.handle(Event::Toggle), Action::Activate);
    assert_eq!(daemon.handle(Event::ActivationFailed), Action::Preconnect);
    assert_eq!(daemon.phase, Phase::Inactive);
}

#[test]
fn stop_only_closes() {
    let mut daemon = started();
    assert_eq!(daemon.handle(Event::Stop), Action::Wait);
    assert_eq!(daemon.phase, Phase::Inactive);
    daemon.handle(Event::Toggle);
    daemon.handle(Event::Activated);
    assert_eq!(daemon.handle(Event::Stop), Action::Deactivate);
    assert_eq!(daemon.handle(Event::Deactivated), Action::Preconnect);
    assert_eq!(daemon.handle(Event::Stop), Action::Wait);
    assert_eq!(daemon.phase, Phase::Inactive);
}

#[test]
fn terminate_closes_and_exits() {
    let mut daemon = started();
    daemon.handle(Event::Toggle);
    daemon.handle(Event::Activated);
    assert_eq!(daemon.handle(Event::Terminate), Action::Deactivate);
    assert_eq!(daemon.handle(Event::Deactivated), Action::Exit);
    assert_eq!(daemon.phase, Phase::Stopped);
    let mut idle = started();
    assert_eq!(idle.handle(Event::Terminate), Action::Exit);
    assert_eq!(idle.phase, Phase::Stopped);
}

#[test]
fn delays_double_up_to_thirty_seconds() {
    let mut backoff = Backoff::new();
    let delays: Vec<u64> = (0..8).map(|_| backoff.failed()).collect();
    assert_eq!(delays, vec![2, 4, 8, 16, 30, 30, 30, 30]);
}
