use http_core::lifecycle::{accepts_connections, transition_allowed, LifecycleManager, ServerState};
use tokio::sync::broadcast::error::TryRecvError;

#[test]
fn skipping_ready_fails_and_keeps_booting() {
    let mut m = LifecycleManager::new();
    assert_eq!(m.transition_to(ServerState::Run), Err("Transition invalid"));
    assert_eq!(m.curent_state(), ServerState::Booting);
}

#[test]
fn full_chain_succeeds_and_is_observed_once_each() {
    let mut m = LifecycleManager::new();
    let mut rx = m.subscribe();
    for s in [
        ServerState::Ready,
        ServerState::Run,
        ServerState::Closing,
        ServerState::Shutdown,
    ] {
        assert_eq!(m.transition_to(s), Ok(()));
        assert_eq!(m.curent_state(), s);
    }
    assert_eq!(rx.try_recv(), Ok(ServerState::Ready));
    assert_eq!(rx.try_recv(), Ok(ServerState::Run));
    assert_eq!(rx.try_recv(), Ok(ServerState::Closing));
    assert_eq!(rx.try_recv(), Ok(ServerState::Shutdown));
    assert_eq!(rx.try_recv(), Err(TryRecvError::Empty));
}

#[test]
fn same_state_and_backwards_fail() {
    let mut m = LifecycleManager::new();
    assert!(m.transition_to(ServerState::Booting).is_err());
    m.transition_to(ServerState::Ready).unwrap();
    assert!(m.transition_to(ServerState::Booting).is_err());
    assert_eq!(m.curent_state(), ServerState::Ready);
    assert!(!transition_allowed(ServerState::Shutdown, ServerState::Booting));
    assert!(transition_allowed(ServerState::Closing, ServerState::Shutdown));
}

#[test]
fn only_a_running_server_accepts() {
    assert!(accepts_connections(ServerState::Run));
    assert!(!accepts_connections(ServerState::Ready));
    assert!(!accepts_connections(ServerState::Closing));
}

#[test]
fn failed_transition_announces_nothing() {
    let mut m = LifecycleManager::new();
    let mut rx = m.subscribe();
    assert!(m.transition_to(ServerState::Run).is_err());
    assert_eq!(rx.try_recv(), Err(TryRecvError::Empty));
}

#[test]
fn shut_down_announces_closing_then_shutdown() {
    let mut m = LifecycleManager::new();
    assert!(m.shut_down().is_err());
    assert_eq!(m.curent_state(), ServerState::Booting);
    m.transition_to(ServerState::Ready).unwrap();
    m.transition_to(ServerState::Run).unwrap();
    let mut rx = m.subscribe();
    assert_eq!(m.shut_down(), Ok(()));
    assert_eq!(m.curent_state(), ServerState::Shutdown);
    assert_eq!(rx.try_recv(), Ok(ServerState::Closing));
    assert_eq!(rx.try_recv(), Ok(ServerState::Shutdown));
    assert_eq!(rx.try_recv(), Err(TryRecvError::Empty));
}
