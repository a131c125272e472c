use mc_sentinel::dispatch::ConnectionOutcome;
use mc_sentinel::sentinel::SentinelState;
use mc_sentinel::service::{MinecraftService, MinecraftServiceDetectionMode, ServiceError};

#[test]
fn trigger_fires_exactly_once_across_outcomes() {
    let outcomes = [
        ConnectionOutcome::Continue,
        ConnectionOutcome::Trigger,
        ConnectionOutcome::Closed,
        ConnectionOutcome::Trigger,
        ConnectionOutcome::Trigger,
        ConnectionOutcome::Continue,
    ];
    let mut state = SentinelState::new();
    assert!(!state.triggered());
    let mut launches = 0;
    for o in outcomes {
        if state.on_outcome(o) {
            launches += 1;
        }
    }
    assert_eq!(launches, 1);
    assert!(state.triggered());
}

#[test]
fn no_trigger_means_no_launch() {
    let outcomes = [
        ConnectionOutcome::Continue,
        ConnectionOutcome::Closed,
        ConnectionOutcome::Continue,
    ];
    let mut state = SentinelState::new();
    let mut launches = 0;
    for o in outcomes {
        if state.on_outcome(o) {
            launches += 1;
        }
    }
    assert_eq!(launches, 0);
    assert!(!state.triggered());
}

#[test]
fn connection_count_tracks_open_and_close() {
    let mut state = SentinelState::new();
    state.connection_opened();
    state.connection_opened();
    state.on_outcome(ConnectionOutcome::Closed);
    state.connection_closed();
    state.connection_closed();
    assert!(!state.triggered());
}

#[test]
fn detection_mode_defaults_to_online_players() {
    assert_eq!(
        MinecraftServiceDetectionMode::default(),
        MinecraftServiceDetectionMode::OnlinePlayers
    );
}

#[test]
fn busy_by_online_player_count() {
    let service = MinecraftService {
        address: String::from("localhost"),
        port: 25565,
        detection_mode: MinecraftServiceDetectionMode::OnlinePlayers,
    };
    assert!(!service.evaluate_busy(0, Some(3)));
    assert!(service.evaluate_busy(1, None));
}

#[test]
fn busy_by_player_sample_list() {
    let service = MinecraftService {
        address: String::from("localhost"),
        port: 25565,
        detection_mode: MinecraftServiceDetectionMode::PlayerList,
    };
    assert!(!service.evaluate_busy(5, None));
    assert!(!service.evaluate_busy(5, Some(0)));
    assert!(service.evaluate_busy(0, Some(2)));
}

#[test]
fn service_error_carries_its_message() {
    let e = ServiceError::External(String::from("connection refused"));
    assert_eq!(e.message(), "connection refused");
}
