use rpcproxy::upstream::BackendState;
use rpcproxy::upstream::BackendStatus;

#[test]
fn state_transitions() {
    let mut backend = BackendStatus::new("http://localhost:8545".to_string());
    assert_eq!(backend.state, BackendState::Healthy);

    backend.record_error();
    assert_eq!(backend.state, BackendState::Degraded);
    assert_eq!(backend.consecutive_errors, 1);

    backend.record_error();
    assert_eq!(backend.state, BackendState::Degraded);

    backend.record_error();
    assert_eq!(backend.state, BackendState::Down);
    assert_eq!(backend.consecutive_errors, 3);

    backend.record_success(50_000);
    assert_eq!(backend.state, BackendState::Healthy);
    assert_eq!(backend.consecutive_errors, 0);
}

#[test]
fn latency_tracking() {
    let mut backend = BackendStatus::new("http://localhost:8545".to_string());
    backend.record_success(100_000);
    assert_eq!(backend.avg_latency_us, Some(100_000));

    backend.record_success(200_000);
    assert_eq!(backend.avg_latency_us, Some(120_000));
}

#[test]
fn test_backend_state_transitions() {
    let mut backend = BackendStatus::new("http://localhost:8545".to_string());
    assert_eq!(backend.state, BackendState::Healthy);

    backend.record_error();
    assert_eq!(backend.state, BackendState::Degraded);
    assert_eq!(backend.consecutive_errors, 1);

    backend.record_error();
    assert_eq!(backend.state, BackendState::Degraded);

    backend.record_error();
    assert_eq!(backend.state, BackendState::Down);
    assert_eq!(backend.consecutive_errors, 3);

    backend.record_success(50_000);
    assert_eq!(backend.state, BackendState::Healthy);
    assert_eq!(backend.consecutive_errors, 0);
}

#[test]
fn test_latency_tracking() {
    let mut backend = BackendStatus::new("http://localhost:8545".to_string());
    backend.record_success(100_000);
    assert_eq!(backend.avg_latency_us, Some(100_000));

    backend.record_success(200_000);
    assert_eq!(backend.avg_latency_us, Some(120_000));
}

#[test]
fn upstream_test_backend_state_transitions() {
    let mut backend = BackendStatus::new("http://localhost:8545".to_string());
    assert_eq!(backend.state, BackendState::Healthy);

    backend.record_error();
    assert_eq!(backend.state, BackendState::Degraded);
    assert_eq!(backend.consecutive_errors, 1);

    backend.record_error();
    assert_eq!(backend.state, BackendState::Degraded);

    backend.record_error();
    assert_eq!(backend.state, BackendState::Down);
    assert_eq!(backend.consecutive_errors, 3);

    backend.record_success(50_000);
    assert_eq!(backend.state, BackendState::Healthy);
    assert_eq!(backend.consecutive_errors, 0);
}

#[test]
fn upstream_test_latency_tracking() {
    let mut backend = BackendStatus::new("http://localhost:8545".to_string());
    backend.record_success(100_000);
    assert_eq!(backend.avg_latency_us, Some(100_000));

    backend.record_success(200_000);
    assert_eq!(backend.avg_latency_us, Some(120_000));
}

#[test]
fn errors_never_outnumber_requests() {
    let mut backend = BackendStatus::new("http://p".to_string());
    backend.record_error();
    backend.record_success(1_000);
    backend.record_error();
    backend.record_error();
    assert!(backend.total_errors <= backend.total_requests);
    assert_eq!(backend.total_requests, 4);
    assert_eq!(backend.total_errors, 3);
}

#[test]
fn down_stays_down_under_more_errors() {
    let mut backend = BackendStatus::new("http://p".to_string());
    backend.record_error();
    backend.record_error();
    backend.record_error();
    assert_eq!(backend.state, BackendState::Down);
    backend.record_error();
    assert_eq!(backend.state, BackendState::Down);
    assert_eq!(backend.consecutive_errors, 4);
    backend.record_success(0);
    assert_eq!(backend.state, BackendState::Healthy);
}

#[test]
fn probe_success_records_zero_latency() {
    // A probe's zero-latency success seeds the average once and for all:
    // later samples always blend, never re-seed.
    let mut backend = BackendStatus::new("http://p".to_string());
    assert_eq!(backend.avg_latency_us, None);
    backend.record_success(0);
    assert_eq!(backend.avg_latency_us, Some(0));
    backend.record_success(100_000);
    assert_eq!(backend.avg_latency_us, Some(20_000));
    backend.record_success(0);
    assert_eq!(backend.avg_latency_us, Some(16_000));
}

#[test]
fn latency_average_is_seeded_by_the_first_success_only() {
    let mut backend = BackendStatus::new("http://p".to_string());
    backend.record_error();
    assert_eq!(backend.avg_latency_us, None, "errors never seed the average");
    backend.record_success(100_000);
    assert_eq!(backend.avg_latency_us, Some(100_000));
    backend.record_success(0);
    assert_eq!(backend.avg_latency_us, Some(80_000));
}
