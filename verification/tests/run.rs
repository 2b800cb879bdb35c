use taurigo::run::{RunMonitor, RunStep, SidecarEvent};

#[test]
fn run_monitor_reports_the_handshake_and_its_base_url() {
    let mut monitor = RunMonitor::new();
    assert!(!monitor.handshook());
    match monitor.on_event(&SidecarEvent::Stdout(b"PORT=4321\n".to_vec())) {
        RunStep::Handshake { port, base_url } => {
            assert_eq!(port, 4321);
            assert_eq!(base_url, "http://127.0.0.1:4321");
        }
        _ => panic!("expected a handshake"),
    }
    assert!(monitor.handshook());
}

#[test]
fn run_monitor_ignores_other_events() {
    let mut monitor = RunMonitor::new();
    for event in [
        SidecarEvent::Stdout(b"starting\n".to_vec()),
        SidecarEvent::Stderr(b"PORT=1\n".to_vec()),
        SidecarEvent::Error("broken pipe".to_string()),
        SidecarEvent::Other,
    ] {
        assert!(matches!(monitor.on_event(&event), RunStep::Continue));
    }
    assert!(!monitor.handshook());
}

#[test]
fn run_monitor_stops_when_the_process_ends() {
    let mut monitor = RunMonitor::new();
    let step = monitor.on_event(&SidecarEvent::Terminated { code: Some(1), signal: None });
    assert!(matches!(step, RunStep::Stop));
    assert!(!monitor.handshook());
}

#[test]
fn run_monitor_remembers_a_handshake_seen_earlier() {
    let mut monitor = RunMonitor::new();
    monitor.on_event(&SidecarEvent::Stdout(b"PORT=80".to_vec()));
    monitor.on_event(&SidecarEvent::Stdout(b"bye".to_vec()));
    let step = monitor.on_event(&SidecarEvent::Terminated { code: None, signal: Some(9) });
    assert!(matches!(step, RunStep::Stop));
    assert!(monitor.handshook());
}
