use taurigo::supervisor::{
    Supervisor, SupervisorAction, MAX_CONSECUTIVE_FAILURES, RESTART_DELAY_SECS, SIDECAR_NAME,
};

fn feed(runs: &[bool]) -> Result<u32, (usize, u32)> {
    let mut supervisor = Supervisor::new();
    for (i, handshook) in runs.iter().enumerate() {
        match supervisor.on_run_ended(*handshook) {
            SupervisorAction::Restart(next) => supervisor = next,
            SupervisorAction::GiveUp { consecutive_failures } => {
                return Err((i, consecutive_failures))
            }
        }
    }
    Ok(supervisor.consecutive_failures())
}

#[test]
fn supervisor_constants() {
    assert_eq!(MAX_CONSECUTIVE_FAILURES, 5);
    assert_eq!(RESTART_DELAY_SECS, 1);
    assert_eq!(SIDECAR_NAME, "sidecar");
}

#[test]
fn supervisor_starts_with_no_failures() {
    assert_eq!(Supervisor::new().consecutive_failures(), 0);
}

#[test]
fn supervisor_gives_up_after_five_failed_starts_in_a_row() {
    assert_eq!(feed(&[false, false, false, false]), Ok(4));
    assert_eq!(feed(&[false, false, false, false, false]), Err((4, 5)));
}

#[test]
fn supervisor_handshake_resets_the_failure_count() {
    assert_eq!(feed(&[false, false, false, false, true]), Ok(0));
    assert_eq!(
        feed(&[false, false, false, false, true, false, false, false, false]),
        Ok(4)
    );
    assert_eq!(
        feed(&[false, false, false, false, true, false, false, false, false, false]),
        Err((9, 5))
    );
}

#[test]
fn supervisor_keeps_restarting_runs_that_handshake() {
    assert_eq!(feed(&[true; 100]), Ok(0));
}

#[test]
fn end_run_clears_the_handle_and_decides() {
    let mut handle: taurigo::state::SidecarHandle<u32> = taurigo::state::SidecarHandle::new();
    handle.set_child(5);
    handle.set_base_url("http://127.0.0.1:9".to_string());
    match Supervisor::new().end_run(&mut handle, false) {
        SupervisorAction::Restart(next) => assert_eq!(next.consecutive_failures(), 1),
        SupervisorAction::GiveUp { .. } => panic!("one failure is not enough to give up"),
    }
    assert!(handle.base_url.is_none());
    assert!(handle.child.is_none());
}
