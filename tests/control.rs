use fire::control::{after_step, classify_key, render_should_exit, Request, SimOutcome};
use fire::field::BufferContainer;

#[test]
fn ctrl_c_and_ctrl_d_abort() {
    assert_eq!(classify_key(Some('c')), Request::Abort);
    assert_eq!(classify_key(Some('d')), Request::Abort);
    assert_eq!(classify_key(Some('x')), Request::Stop);
    assert_eq!(classify_key(None), Request::Stop);
}

#[test]
fn abort_ends_simulation_untouched() {
    let mut f = BufferContainer::new(2, 2);
    assert_eq!(after_step(&mut f, Some(Request::Abort)), SimOutcome::Aborted);
    assert!(!f.is_stopped());
}

#[test]
fn stop_request_stops_ignition() {
    let mut f = BufferContainer::new(2, 2);
    assert_eq!(after_step(&mut f, Some(Request::Stop)), SimOutcome::Continue);
    assert!(f.is_stopped());
    assert_eq!(after_step(&mut f, None), SimOutcome::Continue);
}

#[test]
fn dark_field_finishes_simulation() {
    let mut f = BufferContainer::new(1, 1);
    f.stop_flames();
    for _ in 0..35 {
        f.next_frame(&vec![0], &vec![1]);
    }
    assert_eq!(after_step(&mut f, None), SimOutcome::Finished);
}

#[test]
fn render_loop_exit() {
    assert!(render_should_exit(Some(Request::Abort), false));
    assert!(!render_should_exit(Some(Request::Stop), false));
    assert!(!render_should_exit(None, false));
    assert!(render_should_exit(None, true));
}
