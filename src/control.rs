use vstd::prelude::*;
use crate::field::{all_dark, BufferContainer, FieldView};

verus! {

/// What the user asked for with a key press.
#[derive(Clone, Copy, PartialEq, Eq, Debug, Structural)]
pub enum Request {
    /// Stop feeding the fire and let it burn out.
    Stop,
    /// End at once.
    Abort,
}

/// How the simulation loop goes on after a step.
#[derive(Clone, Copy, PartialEq, Eq, Debug, Structural)]
pub enum SimOutcome {
    /// Step again.
    Continue,
    /// End at once: the user aborted.
    Aborted,
    /// End: every cell is dark.
    Finished,
}

/// The request a key stands for: Ctrl-C and Ctrl-D abort, any other key
/// stops. `ctrl` is the letter held with Ctrl, if the key was such a chord.
pub fn classify_key(ctrl: Option<char>) -> (r: Request)
    ensures
        r == (if ctrl == Some('c') || ctrl == Some('d') {
            Request::Abort
        } else {
            Request::Stop
        }),
{
    match ctrl {
        Some('c') | Some('d') => Request::Abort,
        _ => Request::Stop,
    }
}

/// The simulation loop's decision after a step: an abort ends it with the
/// field untouched; a stop stops ignition; then a dark field ends it.
pub fn after_step(field: &mut BufferContainer, request: Option<Request>) -> (r: SimOutcome)
    requires
        old(field).wf(),
    ensures
        final(field).wf(),
        request == Some(Request::Abort) ==> r == SimOutcome::Aborted && final(field)@ == old(field)@,
        request == Some(Request::Stop) ==> final(field)@ == (FieldView { stopped: true, ..old(field)@ }),
        request == None::<Request> ==> final(field)@ == old(field)@,
        request != Some(Request::Abort) ==> r == (if all_dark(old(field)@.cells) {
            SimOutcome::Finished
        } else {
            SimOutcome::Continue
        }),
{
    match request {
        Some(Request::Abort) => {
            return SimOutcome::Aborted;
        },
        Some(Request::Stop) => field.stop_flames(),
        None => {},
    }
    if field.is_done() {
        SimOutcome::Finished
    } else {
        SimOutcome::Continue
    }
}

/// The render loop ends on an abort, or once the simulation has finished.
pub fn render_should_exit(request: Option<Request>, sim_finished: bool) -> (r: bool)
    ensures
        r == (request == Some(Request::Abort) || sim_finished),
{
    match request {
        Some(Request::Abort) => true,
        _ => sim_finished,
    }
}

} // verus!
