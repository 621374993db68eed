//! The signal command: the authorization step that precedes delivery.

use vstd::prelude::*;
use crate::app_state::AppState;
use crate::errors::ApiError;
use crate::signal::{signal_decision, validate_permission};

verus! {

/// The signals a caller may ask for.
#[derive(Debug, Clone, Copy, PartialEq, Eq, Structural)]
pub enum ProcessSignal {
    Sigterm,
    Sigkill,
    Sigstop,
    Sigcont,
}

/// Checks that the caller of `state` may signal `pid`; any refusal is
/// reported as `PermissionDenied`.
pub fn send_process_signal_inner(state: &AppState, pid: i32, _signal: ProcessSignal) -> (r: Result<
    (),
    ApiError,
>)
    ensures
        r is Ok <==> signal_decision(state.caller(), state.target(), pid) is Ok,
        r is Err ==> r == Err::<(), ApiError>(ApiError::PermissionDenied),
{
    match validate_permission(state.current_uid(), state.fake_target_uid(), pid) {
        Ok(()) => Ok(()),
        Err(_) => Err(ApiError::PermissionDenied),
    }
}

} // verus!
