//! The rule that decides whether a caller may signal a process.

use vstd::prelude::*;

verus! {

/// Why a signal is refused.
#[derive(Debug, Clone, Copy, PartialEq, Eq, Structural)]
pub enum SignalError {
    /// The caller is neither the superuser nor the owner of the target.
    PermissionDenied,
    /// The target is init or no process at all (a pid of one or less).
    InvalidPid,
}

impl SignalError {
    pub fn message(&self) -> (r: String)
        ensures
            r@ == (match self {
                SignalError::PermissionDenied => "permission denied"@,
                SignalError::InvalidPid => "invalid pid"@,
            }),
    {
        match self {
            SignalError::PermissionDenied => "permission denied".to_owned(),
            SignalError::InvalidPid => "invalid pid".to_owned(),
        }
    }
}

/// The decision for a signal from `caller_uid` to process `pid`, owned by
/// `target_uid`: pids of one or less are refused first, then a caller that is
/// the superuser or the owner is allowed, and any other refused.
pub open spec fn signal_decision(caller_uid: u32, target_uid: u32, pid: i32) -> Result<(), SignalError> {
    if pid <= 1 {
        Err(SignalError::InvalidPid)
    } else if caller_uid == 0 || caller_uid == target_uid {
        Ok(())
    } else {
        Err(SignalError::PermissionDenied)
    }
}

pub fn validate_permission(current_uid: u32, target_uid: u32, pid: i32) -> (r: Result<(), SignalError>)
    ensures
        r == signal_decision(current_uid, target_uid, pid),
{
    if pid <= 1 {
        return Err(SignalError::InvalidPid);
    }
    if current_uid == 0 || current_uid == target_uid {
        return Ok(());
    }
    Err(SignalError::PermissionDenied)
}

} // verus!
