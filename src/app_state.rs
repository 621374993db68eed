//! The identities that signal requests are judged by.

use vstd::prelude::*;

verus! {

/// The caller's effective user id, resolved once at start, and the owner
/// that a signalled process is taken to have.
pub struct AppState {
    current_uid: u32,
    target_uid: u32,
}

impl AppState {
    pub closed spec fn caller(&self) -> u32 {
        self.current_uid
    }

    pub closed spec fn target(&self) -> u32 {
        self.target_uid
    }

    /// State for a process running as `uid`, whose targets are taken to be its own.
    pub fn from_uid(uid: u32) -> (r: Self)
        ensures
            r.caller() == uid,
            r.target() == uid,
    {
        AppState { current_uid: uid, target_uid: uid }
    }

    pub fn new_for_tests(current_uid: u32, target_uid: u32) -> (r: Self)
        ensures
            r.caller() == current_uid,
            r.target() == target_uid,
    {
        AppState { current_uid, target_uid }
    }

    pub fn current_uid(&self) -> (r: u32)
        ensures
            r == self.caller(),
    {
        self.current_uid
    }

    pub fn fake_target_uid(&self) -> (r: u32)
        ensures
            r == self.target(),
    {
        self.target_uid
    }
}

} // verus!
