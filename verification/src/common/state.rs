//! The running state of an application, shared between request handlers.
use std::sync::{Arc, RwLock};

use vstd::prelude::*;

use crate::common::error::{HttpError, SERVICE_UNAVAILABLE};

verus! {

/// The message shown while an application is under maintenance.
pub const MAINTENANCE_MESSAGE: &'static str = "メンテナンス中です";

/// A state that may put the application under maintenance.
pub trait IsMaintenance {
    /// Whether the state puts the application under maintenance.
    spec fn in_maintenance(&self) -> bool;

    /// Whether the state puts the application under maintenance.
    fn is_maintenance(&self) -> (r: bool)
        ensures
            r == self.in_maintenance(),
    ;
}

/// Whether a request may be served in `state`: refused with 503 and the maintenance
/// message while under maintenance.
pub fn check_maintenance<T: IsMaintenance>(state: &T) -> (r: Result<(), HttpError>)
    ensures
        r is Err <==> state.in_maintenance(),
        r matches Err(e) ==> e.status == SERVICE_UNAVAILABLE && e.message == MAINTENANCE_MESSAGE,
{
    if state.is_maintenance() {
        Err(HttpError { status: SERVICE_UNAVAILABLE, message: MAINTENANCE_MESSAGE })
    } else {
        Ok(())
    }
}

#[verifier::external_type_specification]
#[verifier::external_body]
#[verifier::reject_recursive_types(T)]
pub struct ExRwLock<T: ?Sized>(RwLock<T>);

/// A new lock holding `state` (`RwLock::new`).
#[verifier::external_body]
fn lock_new<T>(state: T) -> RwLock<T> {
    RwLock::new(state)
}

/// A copy of what the lock holds (`RwLock::read`, then `Clone::clone`); a lock poisoned by a
/// panic elsewhere is read all the same. What it holds depends on every handle that writes
/// to it, so nothing is stated of the copy.
#[verifier::external_body]
fn lock_read<T: Clone>(lock: &RwLock<T>) -> T {
    match lock.read() {
        Ok(guard) => guard.clone(),
        Err(poisoned) => poisoned.into_inner().clone(),
    }
}

/// Replaces what the lock holds (`RwLock::write`); a poisoned lock is written all the same.
#[verifier::external_body]
fn lock_write<T>(lock: &RwLock<T>, state: T) {
    match lock.write() {
        Ok(mut guard) => *guard = state,
        Err(poisoned) => *poisoned.into_inner() = state,
    }
}

/// A state shared by every clone of the handle: what one clone sets, the others get.
#[verifier::reject_recursive_types(T)]
pub struct StateHandle<T: Clone + IsMaintenance + 'static>(pub Arc<RwLock<T>>);

impl<T: Clone + IsMaintenance + 'static> Clone for StateHandle<T> {
    fn clone(&self) -> Self {
        StateHandle(self.0.clone())
    }
}

impl<T: Clone + IsMaintenance + 'static> StateHandle<T> {
    /// A handle on a new shared state.
    pub fn new(state: T) -> Self {
        StateHandle(Arc::new(lock_new(state)))
    }

    /// A copy of the current state.
    pub fn get(&self) -> T {
        lock_read(&self.0)
    }

    /// Replaces the shared state.
    pub fn set(&self, state: T) {
        lock_write(&self.0, state)
    }
}

} // verus!
