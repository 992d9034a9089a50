//! Collision notifications.
//!
//! The engine is single-threaded: contact events accumulate on a queue
//! owned by the engine, and the caller drains them between steps.  One
//! event is pushed for every overlapping pair found by a resolution pass,
//! once per pass, persistent contacts included.

use crate::collider::ColliderHandle;
use vstd::prelude::*;

verus! {

/// A contact between two colliders, reported when a resolution pass
/// found their circles overlapping.
#[derive(Clone, Copy, PartialEq, Eq, Structural, Debug)]
pub struct CollisionEvent {
    pub col_handle_a: ColliderHandle,
    pub col_handle_b: ColliderHandle,
}

/// How serious a diagnostic is.
#[derive(Clone, Copy, PartialEq, Eq, Structural, Debug)]
pub enum Severity {
    Trace,
    Debug,
    Info,
    Warn,
    Error,
    Critical,
}

} // verus!
