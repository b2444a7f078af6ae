//! Usage tracking for a side-notch status panel: limit windows read from the
//! usage service's reply, the credential read from the local store, the
//! polling discipline with its back-off, and the notch window's style bits.

pub mod text;
pub mod json;
pub mod number;
pub mod usage;
pub mod credentials;
pub mod poll;
pub mod notch;
pub mod process;

use std::sync::Mutex;
use vstd::prelude::*;
use crate::usage::UsageSnapshot;

verus! {

/// `std::sync::Mutex`, carried as an opaque value: nothing here looks inside it.
#[verifier::external_type_specification]
#[verifier::external_body]
#[verifier::reject_recursive_types(T)]
pub struct ExMutex<T: ?Sized>(Mutex<T>);

/// The snapshots that the panel shares between its pollers and its views.
pub struct AppState {
    pub usage: Mutex<UsageSnapshot>,
    pub codex: Mutex<UsageSnapshot>,
    pub cursor: Mutex<UsageSnapshot>,
    pub antigravity: Mutex<UsageSnapshot>,
}

} // verus!
