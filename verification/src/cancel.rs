//! Cooperative cancellation for long-running operations.
//!
//! One clone of the token stays with whoever may cancel, another travels with
//! the operation, which checks the flag while it waits for its child process.

use std::sync::atomic::AtomicBool;
use std::sync::atomic::Ordering;
use std::sync::Arc;
use vstd::prelude::*;

verus! {

/// A shared, thread-safe cancellation flag.
#[derive(Clone, Debug)]
pub struct CancelToken(Arc<AtomicBool>);

impl CancelToken {
    /// A fresh token that has not been cancelled.
    pub fn new() -> (t: Self) {
        CancelToken(Arc::new(AtomicBool::new(false)))
    }

    /// Requests cancellation (idempotent; callable from another thread).
    pub fn cancel(&self) {
        self.0.store(true, Ordering::SeqCst);
    }

    /// Whether some holder of the token has requested cancellation.
    pub fn is_cancelled(&self) -> (b: bool) {
        self.0.load(Ordering::SeqCst)
    }
}

impl Default for CancelToken {
    fn default() -> (t: Self) {
        CancelToken::new()
    }
}

} // verus!
