//! The flag that lets the delivery listener start exactly once, however
//! many triggers arrive and from however many tasks.

use crate::discord::Handler;
use std::sync::atomic::Ordering;
use vstd::prelude::*;

verus! {

/// Whether the trigger that made this exchange is the one to start the
/// listener: the one whose exchange of "not running" for "running" took
/// place.
pub fn listener_should_start(exchange: Result<bool, bool>) -> (start: bool)
    ensures
        start == (exchange is Ok),
{
    exchange.is_ok()
}

impl Handler {
    /// Records that a trigger arrived and says whether this one is to start
    /// the delivery listener. The flag is set by one atomic exchange, so of
    /// all triggers exactly one is told to start it.
    pub fn cache_ready(&self) -> (start: bool) {
        let exchange = self.is_loop_running.compare_exchange(
            false,
            true,
            Ordering::SeqCst,
            Ordering::SeqCst,
        );
        listener_should_start(exchange)
    }
}

} // verus!
