//! The shared context handle.
//!
//! Every geometry holds a reference-counted handle to one context, which
//! carries the error and notice routing state for the operations made
//! through it. Handlers are registered by identifier (the embedding
//! application dispatches on the identifier when a message arrives);
//! replacing a handler affects subsequent operations only. Sharing is by
//! reference count: cloning the shared handle never creates a second
//! context.

use vstd::prelude::*;
use std::sync::Arc;
use crate::error::GResult;

verus! {

/// One context: engine state plus registered message handlers.
pub struct GContextHandle {
    error_handler: Option<u64>,
    notice_handler: Option<u64>,
}

impl GContextHandle {
    /// Create a context with no handlers registered. This engine keeps its
    /// global state in the process itself, so initialization cannot fail;
    /// the result is fallible because callers must be ready for an engine
    /// whose context allocation can.
    pub fn init() -> (r: GResult<GContextHandle>)
        ensures
            r matches Ok(c) && c.spec_error_handler() is None && c.spec_notice_handler() is None,
    {
        Ok(GContextHandle { error_handler: None, notice_handler: None })
    }

    /// The registered error-message handler, if any.
    pub fn error_handler(&self) -> (r: Option<u64>)
        ensures
            r == self.spec_error_handler(),
    {
        self.error_handler
    }

    /// The registered notice-message handler, if any.
    pub fn notice_handler(&self) -> (r: Option<u64>)
        ensures
            r == self.spec_notice_handler(),
    {
        self.notice_handler
    }

    /// Replace the error-message handler. Operations made after this call
    /// route error messages to the new handler; in-flight ones are not
    /// affected.
    pub fn set_error_message_handler(&mut self, handler: Option<u64>)
        ensures
            final(self).spec_error_handler() == handler,
            final(self).spec_notice_handler() == old(self).spec_notice_handler(),
    {
        self.error_handler = handler;
    }

    /// Replace the notice-message handler. Operations made after this call
    /// route notices to the new handler; in-flight ones are not affected.
    pub fn set_notice_message_handler(&mut self, handler: Option<u64>)
        ensures
            final(self).spec_notice_handler() == handler,
            final(self).spec_error_handler() == old(self).spec_error_handler(),
    {
        self.notice_handler = handler;
    }

    /// Spec-level accessor for the error handler slot.
    pub closed spec fn spec_error_handler(&self) -> Option<u64> {
        self.error_handler
    }

    /// Spec-level accessor for the notice handler slot.
    pub closed spec fn spec_notice_handler(&self) -> Option<u64> {
        self.notice_handler
    }
}

/// Relies on `Arc::clone`: the returned handle shares the same allocation,
/// so it holds the same context value and only the reference count grows.
#[verifier::external_body]
pub fn share_context(c: &Arc<GContextHandle>) -> (r: Arc<GContextHandle>)
    ensures
        r == *c,
{
    Arc::clone(c)
}

/// Relies on `Arc::as_ref`: borrowing through the shared handle yields the
/// context value it guards.
#[verifier::external_body]
pub fn borrow_context(c: &Arc<GContextHandle>) -> (r: &GContextHandle)
    ensures
        *r == **c,
{
    c.as_ref()
}

} // verus!
