//! Middleware stages and the control handle a stage uses to decide
//! whether the pipeline proceeds.

use vstd::prelude::*;

use crate::request::Request;
use crate::response::Response;

verus! {

/// The per-invocation control handle handed to one stage. A stage must
/// signal exactly one outcome; the first signal wins and later ones are
/// ignored. A handle released without a signal counts as terminate, so
/// a stage that stays silent still stops the chain.
pub struct MiddlewareSession {
    sig: Option<bool>,
}

impl MiddlewareSession {
    /// The signal recorded so far: `Some(true)` to continue,
    /// `Some(false)` to terminate, `None` while no signal has come.
    pub closed spec fn signal(&self) -> Option<bool> {
        self.sig
    }

    /// A fresh handle with no signal recorded.
    pub fn new() -> (r: MiddlewareSession)
        ensures
            r.signal() is None,
    {
        MiddlewareSession { sig: None }
    }

    /// Signals that the engine may proceed to the next stage.
    pub fn next(&mut self)
        ensures
            final(self).signal() == if old(self).signal() is None {
                Some(true)
            } else {
                old(self).signal()
            },
    {
        if self.sig.is_none() {
            self.sig = Some(true);
        }
    }

    /// Signals that the engine must stop the pipeline here.
    pub fn terminate(&mut self)
        ensures
            final(self).signal() == if old(self).signal() is None {
                Some(false)
            } else {
                old(self).signal()
            },
    {
        if self.sig.is_none() {
            self.sig = Some(false);
        }
    }

    /// Whether the pipeline proceeds past the stage that held this
    /// handle: only an explicit continue signal lets the next stage
    /// run; no signal stops the chain like an explicit terminate.
    pub fn proceeds(&self) -> (r: bool)
        ensures
            r == (self.signal() == Some(true)),
    {
        match self.sig {
            Some(b) => b,
            None => false,
        }
    }
}

/// A unit of middleware work: one stage of a session's pipeline. Each
/// invocation receives the request, the response in the making, and a
/// fresh control handle on which it signals continue or terminate.
pub trait MiddlewareMethod {
    fn call(&self, request: &Request, response: &mut Response, session: &mut MiddlewareSession);
}

} // verus!
