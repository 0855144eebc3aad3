//! The errors the framework reports.

use vstd::prelude::*;

verus! {

/// What can go wrong while serving one connection's request.
///
/// `MalformedInput` names a start line or header line that cannot be
/// split as the wire format demands; `NotFound` a request no mount or
/// route covers; `UnknownStatus` a response status code outside the
/// fixed reason-phrase table.
#[derive(Clone, Copy, PartialEq, Eq, Structural, Debug)]
pub enum HttpError {
    MalformedInput,
    NotFound,
    UnknownStatus,
}

} // verus!
