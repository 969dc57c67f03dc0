//! Answers to requests, as plain values.

use vstd::prelude::*;

verus! {

/// The status of a refused request whose input is at fault.
pub const BAD_REQUEST: u16 = 400;

/// The status of a request that failed here.
pub const INTERNAL_SERVER_ERROR: u16 = 500;

/// The status of a request that failed at Stripe.
pub const BAD_GATEWAY: u16 = 502;

/// A failed request: the HTTP status and the body that explains it.
#[derive(Clone, Debug)]
pub struct HttpError {
    pub status: u16,
    pub message: String,
}

impl HttpError {
    /// Whether this is the given status with the given body.
    pub open spec fn says(self, status: u16, message: Seq<char>) -> bool {
        self.status == status && self.message@ == message
    }
}

} // verus!
