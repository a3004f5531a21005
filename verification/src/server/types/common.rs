//! Bodies that several surfaces share.
use vstd::prelude::*;

verus! {

/// Token counts of a reply.
#[derive(Clone, Copy, PartialEq, Eq, Structural, Debug)]
pub struct Usage {
    pub prompt_tokens: u32,
    pub completion_tokens: u32,
    pub total_tokens: u32,
}

/// An error body.
#[derive(Debug)]
pub struct ApiError {
    pub error: ApiErrorDetail,
}

/// What went wrong.
#[derive(Debug)]
pub struct ApiErrorDetail {
    pub message: String,
    pub kind: String,
    pub code: Option<String>,
}

} // verus!
