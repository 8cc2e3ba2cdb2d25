//! Why a list of cookies could not be emitted.
use crate::encoding_error::EncodingError;
use crate::internal_error::InternalError;
use vstd::prelude::*;

verus! {

/// The failure of an emit call.
#[derive(Clone, Copy, Debug)]
pub enum EmitCookieError<'a> {
    InternalError(InternalError),
    EncodingError(EncodingError<'a>),
}

} // verus!
