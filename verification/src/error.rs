//! Errors of the service.

use vstd::prelude::*;
use crate::codec::FrameError;
use crate::secio::error::SecioError;

verus! {

/// `std::io::Error`, carried unopened.
#[verifier::external_type_specification]
#[verifier::external_body]
pub struct ExIoError(std::io::Error);

/// What can go wrong in the service; `T` is the task that could not be
/// queued.
#[derive(Debug)]
pub enum Error<T> {
    /// The transport failed.
    IoError(std::io::Error),
    /// The task queue is full.
    TaskFull(T),
    /// The secure-channel handshake failed.
    HandshakeError(SecioError),
    /// A frame on a sub-stream was refused.
    FrameError(FrameError),
}

} // verus!
