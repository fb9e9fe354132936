use vstd::prelude::*;

verus! {

/// The ways a stream can fail.
///
/// `UnsupportedFormat` is raised when the device's format descriptor does not
/// resolve to one of the concrete encodings the library supports; there is no
/// fallback encoding. `DeviceSetupFailure` covers errors while establishing
/// the session, including a reported buffer capacity of zero frames.
/// `DeviceIoFailure` covers errors while querying padding or acquiring and
/// committing a region during an active stream. `InvalidState` is raised when
/// a render operation is requested outside the streaming state.
#[derive(Clone, Copy, Debug, PartialEq, Eq, Structural)]
pub enum AudioError {
    UnsupportedFormat,
    DeviceSetupFailure,
    DeviceIoFailure,
    InvalidState,
}

} // verus!
