use vstd::prelude::*;

verus! {

/// Failures reported by sessions, devices and streams.
#[derive(Copy, Clone, Debug, PartialEq, Eq, Hash, Structural)]
pub enum Error {
    /// The requested backend is not available on this platform.
    ApiNotAvailable,
    /// A thread, handle or similar system resource could not be allocated.
    SystemResources,
    /// No default device of the requested direction exists.
    NoDeviceAvailable,
    /// No default output device exists.
    NoOutputDevice,
    /// The device was invalidated or disconnected while in use.
    DeviceNotAvailable,
    /// The device's native format is not one this engine understands.
    DeviceNotUsable,
    /// Any other failure reported by the backend.
    Unknown,
}

} // verus!
