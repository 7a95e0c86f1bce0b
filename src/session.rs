use vstd::prelude::*;

use crate::device_thread::EndpointId;
use crate::error::Error;
use crate::render::DeviceFormat;
use crate::source::Source;

verus! {

/// Number of interleaved channels; never zero.
pub type ChannelCount = u16;

/// Frames per second; never zero.
pub type SampleRate = u32;

/// Direction of an audio endpoint.
#[derive(Copy, Clone, Debug, PartialEq, Eq, Hash, Structural)]
pub enum DeviceType {
    Input,
    Output,
}

/// Native wire representation of samples negotiated with a backend.
#[derive(Copy, Clone, Debug, PartialEq, Eq, Hash, Structural)]
pub enum SampleType {
    /// Signed 16-bit integer PCM
    I16,
    /// IEEE 754 32-bit float PCM
    F32,
}

/// A native API to create sessions in.
#[derive(Copy, Clone, Debug, PartialEq, Eq, Hash, Structural)]
#[non_exhaustive]
pub enum Api {
    /// The no-op backend: always succeeds and plays nothing.
    Dummy,
    /// Windows Audio Session API.
    Wasapi,
}

/// Channel count of the no-op backend's device.
pub const CH_STEREO: ChannelCount = 2;

/// Sample rate of the no-op backend's device.
pub const SR_48000: SampleRate = 48000;

/// Whether the library carries a backend for `api` on this platform.
pub open spec fn api_available(api: Api) -> bool {
    api is Dummy
}

/// Handle to an endpoint and its negotiated native format.
pub struct Device {
    api: Api,
    endpoint: Option<EndpointId>,
    format: DeviceFormat,
}

/// The format the no-op backend reports for every device.
pub open spec fn dummy_format() -> DeviceFormat {
    DeviceFormat { channels: CH_STEREO, sample_rate: SR_48000, sample_type: SampleType::I16 }
}

impl Device {
    pub closed spec fn api(&self) -> Api {
        self.api
    }

    pub closed spec fn endpoint(&self) -> Option<EndpointId> {
        self.endpoint
    }

    pub closed spec fn format(&self) -> DeviceFormat {
        self.format
    }

    pub open spec fn wf(&self) -> bool {
        self.format().wf()
    }

    /// A device of a platform backend at `endpoint` with a negotiated format.
    pub fn from_endpoint(api: Api, endpoint: EndpointId, format: DeviceFormat) -> (r: Device)
        requires
            format.wf(),
        ensures
            r.wf(),
            r.api() == api,
            r.endpoint() == Some(endpoint),
            r.format() == format,
    {
        Device { api, endpoint: Some(endpoint), format }
    }

    pub fn channel_count(&self) -> (r: ChannelCount)
        requires
            self.wf(),
        ensures
            r == self.format().channels,
            r > 0,
    {
        self.format.channels
    }

    pub fn sample_rate(&self) -> (r: SampleRate)
        requires
            self.wf(),
        ensures
            r == self.format().sample_rate,
            r > 0,
    {
        self.format.sample_rate
    }

    pub fn sample_type(&self) -> (r: SampleType)
        ensures
            r == self.format().sample_type,
    {
        self.format.sample_type
    }

    /// The backend endpoint this device stands for; none for the no-op backend.
    pub fn endpoint_id(&self) -> (r: Option<EndpointId>)
        ensures
            r == self.endpoint(),
    {
        self.endpoint
    }
}

/// Playback on one device.
pub struct OutputStream {
    device: Device,
}

impl OutputStream {
    pub closed spec fn device(&self) -> Device {
        self.device
    }

    /// Plays `source` until it is exhausted. The no-op backend plays nothing and succeeds.
    pub fn play<S: Source>(&self, _source: S) -> (r: Result<(), Error>)
        ensures
            r is Ok <==> api_available(self.device().api()),
            r is Err ==> r->Err_0 == Error::ApiNotAvailable,
    {
        match self.device.api {
            Api::Dummy => Ok(()),
            _ => Err(Error::ApiNotAvailable),
        }
    }
}

/// Entry point: one backend, chosen when the session is created.
pub struct Session {
    api: Api,
}

impl Session {
    pub closed spec fn api(&self) -> Api {
        self.api
    }

    /// Opens a session on `api`; a backend this platform does not carry is an error.
    pub fn new(api: Api) -> (r: Result<Session, Error>)
        ensures
            r is Ok <==> api_available(api),
            r is Ok ==> r->Ok_0.api() == api,
            r is Err ==> r->Err_0 == Error::ApiNotAvailable,
    {
        match api {
            Api::Dummy => Ok(Session { api }),
            _ => Err(Error::ApiNotAvailable),
        }
    }

    /// The default device of a direction.
    pub fn default_device(&self, _device_type: DeviceType) -> (r: Result<Device, Error>)
        ensures
            r is Ok <==> api_available(self.api()),
            r is Err ==> r->Err_0 == Error::ApiNotAvailable,
            r is Ok ==> r->Ok_0.wf() && r->Ok_0.api() == self.api() && r->Ok_0.format()
                == dummy_format() && r->Ok_0.endpoint() is None,
    {
        match self.api {
            Api::Dummy => Ok(
                Device {
                    api: self.api,
                    endpoint: None,
                    format: DeviceFormat {
                        channels: CH_STEREO,
                        sample_rate: SR_48000,
                        sample_type: SampleType::I16,
                    },
                },
            ),
            _ => Err(Error::ApiNotAvailable),
        }
    }

    /// The default output device.
    pub fn default_output_device(&self) -> (r: Result<Device, Error>)
        ensures
            r is Ok <==> api_available(self.api()),
            r is Err ==> r->Err_0 == Error::ApiNotAvailable,
            r is Ok ==> r->Ok_0.wf() && r->Ok_0.api() == self.api() && r->Ok_0.format()
                == dummy_format(),
    {
        self.default_device(DeviceType::Output)
    }

    /// Opens a stream that plays on `device`.
    pub fn open_output_stream(&self, device: Device) -> (r: Result<OutputStream, Error>)
        ensures
            r is Ok <==> api_available(self.api()) && device.api() == self.api(),
            r is Err ==> r->Err_0 == Error::ApiNotAvailable,
            r is Ok ==> r->Ok_0.device() == device,
    {
        match (self.api, device.api) {
            (Api::Dummy, Api::Dummy) => Ok(OutputStream { device }),
            _ => Err(Error::ApiNotAvailable),
        }
    }
}

} // verus!
