//! A low-latency audio output engine: pull-based sources and adapters, a session/device/stream
//! model over interchangeable backends, and the decisions of the backend streaming engine
//! (the device-management worker and the real-time render loop).

pub mod device_thread;
pub mod error;
pub mod mixer;
pub mod player;
pub mod rechanneler;
pub mod render;
pub mod resampler;
pub mod session;
pub mod source;
mod sync;
pub mod thread_result;

pub use error::Error;
pub use player::Player;
pub use thread_result::ThreadResult;
