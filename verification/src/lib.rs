//! Estimates the tempo of a piece of music, in beats per minute, once per
//! configured time interval. A decoded audio stream is downmixed to one
//! channel, cut into overlapping analysis windows, and each window's tempo
//! is taken from the lag with the strongest sliding-dot-product
//! correlation. The windows are analysed in parallel; results come back as
//! an ordered sequence, or as a `Start` / `Step` / `End` event protocol
//! handed to an event sink.

pub mod config;
pub mod correlate;
pub mod engine;
pub mod pcm;
pub mod window;

pub use config::Configuration;
pub use config::ConfigurationError;
pub use config::DecodeError;
pub use config::EngineError;
pub use config::InputError;
pub use correlate::BPM;
pub use engine::analyse;
pub use engine::analyse_sync;
pub use engine::EventSink;
pub use engine::State;
pub use engine::VecSink;
pub use pcm::Frame;
pub use pcm::PcmBuffer;
