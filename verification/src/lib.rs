//! Contract between a waveform-viewing host and its filetype loader plugins:
//! the bit-packed frame store that carries decoded signal data, the signal
//! descriptor model, the loader session state machine, and the versioned
//! discovery decision for plugin libraries.

pub mod error;
pub mod registry;
pub mod session;
pub mod signal;
pub mod version;
pub mod wave;

pub use error::Error;
pub use registry::load_root_module_in_directory;
pub use session::WaveLoad;
pub use wave::WaveData;
pub use signal::SignalSpec;
pub use signal::SignalType;
pub use signal::WaveSignal;
