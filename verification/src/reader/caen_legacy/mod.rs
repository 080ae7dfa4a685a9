//! CAENDigitizer (legacy library) side, for V1743 / x743 digitizers: the
//! error type, the board descriptions, the enumerations the configuration
//! chooses from, and the rules that read the board status and the
//! configuration words.

pub mod error;
pub mod handle;
pub mod plan;

pub use self::error::{DigitizerError, ErrorCode};
pub use self::handle::{
    AcqMode, BoardInfo, ConnectionType, IOLevel, SamCorrectionLevel, SamFrequency, SamPulseSource,
    TriggerMode, TriggerPolarity, CHANNELS_PER_GROUP, MAX_CHANNELS, MAX_GROUPS,
};
