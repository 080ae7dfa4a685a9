//! Plain data exchanged with FELib digitizers: handles, raw readouts,
//! OpenDPP events, device information and parameter metadata.

use vstd::prelude::*;

use crate::text::{parse_u32, parse_u64, spec_parse_u32, spec_parse_u64};

verus! {

/// Handle of an open FELib device connection.
pub struct CaenHandle {
    handle: u64,
}

impl CaenHandle {
    /// The connection with FELib handle `handle`, as `CAEN_FELib_Open`
    /// returned it.
    pub fn from_raw(handle: u64) -> (h: Self)
        ensures
            h.spec_raw() == handle,
    {
        CaenHandle { handle }
    }

    pub closed spec fn spec_raw(&self) -> u64 {
        self.handle
    }

    /// The raw handle value.
    pub fn raw(&self) -> (r: u64)
        ensures
            r == self.spec_raw(),
    {
        self.handle
    }

    /// Whether a handle is held (non-zero); says nothing of the link.
    pub fn is_connected(&self) -> (r: bool)
        ensures
            r == (self.spec_raw() != 0),
    {
        self.handle != 0
    }
}

/// Handle of a data endpoint of a device.
pub struct EndpointHandle {
    pub handle: u64,
}

impl EndpointHandle {
    /// The raw handle value.
    pub fn raw(&self) -> (r: u64)
        ensures
            r == self.handle,
    {
        self.handle
    }
}

/// Raw data read from a digitizer endpoint.
#[derive(Debug)]
pub struct RawData {
    /// Bytes read.
    pub data: Vec<u8>,
    /// Number of valid bytes.
    pub size: usize,
    /// Number of events in the block.
    pub n_events: u32,
}

/// One event of an OpenDPP endpoint.
#[derive(Debug, Clone)]
pub struct OpenDppEvent {
    pub channel: u8,
    /// Timestamp in clock ticks (8 ns on VX2730).
    pub timestamp: u64,
    /// Fine timestamp, 1/1024 of a tick.
    pub fine_timestamp: u16,
    pub energy: u16,
    /// Flags B (12 bits).
    pub flags_b: u16,
    /// Flags A (8 bits).
    pub flags_a: u16,
    pub psd: u16,
    pub user_info: Vec<u64>,
    /// Waveform samples, when the endpoint was configured with them.
    pub waveform: Option<Vec<u16>>,
    /// Event size in bytes.
    pub event_size: usize,
}

/// Device information of a digitizer.
#[derive(Debug, Clone)]
pub struct DeviceInfo {
    pub model: String,
    pub serial_number: String,
    pub firmware_type: String,
    pub num_channels: u32,
    pub adc_bits: u32,
    pub sampling_rate_sps: u64,
}

/// The counter `value` read from the digitizer, 0 when it is not a
/// number.
pub open spec fn count_or_zero_u32(value: Seq<char>) -> u32 {
    match spec_parse_u32(value) {
        Some(v) => v,
        None => 0,
    }
}

impl DeviceInfo {
    /// Device information from the values of `/par/ModelName`,
    /// `/par/SerialNum`, `/par/FwType`, `/par/NumCh`, `/par/ADC_Nbit` and
    /// `/par/ADC_SamplRate`; a count that is not a number reads as 0.
    pub fn from_values(
        model: String,
        serial_number: String,
        firmware_type: String,
        num_channels: &str,
        adc_bits: &str,
        sampling_rate_sps: &str,
    ) -> (d: Self)
        ensures
            d.model == model,
            d.serial_number == serial_number,
            d.firmware_type == firmware_type,
            d.num_channels == count_or_zero_u32(num_channels@),
            d.adc_bits == count_or_zero_u32(adc_bits@),
            d.sampling_rate_sps == match spec_parse_u64(sampling_rate_sps@) {
                Some(v) => v,
                None => 0,
            },
    {
        DeviceInfo {
            model,
            serial_number,
            firmware_type,
            num_channels: match parse_u32(num_channels) {
                Some(v) => v,
                None => 0,
            },
            adc_bits: match parse_u32(adc_bits) {
                Some(v) => v,
                None => 0,
            },
            sampling_rate_sps: match parse_u64(sampling_rate_sps) {
                Some(v) => v,
                None => 0,
            },
        }
    }
}

/// Parameter metadata from the device tree.
#[derive(Debug, Clone)]
pub struct ParamInfo {
    pub name: String,
    /// Data type ("NUMBER", "STRING", ...).
    pub datatype: String,
    /// Access mode ("READ_WRITE", "READ_ONLY", ...).
    pub access_mode: String,
    /// Whether the parameter may change during acquisition.
    pub setinrun: bool,
    pub min_value: Option<String>,
    pub max_value: Option<String>,
    /// Allowed values of an enumerated parameter.
    pub allowed_values: Vec<String>,
    pub unit: Option<String>,
    /// Step increment ("8", "0.1", ...).
    pub increment: Option<String>,
    pub default_value: Option<String>,
    /// Unit exponent (-9 for nanoseconds).
    pub expuom: Option<i32>,
}

} // verus!
