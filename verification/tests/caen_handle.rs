use delila::reader::caen::validation::{
    pass_through, validation_kind, value_to_send, ValidateResult, ValidationKind,
};
use delila::reader::caen::handle::{CaenHandle, DeviceInfo, EndpointHandle, ParamInfo, RawData};

#[test]
fn test_raw_data_struct() {
    let raw = RawData { data: vec![1, 2, 3, 4], size: 4, n_events: 1 };
    assert_eq!(raw.data.len(), 4);
    assert_eq!(raw.size, 4);
    assert_eq!(raw.n_events, 1);
}

#[test]
fn test_raw_data_debug() {
    let raw = RawData { data: vec![0xAB, 0xCD], size: 2, n_events: 0 };
    let debug = format!("{:?}", raw);
    assert!(debug.contains("RawData"));
    assert!(debug.contains("size: 2"));
}

#[test]
fn test_endpoint_handle_raw() {
    let ep = EndpointHandle { handle: 12345 };
    assert_eq!(ep.raw(), 12345);
}

#[test]
fn test_buffer_sizes() {
    let value_buffer_size = 256;
    let name_buffer_size = 32;
    let desc_buffer_size = 256;
    assert!(value_buffer_size >= 128);
    assert!(name_buffer_size >= 16);
    assert!(desc_buffer_size >= 64);
}

fn vx2730() -> DeviceInfo {
    DeviceInfo {
        model: "VX2730".to_string(),
        serial_number: "12345".to_string(),
        firmware_type: "DPP_PSD".to_string(),
        num_channels: 32,
        adc_bits: 14,
        sampling_rate_sps: 125_000_000,
    }
}

#[test]
fn test_device_info_struct() {
    let info = vx2730();
    assert_eq!(info.model, "VX2730");
    assert_eq!(info.num_channels, 32);
    assert_eq!(info.adc_bits, 14);
}

#[test]
fn test_device_info_clone() {
    let info = vx2730();
    let cloned = info.clone();
    assert_eq!(info.model, cloned.model);
    assert_eq!(info.serial_number, cloned.serial_number);
}

#[test]
fn test_device_info_debug() {
    let info = vx2730();
    let debug = format!("{:?}", info);
    assert!(debug.contains("VX2730"));
    assert!(debug.contains("DPP_PSD"));
}

#[test]
fn test_param_info_struct() {
    let info = ParamInfo {
        name: "DCOffset".to_string(),
        datatype: "NUMBER".to_string(),
        access_mode: "READ_WRITE".to_string(),
        setinrun: true,
        min_value: Some("0".to_string()),
        max_value: Some("100".to_string()),
        allowed_values: vec![],
        unit: Some("%".to_string()),
        increment: Some("0.1".to_string()),
        default_value: Some("20".to_string()),
        expuom: Some(0),
    };
    assert_eq!(info.name, "DCOffset");
    assert!(info.setinrun);
    assert_eq!(info.min_value, Some("0".to_string()));
    assert_eq!(info.increment, Some("0.1".to_string()));
    assert_eq!(info.expuom, Some(0));
}

#[test]
fn test_param_info_enum_type() {
    let info = ParamInfo {
        name: "Polarity".to_string(),
        datatype: "STRING".to_string(),
        access_mode: "READ_WRITE".to_string(),
        setinrun: false,
        min_value: None,
        max_value: None,
        allowed_values: vec!["Positive".to_string(), "Negative".to_string()],
        unit: None,
        increment: None,
        default_value: None,
        expuom: None,
    };
    assert_eq!(info.allowed_values.len(), 2);
    assert!(!info.setinrun);
}

#[test]
fn test_param_info_clone() {
    let info = ParamInfo {
        name: "TriggerThr".to_string(),
        datatype: "NUMBER".to_string(),
        access_mode: "READ_WRITE".to_string(),
        setinrun: true,
        min_value: Some("0".to_string()),
        max_value: Some("16383".to_string()),
        allowed_values: vec![],
        unit: None,
        increment: Some("1".to_string()),
        default_value: Some("100".to_string()),
        expuom: Some(0),
    };
    let cloned = info.clone();
    assert_eq!(info.name, cloned.name);
    assert_eq!(info.setinrun, cloned.setinrun);
    assert_eq!(info.increment, cloned.increment);
}

#[test]
fn caen_handle_reports_its_raw_value() {
    let h = CaenHandle::from_raw(77);
    assert_eq!(h.raw(), 77);
    assert!(h.is_connected());
    assert!(!CaenHandle::from_raw(0).is_connected());
}

#[test]
fn validation_kind_by_datatype_and_value_sent() {
    assert_eq!(validation_kind("NUMBER"), ValidationKind::Numeric);
    assert_eq!(validation_kind("STRING"), ValidationKind::Enumerated);
    assert_eq!(validation_kind("number"), ValidationKind::PassThrough);
    let p = pass_through("abc");
    assert_eq!(p.value, "abc");
    assert!(!p.adjusted && p.message.is_none());
    let v = ValidateResult { value: "8".to_string(), adjusted: true, message: None };
    assert_eq!(value_to_send(&Some(v), "7"), "8");
    assert_eq!(value_to_send(&None, "7"), "7");
}
