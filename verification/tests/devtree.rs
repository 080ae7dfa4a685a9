use delila::reader::caen::devtree::{
    build_param_cache, extract_param_info, find_param_in_tree, param_info_in_tree, DevTreeNode,
};
use delila::reader::caen::handle::DeviceInfo;
use delila::reader::caen::validation::{num_channels_fit, ApplyTally};
use delila::text::{
    last_nonempty_segment_of, last_segment_of, parse_i32, parse_u32, parse_u64,
};

/// The device-tree node of a parsed JSON value.
fn node_of(v: &serde_json::Value) -> DevTreeNode {
    match v {
        serde_json::Value::Object(m) => {
            DevTreeNode::Object(m.iter().map(|(k, v)| (k.clone(), node_of(v))).collect())
        }
        serde_json::Value::String(s) => DevTreeNode::Str(s.clone()),
        _ => DevTreeNode::Other,
    }
}

fn parse_node(json: &str) -> DevTreeNode {
    node_of(&serde_json::from_str(json).unwrap())
}

#[test]
fn test_extract_param_info_from_json() {
    let node = parse_node(
        r#"{
            "accessmode": { "value": "READ_WRITE" },
            "datatype": { "value": "NUMBER" },
            "setinrun": { "value": "true" },
            "minvalue": { "value": "0.0" },
            "maxvalue": { "value": "100.0" },
            "increment": { "value": "0.1" },
            "defaultvalue": { "value": "20" },
            "expuom": { "value": "0" },
            "uom": { "value": "%" }
        }"#,
    );
    let info = extract_param_info("DCOffset", &node);
    assert_eq!(info.name, "DCOffset");
    assert_eq!(info.datatype, "NUMBER");
    assert!(info.setinrun);
    assert_eq!(info.min_value, Some("0.0".to_string()));
    assert_eq!(info.max_value, Some("100.0".to_string()));
    assert_eq!(info.unit, Some("%".to_string()));
    assert_eq!(info.increment, Some("0.1".to_string()));
    assert_eq!(info.default_value, Some("20".to_string()));
    assert_eq!(info.expuom, Some(0));
}

#[test]
fn test_extract_param_info_time_param() {
    let node = parse_node(
        r#"{
            "accessmode": { "value": "READ_WRITE" },
            "datatype": { "value": "NUMBER" },
            "setinrun": { "value": "true" },
            "minvalue": { "value": "0" },
            "maxvalue": { "value": "524280" },
            "increment": { "value": "8" },
            "defaultvalue": { "value": "1024" },
            "expuom": { "value": "-9" },
            "uom": { "value": "s" }
        }"#,
    );
    let info = extract_param_info("ch_trg_holdoff", &node);
    assert_eq!(info.increment, Some("8".to_string()));
    assert_eq!(info.expuom, Some(-9));
    assert_eq!(info.default_value, Some("1024".to_string()));
}

#[test]
fn test_extract_param_info_enum() {
    let node = parse_node(
        r#"{
            "accessmode": { "value": "READ_WRITE" },
            "datatype": { "value": "STRING" },
            "setinrun": { "value": "false" },
            "allowedvalues": {
                "handle": 123,
                "value": "2",
                "0": { "value": "Positive" },
                "1": { "value": "Negative" }
            }
        }"#,
    );
    let info = extract_param_info("Polarity", &node);
    assert_eq!(info.datatype, "STRING");
    assert!(!info.setinrun);
    assert_eq!(info.allowed_values.len(), 2);
    assert!(info.allowed_values.contains(&"Positive".to_string()));
    assert!(info.allowed_values.contains(&"Negative".to_string()));
}

#[test]
fn extract_param_info_defaults_for_missing_attributes() {
    let node = parse_node(r#"{ "uom": { "value": "" }, "setinrun": { "value": "TRUE" }, "expuom": { "value": "x" } }"#);
    let info = extract_param_info("p", &node);
    assert_eq!(info.datatype, "UNKNOWN");
    assert_eq!(info.access_mode, "READ_WRITE");
    assert!(info.setinrun);
    assert_eq!(info.unit, None);
    assert_eq!(info.expuom, None);
    assert_eq!(info.min_value, None);
    assert!(info.allowed_values.is_empty());
}

const TREE: &str = r#"{
    "handle": 1,
    "par": {
        "handle": 2,
        "startmode": { "datatype": { "value": "STRING" }, "value": "START_MODE_SW" },
        "modelname": { "value": "DT5730B" },
        "ch_gate": { "datatype": { "value": "NUMBER" }, "increment": { "value": "4" } }
    },
    "ch": {
        "0": {
            "par": {
                "handle": 3,
                "ch_gate": { "datatype": { "value": "NUMBER" }, "increment": { "value": "2" }, "minvalue": { "value": "4" } },
                "ch_pretrg": { "datatype": { "value": "NUMBER" }, "increment": { "value": "8" }, "minvalue": { "value": "40" }, "expuom": { "value": "-9" } },
                "notes": "text"
            }
        },
        "1": { "par": { "ch_only_on_one": { "datatype": { "value": "NUMBER" } } } }
    }
}"#;

#[test]
fn build_param_cache_collects_board_then_channel_params() {
    let tree = parse_node(TREE);
    let cache = build_param_cache(&tree);
    assert_eq!(cache.len(), 3);
    assert!(cache.contains_key("startmode"));
    assert!(!cache.contains_key("modelname"));
    assert!(!cache.contains_key("handle"));
    assert!(!cache.contains_key("notes"));
    assert!(!cache.contains_key("ch_only_on_one"));
    // the board parameter shadows the channel parameter of the same name
    assert_eq!(cache.get("ch_gate").unwrap().increment.as_deref(), Some("4"));
    let pretrg = cache.get("ch_pretrg").unwrap();
    assert_eq!(pretrg.datatype, "NUMBER");
    assert_eq!(pretrg.increment.as_deref(), Some("8"));
    assert_eq!(pretrg.min_value.as_deref(), Some("40"));
    assert_eq!(pretrg.expuom, Some(-9));
}

#[test]
fn find_param_searches_par_then_children() {
    let tree = parse_node(TREE);
    let found = find_param_in_tree(&tree, "modelname").unwrap();
    assert!(matches!(found, DevTreeNode::Object(_)));
    let info = extract_param_info("ch_pretrg", find_param_in_tree(&tree, "ch_pretrg").unwrap());
    assert_eq!(info.min_value.as_deref(), Some("40"));
    // a board parameter is found before the channel one
    let gate = extract_param_info("ch_gate", find_param_in_tree(&tree, "ch_gate").unwrap());
    assert_eq!(gate.increment.as_deref(), Some("4"));
    assert!(find_param_in_tree(&tree, "missing").is_none());
    // "notes" is a string, not a parameter node
    assert!(find_param_in_tree(&tree, "notes").is_none());
}

#[test]
fn param_info_in_tree_uses_last_path_segment() {
    let tree = parse_node(TREE);
    let info = param_info_in_tree(&tree, "/ch/0/par/ch_pretrg").unwrap();
    assert_eq!(info.name, "ch_pretrg");
    assert_eq!(info.increment.as_deref(), Some("8"));
    let info = param_info_in_tree(&tree, "/par/startmode/").unwrap();
    assert_eq!(info.name, "startmode");
    assert!(param_info_in_tree(&tree, "/par/nothing").is_none());
}

#[test]
fn path_segments() {
    assert_eq!(last_segment_of("/ch/0/par/ch_gate"), "ch_gate");
    assert_eq!(last_segment_of("ch_gate"), "ch_gate");
    assert_eq!(last_segment_of("/par/"), "");
    assert_eq!(last_nonempty_segment_of("/par/startmode//"), "startmode");
    assert_eq!(last_nonempty_segment_of("///"), "///");
    assert_eq!(last_nonempty_segment_of(""), "");
}

#[test]
fn integer_parsing_follows_std() {
    for s in ["0", "42", "+7", "4294967295", "4294967296", "-1", "", "+", "1_0", " 1", "007"] {
        assert_eq!(parse_u32(s), s.parse::<u32>().ok(), "u32 {:?}", s);
    }
    for s in ["0", "-0", "-9", "+12", "2147483647", "2147483648", "-2147483648", "-2147483649", "-", "x"] {
        assert_eq!(parse_i32(s), s.parse::<i32>().ok(), "i32 {:?}", s);
    }
    for s in ["18446744073709551615", "18446744073709551616", "250000000", "+1", "1e3"] {
        assert_eq!(parse_u64(s), s.parse::<u64>().ok(), "u64 {:?}", s);
    }
}

#[test]
fn device_info_reads_counts_or_zero() {
    let d = DeviceInfo::from_values(
        "VX2730".to_string(),
        "12345".to_string(),
        "DPP_PSD".to_string(),
        "32",
        "14",
        "500000000",
    );
    assert_eq!(d.model, "VX2730");
    assert_eq!(d.num_channels, 32);
    assert_eq!(d.adc_bits, 14);
    assert_eq!(d.sampling_rate_sps, 500_000_000);
    let d = DeviceInfo::from_values(String::new(), String::new(), String::new(), "n/a", "", "-1");
    assert_eq!((d.num_channels, d.adc_bits, d.sampling_rate_sps), (0, 0, 0));
}

#[test]
fn channel_count_check() {
    assert!(num_channels_fit(0, 64));
    assert!(num_channels_fit(32, 32));
    assert!(!num_channels_fit(16, 32));
}

#[test]
fn apply_tally_counts_channel_failures() {
    let mut t = ApplyTally::new();
    t.record("/par/startmode", true);
    t.record("/ch/0/par/ch_gate", false);
    assert!(t.all_channel_params_failed());
    t.record("/ch/1/par/ch_gate", true);
    assert!(!t.all_channel_params_failed());
    assert_eq!((t.applied, t.failed, t.channel_params, t.channel_failed), (2, 1, 2, 1));
    let empty = ApplyTally::new();
    assert!(!empty.all_channel_params_failed());
}
