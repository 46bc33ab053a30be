use pcs_simulator::pcs::publisher::{parse_hex_u16, parse_mac as parse_mac_quoted};
use pcs_simulator::plc::publisher::{
    init_publisher_goose_frames, parse_mac, FrameConfigError, PublisherConfig, PublisherConfigRaw, RawField,
};

fn create_valid_config() -> PublisherConfig {
    PublisherConfig {
        src_addr: "01:0C:CD:01:00:01".to_string(),
        dst_addr: "01:0C:CD:FF:FF:FF".to_string(),
        tpid: 0x8100,
        tci: 0x8002,
        appid: 0x0008,
        gocb_ref: "TestDevice/LLN0$GO$Gcb1".to_string(),
        dat_set: "TestDevice/LLN0$dsGOOSE1".to_string(),
        goose_id: "TestDevice/LLN0.Gcb1".to_string(),
        simulation: false,
        conf_rev: 1,
        ndscom: false,
        number_of_pcs: 2,
    }
}

#[test]
fn test_parse_mac_colon_format() {
    let result = parse_mac_quoted("01:0C:CD:01:00:01");
    assert!(result.is_ok());
    assert_eq!(result.unwrap(), [0x01, 0x0C, 0xCD, 0x01, 0x00, 0x01]);
}

#[test]
fn test_parse_mac_with_quotes() {
    let result = parse_mac_quoted("\"01:0C:CD:01:00:01\"");
    assert!(result.is_ok());
    assert_eq!(result.unwrap(), [0x01, 0x0C, 0xCD, 0x01, 0x00, 0x01]);
}

#[test]
fn test_parse_hex_u16_with_prefix() {
    let result = parse_hex_u16("0x8100");
    assert!(result.is_ok());
    assert_eq!(result.unwrap(), 0x8100);
}

#[test]
fn test_parse_hex_u16_without_prefix() {
    let result = parse_hex_u16("8100");
    assert!(result.is_ok());
    assert_eq!(result.unwrap(), 0x8100);
}

#[test]
fn publisher_test_parse_mac_colon_format() {
    let result = parse_mac("01:0C:CD:01:00:01");
    assert!(result.is_ok());
    assert_eq!(result.unwrap(), [0x01, 0x0C, 0xCD, 0x01, 0x00, 0x01]);
}

#[test]
fn test_parse_mac_dash_format() {
    let result = parse_mac("01-0C-CD-01-00-01");
    assert!(result.is_ok());
    assert_eq!(result.unwrap(), [0x01, 0x0C, 0xCD, 0x01, 0x00, 0x01]);
}

#[test]
fn test_parse_mac_no_separator() {
    let result = parse_mac("010CCD010001");
    assert!(result.is_ok());
    assert_eq!(result.unwrap(), [0x01, 0x0C, 0xCD, 0x01, 0x00, 0x01]);
}

#[test]
fn test_parse_mac_invalid_hex() {
    let result = parse_mac("ZZ:0C:CD:01:00:01");
    assert!(result.is_err());
}

#[test]
fn test_parse_mac_wrong_length() {
    let result = parse_mac("01:0C:CD:01:00");
    assert!(result.is_err());
}

#[test]
fn test_init_publisher_goose_frames_success() {
    let configs = vec![create_valid_config()];
    let result = init_publisher_goose_frames(&configs);

    assert!(result.is_ok(), "Should succeed with valid config");
    let frames = result.unwrap();
    assert_eq!(frames.len(), 1);

    assert_eq!(frames[0].0.srcAddr, [0x01, 0x0C, 0xCD, 0x01, 0x00, 0x01]);
    assert_eq!(frames[0].0.dstAddr, [0x01, 0x0C, 0xCD, 0xFF, 0xFF, 0xFF]);

    assert_eq!(frames[0].1.gocbRef, "TestDevice/LLN0$GO$Gcb1");
    // numDatSetEntries always equals the number of allData entries: 2 PCS * 4.
    assert_eq!(frames[0].1.numDatSetEntries, 8);
    assert_eq!(frames[0].1.allData.len(), 8);
}

#[test]
fn test_init_publisher_goose_frames_empty_config() {
    let configs: Vec<PublisherConfig> = vec![];
    let result = init_publisher_goose_frames(&configs);

    assert!(result.is_err(), "Should fail with empty config");
    assert!(result.unwrap_err().to_string().contains("empty"));
}

#[test]
fn test_init_publisher_goose_frames_invalid_src_mac() {
    let mut config = create_valid_config();
    config.src_addr = "invalid:mac:addr".to_string();

    let result = init_publisher_goose_frames(&[config]);
    assert!(result.is_err(), "Should fail with invalid source MAC");
    let err_msg = result.unwrap_err().to_string();
    assert!(err_msg.contains("source MAC"), "Error should mention source MAC");
}

#[test]
fn test_init_publisher_goose_frames_invalid_dst_mac() {
    let mut config = create_valid_config();
    config.dst_addr = "ZZ:ZZ:ZZ:ZZ:ZZ:ZZ".to_string();

    let result = init_publisher_goose_frames(&[config]);
    assert!(result.is_err(), "Should fail with invalid destination MAC");
    let err_msg = result.unwrap_err().to_string();
    assert!(err_msg.contains("destination MAC"), "Error should mention destination MAC");
}

#[test]
fn test_init_publisher_goose_frames_zero_appid() {
    let mut config = create_valid_config();
    config.appid = 0;

    let result = init_publisher_goose_frames(&[config]);
    assert!(result.is_err(), "Should fail with APPID 0");
    let err_msg = result.unwrap_err().to_string();
    assert!(err_msg.contains("APPID"), "Error should mention APPID");
}

#[test]
fn test_init_publisher_goose_frames_zero_number_of_pcs() {
    let mut config = create_valid_config();
    config.number_of_pcs = 0;

    let result = init_publisher_goose_frames(&[config]);
    assert!(result.is_err(), "Should fail with 0 number_of_pcs");
    let err_msg = result.unwrap_err().to_string();
    assert!(err_msg.contains("numDatSetEntries"), "Error should mention numDatSetEntries");
}

#[test]
fn test_init_publisher_goose_frames_empty_gocb_ref() {
    let mut config = create_valid_config();
    config.gocb_ref = "".to_string();

    let result = init_publisher_goose_frames(&[config]);
    assert!(result.is_err(), "Should fail with empty gocbRef");
    let err_msg = result.unwrap_err().to_string();
    assert!(err_msg.contains("gocbRef"), "Error should mention gocbRef");
}

#[test]
fn test_init_publisher_goose_frames_empty_dat_set() {
    let mut config = create_valid_config();
    config.dat_set = "".to_string();

    let result = init_publisher_goose_frames(&[config]);
    assert!(result.is_err(), "Should fail with empty datSet");
    let err_msg = result.unwrap_err().to_string();
    assert!(err_msg.contains("datSet"), "Error should mention datSet");
}

#[test]
fn test_init_publisher_goose_frames_empty_goose_id() {
    let mut config = create_valid_config();
    config.goose_id = "".to_string();

    let result = init_publisher_goose_frames(&[config]);
    assert!(result.is_err(), "Should fail with empty goID");
    let err_msg = result.unwrap_err().to_string();
    assert!(err_msg.contains("goID"), "Error should mention goID");
}

#[test]
fn test_init_publisher_goose_frames_multiple_configs() {
    let config1 = create_valid_config();
    let mut config2 = create_valid_config();
    config2.src_addr = "01:0C:CD:01:00:02".to_string();
    config2.goose_id = "TestDevice2/LLN0.Gcb2".to_string();
    config2.number_of_pcs = 3;

    let result = init_publisher_goose_frames(&[config1, config2]);
    assert!(result.is_ok(), "Should succeed with multiple valid configs");

    let frames = result.unwrap();
    assert_eq!(frames.len(), 2);
    // numDatSetEntries always equals the number of allData entries: 4 per PCS.
    assert_eq!(frames[0].1.numDatSetEntries, 8);
    assert_eq!(frames[1].1.numDatSetEntries, 12);
    assert_eq!(frames[1].1.allData.len(), 12);
}

#[test]
fn test_init_publisher_goose_frames_second_config_invalid() {
    let config1 = create_valid_config();
    let mut config2 = create_valid_config();
    config2.appid = 0;

    let result = init_publisher_goose_frames(&[config1, config2]);
    assert!(result.is_err(), "Should fail if any config is invalid");
    let err_msg = result.unwrap_err().to_string();
    assert!(err_msg.contains("Config 1"), "Error should mention config index");
}

#[test]
fn frame_error_names_index_and_issue() {
    let mut config = create_valid_config();
    config.dat_set = String::new();
    let cfgs = vec![create_valid_config(), create_valid_config(), config];
    match init_publisher_goose_frames(&cfgs) {
        Err(e) => {
            assert!(matches!(e, FrameConfigError::Invalid { index: 2, .. }));
            assert_eq!(e.to_string(), "Config 2: datSet cannot be empty");
        }
        Ok(_) => panic!("expected an error"),
    }
}

#[test]
fn raw_config_parses_hex_and_decimal_fields() {
    let raw = PublisherConfigRaw {
        src_addr: "01:0C:CD:01:00:01".to_string(),
        dst_addr: "01:0C:CD:FF:FF:FF".to_string(),
        tpid: "0x8100".to_string(),
        tci: "8002".to_string(),
        appid: "0x0x0010".to_string(),
        gocb_ref: "G".to_string(),
        dat_set: "D".to_string(),
        goose_id: "I".to_string(),
        simulation: "true".to_string(),
        conf_rev: "+7".to_string(),
        ndscom: "True".to_string(),
        number_of_pcs: "3".to_string(),
    };
    let c = raw.to_runtime().unwrap();
    assert_eq!(c.tpid, 0x8100);
    assert_eq!(c.tci, 0x8002);
    assert_eq!(c.appid, 0x10);
    assert!(c.simulation);
    assert!(!c.ndscom);
    assert_eq!(c.conf_rev, 7);
    assert_eq!(c.number_of_pcs, 3);

    let mut bad = raw.clone();
    bad.tci = "0x1_0000".to_string();
    assert_eq!(bad.to_runtime().unwrap_err(), RawField::Tci);
    assert_eq!(RawField::Tci.to_string(), "Failed to parse TCI");
    bad.tci = "10000".to_string();
    assert_eq!(bad.to_runtime().unwrap_err(), RawField::Tci);
    let mut bad2 = raw.clone();
    bad2.number_of_pcs = "4294967296".to_string();
    assert_eq!(bad2.to_runtime().unwrap_err(), RawField::NumberOfPcs);
}

#[test]
fn mac_with_dots_and_stray_characters() {
    assert_eq!(parse_mac("01.0c.cd.01.00.0a").unwrap(), [0x01, 0x0C, 0xCD, 0x01, 0x00, 0x0A]);
    assert_eq!(parse_mac("01 0C CD 01 00 01").unwrap(), [0x01, 0x0C, 0xCD, 0x01, 0x00, 0x01]);
    assert!(parse_mac("01:0C:CD:01:00:1").is_err());
    assert_eq!(parse_mac_quoted("  \"01-0C-CD-01-00-02\"\n").unwrap(), [0x01, 0x0C, 0xCD, 0x01, 0x00, 0x02]);
    assert!(parse_hex_u16("0x10000").is_err());
    assert_eq!(parse_hex_u16(" \"0x00ff\" ").unwrap(), 0xFF);
}
