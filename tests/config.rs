use pcs_simulator::goose::buffer_pool::BufferPool;
use pcs_simulator::goose::types::IECData;
use pcs_simulator::os::config::validity_interval_from;
use pcs_simulator::os::linux_rt::prefault_stack;
use pcs_simulator::pcs::nameplate::{validate_nameplates, NameplateConfig};
use pcs_simulator::pms::types::{apply_pms_command, extract_command, PmsConfig};

fn np(logical: Option<u16>, goose: Option<u16>, pms: Option<u16>, pcs_type: Option<&str>) -> NameplateConfig {
    NameplateConfig {
        row_number: None,
        device_id: Some("  dev  ".to_string()),
        goose_appid: goose,
        goose_src_addr: Some(" 01:0C:CD:01:00:01 ".to_string()),
        goose_dst_addr: Some("".to_string()),
        goose_tpid: None,
        goose_tci: None,
        goose_gocb_ref: None,
        goose_data_set: None,
        goose_go_id: None,
        goose_simulation: None,
        goose_conf_rev: None,
        goose_nds_com: None,
        feed_line_id: Some(1),
        feed_line_alias: None,
        logical_id: logical,
        pcs_type: pcs_type.map(|s| s.to_string()),
        pms_appid: pms,
    }
}

#[test]
fn nameplates_are_normalised_and_validated() {
    let rows = vec![
        np(Some(1), Some(0x10), Some(0x100), Some(" TypeA ")),
        np(Some(1), Some(0x11), None, Some("TypeA")),
        np(Some(2), Some(0x10), None, Some("TypeA")),
        np(Some(0), Some(0x12), None, Some("TypeA")),
        np(Some(3), Some(0), Some(0), Some("TypeA")),
        np(Some(4), Some(0), None, Some("   ")),
        np(Some(5), Some(0x20), None, Some("TypeB")),
        np(Some(6), Some(0), None, Some("TypeB")),
        np(Some(7), None, None, Some("TypeB")),
        np(None, Some(0x21), None, Some("TypeB")),
    ];
    let kept = validate_nameplates(&rows);
    assert_eq!(kept.len(), 2);
    assert_eq!(kept[0].logical_id, Some(1));
    assert_eq!(kept[0].pcs_type.as_deref(), Some("TypeA"));
    assert_eq!(kept[0].device_id.as_deref(), Some("dev"));
    assert_eq!(kept[0].goose_src_addr.as_deref(), Some("01:0C:CD:01:00:01"));
    assert_eq!(kept[0].goose_dst_addr, None);
    assert_eq!(kept[1].logical_id, Some(5));
    assert_eq!(kept[1].goose_appid, Some(0x20));
    let mut zero_feed = np(Some(6), Some(0x30), None, Some("T"));
    zero_feed.feed_line_id = Some(0);
    assert!(validate_nameplates(&vec![zero_feed]).is_empty());
}

#[test]
fn pms_configs_group_and_sort() {
    let rows = vec![
        np(Some(7), None, Some(0x200), Some("T")),
        np(Some(3), None, Some(0x100), Some("T")),
        np(Some(5), None, Some(0x200), Some("T")),
        np(None, None, Some(0x300), Some("T")),
        np(Some(9), None, None, Some("T")),
        np(Some(1), None, Some(0x200), Some("T")),
    ];
    let c = PmsConfig::load_pms_configs(&rows);
    assert_eq!(c.pms_command_appid_list, vec![0x100, 0x200]);
    assert_eq!(c.pms_command_pcs_mapping[&0x200], vec![1, 5, 7]);
    assert_eq!(c.pms_command_pcs_mapping[&0x100], vec![3]);
    assert!(!c.pms_command_pcs_mapping.contains_key(&0x300));
}

#[test]
fn pms_command_extraction() {
    let data = vec![
        IECData::Boolean(true),
        IECData::Boolean(false),
        IECData::Int8(1),
        IECData::Boolean(true),
        IECData::Float32(50.0f32.to_bits()),
        IECData::Float32(7.0f32.to_bits()),
        IECData::Float32(8.0f32.to_bits()),
        IECData::Boolean(true),
    ];
    let c0 = extract_command(&data, 2, 0);
    assert_eq!(c0.active_enable, Some(true));
    assert_eq!(c0.reactive_enable, Some(false));
    assert_eq!(c0.active_setpoint, Some(50.0f32.to_bits()));
    let c1 = extract_command(&data, 2, 1);
    assert_eq!(c1.active_enable, None);
    assert_eq!(c1.reactive_setpoint, None);
    let mut r = pcs_simulator::pcs::record::PcsRecord {
        logical_id: 1,
        pdu: pcs_simulator::goose::types::IECGoosePdu {
            gocbRef: String::new(),
            timeAllowedtoLive: 0,
            datSet: String::new(),
            goID: String::new(),
            t: [0; 8],
            stNum: 0,
            sqNum: 0,
            simulation: false,
            confRev: 0,
            ndsCom: false,
            numDatSetEntries: 0,
            allData: Vec::new(),
        },
        last_update_ms: None,
        invalidity_deadline_ms: None,
        state_valid: false,
        reported_valid: false,
        active_power_feedback: 1,
        reactive_power_feedback: 1,
        active_power_enable: false,
        reactive_power_enable: false,
        feed_line_id: 0,
    };
    apply_pms_command(&mut r, &c0);
    assert_eq!(f32::from_bits(r.active_power_feedback), 50.0);
    assert_eq!(r.reactive_power_feedback, 0);
    apply_pms_command(&mut r, &c1);
    assert_eq!(f32::from_bits(r.active_power_feedback), 999999.0);
    assert!(!r.active_power_enable && r.reactive_power_enable);
}

#[test]
fn test_buffer_pool_basic() {
    let pool = BufferPool::new(10);
    assert_eq!(pool.len(), 10);
    assert_eq!(pool.capacity(), 10);

    let buffer = pool.acquire().expect("Should get buffer");
    assert_eq!(pool.len(), 9);
    assert!(buffer.len() == 0);

    drop(buffer);
    assert_eq!(pool.len(), 10);
}

#[test]
fn test_buffer_pool_exhaustion() {
    let pool = BufferPool::new(2);

    let _buf1 = pool.acquire().unwrap();
    let _buf2 = pool.acquire().unwrap();
    let buf3 = pool.acquire();

    assert!(buf3.is_none(), "Pool should be exhausted");
}

#[test]
fn test_pooled_buffer_operations() {
    let pool = BufferPool::new(10);
    let mut buffer = pool.acquire().unwrap();

    let data = b"Hello, GOOSE!";
    buffer.copy_from_slice(data);
    assert_eq!(buffer.len(), data.len());
    assert_eq!(buffer.as_slice(), data);

    assert_eq!(buffer.as_slice()[0], b'H');
}

#[test]
fn test_buffer_reuse() {
    let pool = BufferPool::new(1);

    {
        let mut buf = pool.acquire().unwrap();
        buf.copy_from_slice(b"test data");
        assert_eq!(pool.len(), 0);
    }

    let buf = pool.acquire().unwrap();
    assert_eq!(buf.len(), 0);
    assert_eq!(pool.len(), 0);
}

#[test]
fn pooled_buffer_length_and_writes() {
    let pool = BufferPool::new(1);
    let mut buf = pool.acquire().unwrap();
    buf.set_len(4);
    buf.as_mut_slice()[1] = 9;
    assert_eq!(buf.as_slice(), &[0, 9, 0, 0]);
    buf.set_len(2);
    assert_eq!(buf.as_slice(), &[0, 9]);
    assert!(!buf.is_empty());
}

#[test]
fn small_settings() {
    assert_eq!(validity_interval_from(Some("250")), 250);
    assert_eq!(validity_interval_from(Some("abc")), 5000);
    assert_eq!(validity_interval_from(None), 5000);
    prefault_stack(3 * 4096 + 1);
    prefault_stack(0);
}
