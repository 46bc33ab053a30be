use pcs_simulator::goose::types::{IECData, IECGoosePdu};
use pcs_simulator::pcs::index::AppIdIndex;
use pcs_simulator::pcs::nameplate::NameplateConfig;
use pcs_simulator::pcs::publisher::{
    init_goose_frame_for_pcs, update_goose_frame_data, FrameInitError, NameplateField, PcsTypeMapping,
};
use pcs_simulator::pcs::record::PcsRecord;
use pcs_simulator::pcs::store::{apply_pms_frame, PcsStore};
use pcs_simulator::retransmit::{LanSendCounters, SendOutcome};

fn nameplate() -> NameplateConfig {
    NameplateConfig {
        row_number: Some(1),
        device_id: Some("PCS-1".to_string()),
        goose_appid: Some(0x0008),
        goose_src_addr: Some("02:00:00:00:00:01".to_string()),
        goose_dst_addr: Some("01-0C-CD-01-00-08".to_string()),
        goose_tpid: Some("0x8100".to_string()),
        goose_tci: Some("8002".to_string()),
        goose_gocb_ref: Some("PCS1/LLN0$GO$Gcb1".to_string()),
        goose_data_set: Some("PCS1/LLN0$ds1".to_string()),
        goose_go_id: Some("PCS1".to_string()),
        goose_simulation: Some("TRUE".to_string()),
        goose_conf_rev: Some("7".to_string()),
        goose_nds_com: None,
        feed_line_id: Some(2),
        feed_line_alias: None,
        logical_id: Some(11),
        pcs_type: Some("TypeA".to_string()),
        pms_appid: None,
    }
}

fn mapping() -> PcsTypeMapping {
    PcsTypeMapping {
        pcstype: "TypeA".to_string(),
        fields: vec![
            ("pcs_realtime_active_power".to_string(), "float".to_string()),
            ("pcs_realtime_reactive_power".to_string(), "float".to_string()),
            ("pcs_status".to_string(), "int".to_string()),
            ("breaker_closed".to_string(), "boolean".to_string()),
            ("pcs_soc".to_string(), "float".to_string()),
        ],
    }
}

#[test]
fn frame_from_nameplate() {
    let (h, p) = init_goose_frame_for_pcs(&nameplate(), &mapping()).unwrap();
    assert_eq!(h.srcAddr, [2, 0, 0, 0, 0, 1]);
    assert_eq!(h.dstAddr, [1, 0x0C, 0xCD, 1, 0, 8]);
    assert_eq!(h.TPID, [0x81, 0x00]);
    assert_eq!(h.TCI, [0x80, 0x02]);
    assert_eq!(h.APPID, [0x00, 0x08]);
    assert_eq!(p.gocbRef, "PCS1/LLN0$GO$Gcb1");
    assert!(p.simulation);
    assert!(!p.ndsCom);
    assert_eq!(p.confRev, 7);
    assert_eq!((p.stNum, p.sqNum, p.timeAllowedtoLive), (0, 0, 5000));
    assert_eq!(p.allData.len(), 5);
    assert_eq!(p.numDatSetEntries, 5);
    assert!(matches!(p.allData[2], IECData::Int32(0)));
    assert!(matches!(p.allData[3], IECData::Boolean(false)));
}

#[test]
fn frame_from_nameplate_errors() {
    let mut n = nameplate();
    n.goose_src_addr = None;
    assert_eq!(init_goose_frame_for_pcs(&n, &mapping()).unwrap_err(), FrameInitError::Missing(NameplateField::SrcAddr));
    let mut n = nameplate();
    n.goose_tci = Some("xyz".to_string());
    assert_eq!(init_goose_frame_for_pcs(&n, &mapping()).unwrap_err(), FrameInitError::Invalid(NameplateField::Tci));
    let mut m = mapping();
    m.fields.insert(2, ("comment".to_string(), "text".to_string()));
    assert_eq!(init_goose_frame_for_pcs(&nameplate(), &m).unwrap_err(), FrameInitError::UnknownDataType(2));
    let mut n = nameplate();
    n.goose_src_addr = None;
    assert_eq!(init_goose_frame_for_pcs(&n, &m).unwrap_err(), FrameInitError::Missing(NameplateField::SrcAddr));
    let mut n = nameplate();
    n.goose_conf_rev = Some("x".to_string());
    assert_eq!(init_goose_frame_for_pcs(&n, &mapping()).unwrap().1.confRev, 1);
}

#[test]
fn frame_data_follows_feedback() {
    let mut frame = init_goose_frame_for_pcs(&nameplate(), &mapping()).unwrap();
    let record = PcsRecord {
        logical_id: 11,
        pdu: IECGoosePdu {
            gocbRef: String::new(),
            timeAllowedtoLive: 0,
            datSet: String::new(),
            goID: String::new(),
            t: [0; 8],
            stNum: 0,
            sqNum: 0,
            simulation: false,
            confRev: 0,
            ndsCom: false,
            numDatSetEntries: 0,
            allData: Vec::new(),
        },
        last_update_ms: None,
        invalidity_deadline_ms: None,
        state_valid: true,
        reported_valid: true,
        active_power_feedback: 12.5f32.to_bits(),
        reactive_power_feedback: (-3.0f32).to_bits(),
        active_power_enable: true,
        reactive_power_enable: true,
        feed_line_id: 2,
    };
    update_goose_frame_data(&mut frame, &record, &mapping());
    let d = &frame.1.allData;
    assert!(matches!(d[0], IECData::Float32(x) if f32::from_bits(x) == 12.5));
    assert!(matches!(d[1], IECData::Float32(x) if f32::from_bits(x) == -3.0));
    assert!(matches!(d[2], IECData::Int32(2)));
    assert!(matches!(d[3], IECData::Boolean(false)));
    assert!(matches!(d[4], IECData::Float32(x) if f32::from_bits(x) == 50.0));
}

#[test]
fn appid_index_resolves_per_lan() {
    let mut second = nameplate();
    second.goose_appid = Some(0x0009);
    second.logical_id = Some(12);
    let idx = AppIdIndex::build(&vec![nameplate(), second]);
    assert_eq!(idx.resolve(1, 0x0008), Some(11));
    assert_eq!(idx.resolve(2, 0x0009), Some(12));
    assert_eq!(idx.resolve(1, 0x0100), None);
    assert_eq!(idx.resolve(3, 0x0008), None);
}

#[test]
fn dual_lan_redundancy() {
    let mut c = LanSendCounters::new();
    for _ in 0..5 {
        assert_eq!(c.record(true, false), SendOutcome::Lan1Only);
    }
    assert_eq!(c.lan1_sent, 5);
    assert_eq!(c.lan2_sent, 0);
    assert_eq!(c.record(false, false), SendOutcome::Neither);
    assert_eq!(c.lost, 1);
}

#[test]
fn store_routes_frames_and_sweeps() {
    let idx = AppIdIndex::build(&vec![nameplate()]);
    let store = PcsStore::new(1);
    let (h, mut p) = init_goose_frame_for_pcs(&nameplate(), &mapping()).unwrap();
    store.insert(PcsRecord {
        logical_id: 11,
        pdu: IECGoosePdu {
            gocbRef: String::new(),
            timeAllowedtoLive: 0,
            datSet: String::new(),
            goID: String::new(),
            t: [0; 8],
            stNum: 0,
            sqNum: 0,
            simulation: false,
            confRev: 0,
            ndsCom: false,
            numDatSetEntries: 0,
            allData: Vec::new(),
        },
        last_update_ms: None,
        invalidity_deadline_ms: None,
        state_valid: false,
        reported_valid: false,
        active_power_feedback: 0,
        reactive_power_feedback: 0,
        active_power_enable: false,
        reactive_power_enable: false,
        feed_line_id: 2,
    });
    p.stNum = 1;
    p.timeAllowedtoLive = 100;
    assert!(store.update_from_goose(&idx, &h, &p, 1_000, 5_000));
    assert!(!store.update_from_goose(&idx, &h, &p, 1_001, 5_000));
    let (invalid, valid) = store.check_validity(2_000);
    assert!(invalid.is_empty());
    assert_eq!(valid, vec![11]);
    let (invalid, _) = store.check_validity(6_200);
    assert_eq!(invalid, vec![11]);
    let mut other = h;
    other.APPID = [0x01, 0x00];
    assert!(!store.update_from_goose(&idx, &other, &p, 7_000, 5_000));
    assert!(store.apply_setpoint(11, true, true, 1, 2));
    assert!(!store.apply_setpoint(12, true, true, 1, 2));
    assert_eq!(store.logical_ids(), vec![11]);
    let info = store.info(11, None).unwrap();
    assert_eq!(info.logical_id, 11);
    assert_eq!(info.feed_line_id, 2);
}

fn blank_record(id: u16) -> PcsRecord {
    PcsRecord {
        logical_id: id,
        pdu: IECGoosePdu {
            gocbRef: String::new(),
            timeAllowedtoLive: 0,
            datSet: String::new(),
            goID: String::new(),
            t: [0; 8],
            stNum: 0,
            sqNum: 0,
            simulation: false,
            confRev: 0,
            ndsCom: false,
            numDatSetEntries: 0,
            allData: Vec::new(),
        },
        last_update_ms: None,
        invalidity_deadline_ms: None,
        state_valid: false,
        reported_valid: false,
        active_power_feedback: 0,
        reactive_power_feedback: 0,
        active_power_enable: false,
        reactive_power_enable: false,
        feed_line_id: 0,
    }
}

#[test]
fn pms_frame_applies_commands_to_both_lans() {
    let lan1 = PcsStore::new(1);
    let lan2 = PcsStore::new(2);
    for id in [3u16, 5] {
        lan1.insert(blank_record(id));
        lan2.insert(blank_record(id));
    }
    let mut sub = blank_record(0);
    let mut pdu = blank_record(0).pdu;
    pdu.stNum = 1;
    pdu.allData = vec![
        IECData::Boolean(true),
        IECData::Boolean(false),
        IECData::Boolean(false),
        IECData::Boolean(true),
        IECData::Float32(10.0f32.to_bits()),
        IECData::Float32(1.0f32.to_bits()),
        IECData::Float32(2.0f32.to_bits()),
        IECData::Float32(20.0f32.to_bits()),
    ];
    pdu.numDatSetEntries = 8;
    assert!(apply_pms_frame(&mut sub, &vec![3, 5], &pdu, 100, 0, &lan1, &lan2));
    for store in [&lan1, &lan2] {
        let a = store.info(3, None).unwrap();
        assert_eq!(a.logical_id, 3);
    }
    assert!(!apply_pms_frame(&mut sub, &vec![3, 5], &pdu, 200, 0, &lan1, &lan2));
    assert_eq!(sub.last_update_ms, Some(100));
    let mut ids = lan1.logical_ids();
    ids.sort();
    assert_eq!(ids, vec![3, 5]);
    let infos = lan2.infos(&std::collections::HashMap::new(), &Vec::new());
    assert_eq!(infos.len(), 2);
    assert_ne!(infos[0].logical_id, infos[1].logical_id);
}
