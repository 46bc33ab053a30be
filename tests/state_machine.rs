use pcs_simulator::goose::types::{EthernetHeader, IECData, IECGoosePdu};
use pcs_simulator::pcs::record::{classify, AcceptKind, GooseUpdate, PcsRecord, ValidityChange};

fn pdu(st: u32, sq: u32, conf: u32, ttl: u32) -> IECGoosePdu {
    IECGoosePdu {
        gocbRef: "PCS/LLN0$GO$Gcb1".to_string(),
        timeAllowedtoLive: ttl,
        datSet: "PCS/LLN0$ds".to_string(),
        goID: "PCS1".to_string(),
        t: [0; 8],
        stNum: st,
        sqNum: sq,
        simulation: false,
        confRev: conf,
        ndsCom: false,
        numDatSetEntries: 1,
        allData: vec![IECData::Float32(3.5f32.to_bits())],
    }
}

fn record(st: u32, sq: u32) -> PcsRecord {
    let _ = EthernetHeader::new();
    PcsRecord {
        logical_id: 7,
        pdu: pdu(st, sq, 1, 100),
        last_update_ms: Some(1_000),
        invalidity_deadline_ms: Some(6_200),
        state_valid: true,
        reported_valid: true,
        active_power_feedback: 0,
        reactive_power_feedback: 0,
        active_power_enable: false,
        reactive_power_enable: false,
        feed_line_id: 3,
    }
}

#[test]
fn stale_frame_rejection() {
    let mut r = record(5, 10);
    let out = r.apply_goose(&pdu(5, 9, 1, 100), 2_000, 5_000);
    assert_eq!(out, GooseUpdate::SequenceError);
    assert_eq!((r.pdu.stNum, r.pdu.sqNum), (5, 10));
    assert_eq!(r.last_update_ms, Some(1_000));
    assert!(!r.state_valid);
}

#[test]
fn restart_detection() {
    let mut r = record(200, 4);
    let out = r.apply_goose(&pdu(1, 0, 1, 100), 2_000, 5_000);
    assert!(matches!(out, GooseUpdate::Accepted { kind: AcceptKind::Restart, .. }));
    assert_eq!((r.pdu.stNum, r.pdu.sqNum), (1, 0));
    assert_eq!(r.last_update_ms, Some(2_000));
    assert!(r.state_valid);
}

#[test]
fn accepted_sequence_increases() {
    let mut r = record(5, 10);
    assert!(r.apply_goose(&pdu(5, 11, 1, 100), 10, 0).accepted());
    assert!(r.apply_goose(&pdu(6, 0, 1, 100), 20, 0).accepted());
    assert_eq!(r.apply_goose(&pdu(6, 0, 1, 100), 30, 0), GooseUpdate::Retransmission);
    assert_eq!(r.apply_goose(&pdu(4, 50, 1, 100), 40, 0), GooseUpdate::Stale);
    assert_eq!((r.pdu.stNum, r.pdu.sqNum), (6, 0));
    assert_eq!(r.last_update_ms, Some(20));
}

#[test]
fn reconfiguration_and_gap_flags() {
    assert_eq!(
        classify(5, 0, 1, 3, 0, 2),
        GooseUpdate::Accepted { kind: AcceptKind::Reconfiguration, missed_states: false, st_decreased: true }
    );
    assert_eq!(
        classify(5, 0, 1, 8, 0, 1),
        GooseUpdate::Accepted { kind: AcceptKind::StateChange, missed_states: true, st_decreased: false }
    );
    assert_eq!(classify(150, 0, 1, 60, 0, 1), GooseUpdate::Stale);
}

#[test]
fn accept_sets_deadline_and_copies_data() {
    let mut r = record(1, 0);
    r.state_valid = false;
    let incoming = pdu(2, 0, 1, 100);
    r.apply_goose(&incoming, 10_000, 5_000);
    assert_eq!(r.invalidity_deadline_ms, Some(10_000 + 200 + 5_000));
    assert!(r.state_valid);
    assert!(matches!(r.pdu.allData[0], IECData::Float32(x) if x == 3.5f32.to_bits()));
}

#[test]
fn ttl_expiry() {
    let mut r = record(1, 0);
    let t0 = 50_000u64;
    r.apply_goose(&pdu(2, 0, 1, 100), t0, 5_000);
    assert_eq!(r.check_validity(t0 + 5_199), ValidityChange::Unchanged);
    assert!(r.state_valid);
    assert_eq!(r.check_validity(t0 + 5_200), ValidityChange::BecameInvalid);
    assert!(!r.state_valid);
    assert_eq!(r.check_validity(t0 + 6_000), ValidityChange::Unchanged);
    r.apply_goose(&pdu(3, 0, 1, 100), t0 + 7_000, 5_000);
    assert_eq!(r.check_validity(t0 + 7_001), ValidityChange::BecameValid);
}

#[test]
fn record_without_deadline_goes_stale_after_ten_seconds() {
    let mut r = record(1, 0);
    r.invalidity_deadline_ms = None;
    assert_eq!(r.check_validity(11_000), ValidityChange::Unchanged);
    assert_eq!(r.check_validity(11_001), ValidityChange::BecameInvalid);
}

#[test]
fn setpoint_feedback_follows_enable() {
    let mut r = record(1, 0);
    r.apply_setpoint(true, false, 10.0f32.to_bits(), 4.0f32.to_bits());
    assert_eq!(r.active_power_feedback, 10.0f32.to_bits());
    assert_eq!(r.reactive_power_feedback, 0);
    assert!(r.active_power_enable && !r.reactive_power_enable);
}
