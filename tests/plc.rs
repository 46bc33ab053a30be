use pcs_simulator::goose::types::{EthernetHeader, IECData, IECGoosePdu};
use pcs_simulator::pcs::record::PcsRecord;
use pcs_simulator::plc::com::{get_lifecounter, reset_lifecounter, Lifecounter};
use pcs_simulator::plc::command::{deserialize_stplccmdall, CommandError, StPlcCmdAll, StPlcCmdPub};
use pcs_simulator::plc::image::{get_stpcsimage, serialize_stpcsimage, StPCSinfo, INVALID_VALUE};
use pcs_simulator::plc::types::{
    count_pcs_by_type, get_total_pcs_quantity, validate_alldata_configs, PositionIssue, StPCSDataBytePosInAllDataCfg,
};
use std::collections::HashMap;

fn datagram(cmds: &[(u16, u8, f32, f32)]) -> Vec<u8> {
    let mut d = vec![20u8];
    d.extend_from_slice(&123_456_789u64.to_le_bytes());
    d.extend_from_slice(&(cmds.len() as u16).to_le_bytes());
    d.extend_from_slice(&[7u8; 16]);
    for &(id, proto, p, q) in cmds {
        d.extend_from_slice(&id.to_le_bytes());
        d.push(proto);
        d.extend_from_slice(&p.to_le_bytes());
        d.extend_from_slice(&q.to_le_bytes());
        d.extend_from_slice(&[0u8; 16]);
    }
    d
}

#[test]
fn decodes_command_datagram() {
    let d = datagram(&[(1, 10, 100.0, -5.5), (2, 30, 1.0, 2.0)]);
    let c = deserialize_stplccmdall(&d).unwrap();
    assert_eq!(c.protocol, 20);
    assert_eq!(c.nanotimer, 123_456_789);
    assert_eq!(c.number_of_pcs, 2);
    assert_eq!(c.spare, [7u8; 16]);
    assert_eq!(c.pcs_cmds.len(), 2);
    assert_eq!(c.pcs_cmds[0].pcs_logical_id, 1);
    assert_eq!(c.pcs_cmds[0].protocol, 10);
    assert_eq!(f32::from_bits(c.pcs_cmds[0].pcs_active_power), 100.0);
    assert_eq!(f32::from_bits(c.pcs_cmds[0].pcs_reactive_power), -5.5);
    assert_eq!(c.pcs_cmds[1].protocol, 30);
}

#[test]
fn rejects_bad_command_datagrams() {
    assert_eq!(deserialize_stplccmdall(&[20u8; 10]).unwrap_err(), CommandError::TooShort { len: 10 });
    let mut d = datagram(&[(1, 10, 1.0, 1.0)]);
    d[0] = 21;
    assert_eq!(deserialize_stplccmdall(&d).unwrap_err(), CommandError::BadProtocol { protocol: 21 });
    let mut d = datagram(&[(1, 10, 1.0, 1.0)]);
    d.truncate(40);
    assert_eq!(deserialize_stplccmdall(&d).unwrap_err(), CommandError::Truncated { len: 40, expected: 54 });
}

fn command_frame(n: u32) -> (EthernetHeader, IECGoosePdu) {
    let pdu = IECGoosePdu {
        gocbRef: "G".to_string(),
        timeAllowedtoLive: 5000,
        datSet: "D".to_string(),
        goID: "I".to_string(),
        t: [0; 8],
        stNum: 4,
        sqNum: 9,
        simulation: false,
        confRev: 1,
        ndsCom: false,
        numDatSetEntries: 4 * n,
        allData: Vec::new(),
    };
    (EthernetHeader::new(), pdu)
}

fn cmd(id: u16, protocol: u8, p: f32, q: f32) -> StPlcCmdPub {
    StPlcCmdPub { pcs_logical_id: id, protocol, pcs_active_power: p.to_bits(), pcs_reactive_power: q.to_bits(), spare: [0; 16] }
}

#[test]
fn commands_fill_frames_in_order() {
    let all = StPlcCmdAll {
        protocol: 20,
        nanotimer: 0,
        number_of_pcs: 3,
        spare: [0; 16],
        pcs_cmds: vec![cmd(1, 10, 1.0, 2.0), cmd(2, 20, 3.0, 4.0), cmd(3, 99, 5.0, 6.0)],
    };
    let mut frames = vec![command_frame(2), command_frame(1), command_frame(1)];
    all.assign_to_goose_frame(&mut frames, [1; 8]);
    let d = &frames[0].1.allData;
    assert_eq!(d.len(), 8);
    assert!(matches!(d[0], IECData::Boolean(true)) && matches!(d[1], IECData::Boolean(false)));
    assert!(matches!(d[2], IECData::Boolean(false)) && matches!(d[3], IECData::Boolean(true)));
    assert!(matches!(d[4], IECData::Float32(x) if x == 1.0f32.to_bits()));
    assert!(matches!(d[7], IECData::Float32(x) if x == 4.0f32.to_bits()));
    assert_eq!(frames[0].1.sqNum, 0);
    assert_eq!(frames[0].1.stNum, 4);
    assert_eq!(frames[0].1.t, [1; 8]);
    let d = &frames[1].1.allData;
    assert!(matches!(d[0], IECData::Boolean(false)) && matches!(d[1], IECData::Boolean(false)));
    assert!(frames[2].1.allData.is_empty());
    assert_eq!(frames[2].1.sqNum, 0);
}

fn cfg(t: &str, q: usize) -> StPCSDataBytePosInAllDataCfg {
    let mut codes = HashMap::new();
    codes.insert("running".to_string(), 2u8);
    StPCSDataBytePosInAllDataCfg {
        pcstype: t.to_string(),
        quantityofthistype: q,
        pcs_realtime_active_power_pos: 0,
        pcs_realtime_reactive_power_pos: 1,
        pcs_maximum_charging_power_pos: 2,
        pcs_maximum_discharging_power_pos: 3,
        pcs_maximum_inductive_power_pos: 4,
        pcs_maximum_capacitive_power_pos: 9,
        pcs_soc_pos: 5,
        pcs_status_pos: 6,
        pcs_controllable_status_value: codes,
    }
}

fn subscriber(data: Vec<IECData>, valid: bool) -> PcsRecord {
    PcsRecord {
        logical_id: 4,
        pdu: IECGoosePdu {
            gocbRef: String::new(),
            timeAllowedtoLive: 0,
            datSet: String::new(),
            goID: String::new(),
            t: [0; 8],
            stNum: 0,
            sqNum: 0,
            simulation: false,
            confRev: 0,
            ndsCom: false,
            numDatSetEntries: data.len() as u32,
            allData: data,
        },
        last_update_ms: None,
        invalidity_deadline_ms: None,
        state_valid: valid,
        reported_valid: valid,
        active_power_feedback: 0,
        reactive_power_feedback: 0,
        active_power_enable: false,
        reactive_power_enable: false,
        feed_line_id: 258,
    }
}

#[test]
fn info_reads_positions_and_marks_invalid_fields() {
    let data = vec![
        IECData::Float32(10.0f32.to_bits()),
        IECData::Int32(3),
        IECData::Float32(1.0f32.to_bits()),
        IECData::Float32(2.0f32.to_bits()),
        IECData::Float32(3.0f32.to_bits()),
        IECData::Float32(55.5f32.to_bits()),
        IECData::Float32(1.6f32.to_bits()),
    ];
    let r = subscriber(data, true);
    let entry = (cfg("A", 1), vec![2u8]);
    let mut info = StPCSinfo::new();
    assert!(info.get_info(4, Some(&entry), &r).is_ok());
    assert_eq!(info.logical_id, 4);
    assert_eq!(info.is_valid, 1);
    assert_eq!(info.feed_line_id, 2);
    assert_eq!(f32::from_bits(info.pcs_realtime_active_power), 10.0);
    assert_eq!(info.pcs_realtime_reactive_power, INVALID_VALUE);
    assert_eq!(f32::from_bits(INVALID_VALUE), 999999.0);
    assert_eq!(info.pcs_maximum_capacitive_power, INVALID_VALUE);
    assert_eq!(f32::from_bits(info.pcs_soc), 55.5);
    assert_eq!(info.is_controllable, 1);

    let mut info = StPCSinfo::new();
    assert!(info.get_info(4, None, &r).is_err());
    assert_eq!(info.is_controllable, 0);
}

#[test]
fn status_rounding_follows_float_round() {
    for (v, expect) in [(2.4f32, 0u8), (2.5, 1), (1.5, 1), (-3.0, 0), (f32::NAN, 0)] {
        let r = subscriber((0..7).map(|_| IECData::Float32(v.to_bits())).collect(), false);
        let entry = (cfg("A", 1), vec![3u8]);
        let mut info = StPCSinfo::new();
        info.get_info(1, Some(&entry), &r).unwrap();
        let rounded = v.round() as u8;
        assert_eq!(info.is_controllable, if rounded == 3 { 1 } else { 0 }, "{}", v);
        let _ = expect;
    }
    for v in [0.0f32, 0.49, 0.5, 1.49, 2.5, 3.5, 127.5, 254.5, 255.4, 255.5, 300.0, 1e9, f32::INFINITY, -0.4] {
        let code = (v.round() as u8) as u8;
        let r = subscriber((0..7).map(|_| IECData::Float32(v.to_bits())).collect(), false);
        let entry = (cfg("A", 1), vec![code]);
        let mut info = StPCSinfo::new();
        info.get_info(1, Some(&entry), &r).unwrap();
        assert_eq!(info.is_controllable, 1, "{}", v);
    }
}

#[test]
fn image_is_sorted_and_serialised_little_endian() {
    let mut counter = Lifecounter::new();
    reset_lifecounter(&mut counter, 41);
    let mut a = StPCSinfo::new();
    a.logical_id = 9;
    a.pcs_soc = 0x0102_0304;
    let mut b = StPCSinfo::new();
    b.logical_id = 3;
    let img = get_stpcsimage(vec![a, b], vec![b], 3, &mut counter);
    assert_eq!(img.lifecounter, 41);
    assert_eq!(get_lifecounter(&counter), 42);
    assert_eq!(img.pcs_data_networka[0].logical_id, 3);
    assert_eq!(img.pcs_data_networka[1].logical_id, 9);
    let bytes = serialize_stpcsimage(&img);
    assert_eq!(bytes.len(), 27 + 3 * 49);
    assert_eq!(bytes[0], 10);
    assert_eq!(&bytes[1..3], &[3, 0]);
    assert_eq!(&bytes[3..11], &41u64.to_le_bytes());
    assert_eq!(&bytes[27..29], &[3, 0]);
    assert_eq!(&bytes[76..78], &[9, 0]);
    assert_eq!(&bytes[76 + 29..76 + 33], &[4, 3, 2, 1]);
}

#[test]
fn totals_and_counts_by_type() {
    let cfgs = vec![cfg("A", 3), cfg("B", 4), cfg("A", 5)];
    assert_eq!(get_total_pcs_quantity(&cfgs), 12);
    let counts = count_pcs_by_type(&cfgs);
    assert_eq!(counts.len(), 2);
    assert_eq!(counts["A"], 5);
    assert_eq!(counts["B"], 4);
    assert_eq!(get_total_pcs_quantity(&[]), 0);
}

#[test]
fn position_entries_are_validated() {
    let good = vec![cfg("A", 1), cfg("B", 2)];
    assert!(validate_alldata_configs(&good).is_ok());
    let bad = vec![cfg("A", 1), cfg("  ", 2), cfg("C", 0)];
    assert_eq!(validate_alldata_configs(&bad), Err((1, PositionIssue::EmptyType)));
    let bad = vec![cfg("A", 0)];
    assert_eq!(validate_alldata_configs(&bad), Err((0, PositionIssue::ZeroQuantity)));
}
