use pcs_simulator::goose::codec::decode_goose_frame;
use pcs_simulator::goose::types::{EthernetHeader, IECData, IECGoosePdu};
use pcs_simulator::retransmit::{emit_due_frames, sleep_target_ms, PublisherFrame, T_MAX_MS, T_MIN_MS};

fn frame() -> PublisherFrame {
    let mut h = EthernetHeader::new();
    h.srcAddr = [2, 0, 0, 0, 0, 1];
    h.dstAddr = [1, 0x0C, 0xCD, 1, 0, 8];
    h.TPID = [0x81, 0x00];
    h.TCI = [0x80, 0x02];
    h.APPID = [0x00, 0x08];
    let pdu = IECGoosePdu {
        gocbRef: "PCS1/LLN0$GO$Gcb1".to_string(),
        timeAllowedtoLive: 5000,
        datSet: "PCS1/LLN0$ds".to_string(),
        goID: "PCS1".to_string(),
        t: [0; 8],
        stNum: 0,
        sqNum: 0,
        simulation: false,
        confRev: 1,
        ndsCom: false,
        numDatSetEntries: 4,
        allData: vec![IECData::Boolean(false), IECData::Boolean(false), IECData::Float32(0), IECData::Float32(0)],
    };
    PublisherFrame::new(1, h, pdu, 0)
}

/// Runs the scheduler every millisecond from `from` to `to`; returns
/// (time, stNum, sqNum) of each emission.
fn run(frames: &mut Vec<PublisherFrame>, from: u64, to: u64, reset_at: &[u64]) -> Vec<(u64, u32, u32)> {
    let mut seen = Vec::new();
    for now in from..=to {
        let signalled = reset_at.contains(&now);
        for (_, bytes) in emit_due_frames(frames, signalled, now, [0; 8], 0) {
            let (_, p) = decode_goose_frame(&bytes, 0).unwrap();
            seen.push((now, p.stNum, p.sqNum));
        }
    }
    seen
}

#[test]
fn single_publisher_without_data_change() {
    let mut frames = vec![frame()];
    let seen = run(&mut frames, 0, 62, &[0]);
    let times: Vec<u64> = seen.iter().map(|e| e.0).collect();
    assert_eq!(times, vec![0, 2, 6, 14, 30, 62]);
    let sq: Vec<u32> = seen.iter().map(|e| e.2).collect();
    assert_eq!(sq, vec![0, 1, 2, 3, 4, 5]);
    assert!(seen.iter().all(|e| e.1 == 1));
}

#[test]
fn reset_mid_burst() {
    let mut frames = vec![frame()];
    let seen = run(&mut frames, 0, 14, &[0]);
    assert_eq!(seen.last().unwrap(), &(14, 1, 3));
    let after = run(&mut frames, 15, 40, &[15]);
    assert_eq!(after[0], (15, 2, 0));
    assert_eq!(after[1], (17, 2, 1));
    assert_eq!(after[2], (21, 2, 2));
}

#[test]
fn backoff_caps_at_five_seconds() {
    let mut frames = vec![frame()];
    emit_due_frames(&mut frames, true, 0, [0; 8], 0);
    let mut intervals = Vec::new();
    let mut now = 0u64;
    for _ in 0..14 {
        let wait = sleep_target_ms(&frames, now);
        intervals.push(wait);
        now += wait;
        assert_eq!(emit_due_frames(&mut frames, false, now, [0; 8], 0).len(), 1);
    }
    assert_eq!(intervals, vec![2, 4, 8, 16, 32, 64, 128, 256, 512, 1024, 2048, 4096, 5000, 5000]);
    assert_eq!(frames[0].schedule.interval_ms, T_MAX_MS);
}

#[test]
fn time_to_live_tracks_next_interval_with_floor() {
    let mut frames = vec![frame()];
    emit_due_frames(&mut frames, true, 0, [9; 8], 3000);
    assert_eq!(frames[0].pdu.timeAllowedtoLive, 3000);
    assert_eq!(frames[0].schedule.interval_ms, T_MIN_MS);
    assert_eq!(frames[0].pdu.t, [9; 8]);
    for _ in 0..12 {
        let now = frames[0].schedule.last_send_ms + frames[0].schedule.interval_ms;
        emit_due_frames(&mut frames, false, now, [0; 8], 3000);
    }
    assert_eq!(frames[0].pdu.timeAllowedtoLive, 5000);
}

#[test]
fn nothing_due_means_nothing_sent() {
    let mut frames = vec![frame()];
    emit_due_frames(&mut frames, true, 100, [0; 8], 0);
    assert!(emit_due_frames(&mut frames, false, 101, [0; 8], 0).is_empty());
    assert_eq!(sleep_target_ms(&frames, 101), 1);
    assert_eq!(sleep_target_ms(&Vec::new(), 0), T_MAX_MS);
}
