use pcs_simulator::goose::codec::{decode_goose_frame, encode_goose_frame, is_goose_frame, CodecError};
use pcs_simulator::retransmit::utc_time_from_ms;
use pcs_simulator::goose::types::{EthernetHeader, IECData, IECGoosePdu};

fn header(tagged: bool) -> EthernetHeader {
    let mut h = EthernetHeader::new();
    h.srcAddr = [0xe8, 0xd8, 0xd1, 0xeb, 0xcb, 0xb6];
    h.dstAddr = [0x01, 0x0C, 0xCD, 0x01, 0x00, 0x08];
    if tagged {
        h.TPID = [0x81, 0x00];
        h.TCI = [0x80, 0x02];
    }
    h.APPID = [0x00, 0x08];
    h
}

fn sample_data() -> Vec<IECData> {
    vec![
        IECData::Boolean(true),
        IECData::Int8(-5),
        IECData::Int16(-129),
        IECData::Int32(100_000),
        IECData::Int64(-5_000_000_000),
        IECData::Int8u(200),
        IECData::Int16u(65535),
        IECData::Int32u(4_000_000_000),
        IECData::Float32(2.5f32.to_bits()),
        IECData::Float64((-1.25f64).to_bits()),
        IECData::VisibleString("XD11LDevice1".to_string()),
        IECData::MmsString("Grüße".to_string()),
        IECData::BitString { padding: 3, val: vec![0xA0, 0x01] },
        IECData::OctetString(vec![1, 2, 3]),
        IECData::UtcTime([1, 2, 3, 4, 5, 6, 7, 8]),
        IECData::Array(vec![IECData::Boolean(false), IECData::Structure(vec![IECData::Int8u(1)])]),
    ]
}

fn sample_pdu() -> IECGoosePdu {
    let data = sample_data();
    IECGoosePdu {
        gocbRef: "XD11LDevice1/LLN0$GO$Go_Gcb2".to_string(),
        timeAllowedtoLive: 6400,
        datSet: "XD11LDevice1/LLN0$dsGOOSE2".to_string(),
        goID: "XD11LDevice1/LLN0.Go_Gcb2".to_string(),
        t: [0x65, 0x00, 0x00, 0x01, 0x80, 0x00, 0x00, 0x0A],
        stNum: 12,
        sqNum: 23,
        simulation: false,
        confRev: 5,
        ndsCom: true,
        numDatSetEntries: data.len() as u32,
        allData: data,
    }
}

fn same_data(a: &IECData, b: &IECData) -> bool {
    format!("{:?}", a) == format!("{:?}", b)
}

fn assert_same_pdu(a: &IECGoosePdu, b: &IECGoosePdu) {
    assert_eq!(a.gocbRef, b.gocbRef);
    assert_eq!(a.timeAllowedtoLive, b.timeAllowedtoLive);
    assert_eq!(a.datSet, b.datSet);
    assert_eq!(a.goID, b.goID);
    assert_eq!(a.t, b.t);
    assert_eq!(a.stNum, b.stNum);
    assert_eq!(a.sqNum, b.sqNum);
    assert_eq!(a.simulation, b.simulation);
    assert_eq!(a.confRev, b.confRev);
    assert_eq!(a.ndsCom, b.ndsCom);
    assert_eq!(a.numDatSetEntries, b.numDatSetEntries);
    assert_eq!(a.allData.len(), b.allData.len());
    for (x, y) in a.allData.iter().zip(b.allData.iter()) {
        assert!(same_data(x, y), "{:?} != {:?}", x, y);
    }
}

#[test]
fn round_trip_tagged_frame() {
    let mut h = header(true);
    let pdu = sample_pdu();
    let mut buf = Vec::new();
    let n = encode_goose_frame(&mut h, &pdu, &mut buf).unwrap();
    assert_eq!(n, buf.len());
    assert_eq!(&buf[12..14], &[0x81, 0x00]);
    assert_eq!(&buf[16..18], &[0x88, 0xB8]);
    let (header2, decoded) = decode_goose_frame(&buf, 0).unwrap();
    assert_eq!(header2.srcAddr, h.srcAddr);
    assert_eq!(header2.dstAddr, h.dstAddr);
    assert_eq!(header2.TCI, [0x80, 0x02]);
    assert_eq!(header2.APPID, [0x00, 0x08]);
    assert_eq!(header2.length, h.length);
    assert_same_pdu(&decoded, &pdu);
}

#[test]
fn round_trip_untagged_frame_with_padding_and_offset() {
    let mut h = header(false);
    let pdu = sample_pdu();
    let mut buf = vec![0xEE, 0xEE, 0xEE];
    encode_goose_frame(&mut h, &pdu, &mut buf).unwrap();
    buf.extend_from_slice(&[0, 0, 0, 0, 0, 0]);
    assert_eq!(&buf[3 + 12..3 + 14], &[0x88, 0xB8]);
    let (header2, decoded) = decode_goose_frame(&buf, 3).unwrap();
    assert_eq!(header2.TPID, [0, 0]);
    assert_eq!(header2.etherType, [0x88, 0xB8]);
    assert_same_pdu(&decoded, &pdu);
}

#[test]
fn length_field_counts_appid_through_apdu() {
    let mut h = header(false);
    let pdu = sample_pdu();
    let mut buf = Vec::new();
    encode_goose_frame(&mut h, &pdu, &mut buf).unwrap();
    let len = u16::from_be_bytes(h.length) as usize;
    assert_eq!(len, buf.len() - 14);
    assert_eq!(&buf[18..22], &[0, 0, 0, 0]);
    assert_eq!(buf[22], 0x61);
}

#[test]
fn value_encodings_are_minimal_ber() {
    let mut h = header(false);
    let mut pdu = sample_pdu();
    pdu.allData = vec![IECData::Int16(-129), IECData::Int8u(200), IECData::Float32(1.0f32.to_bits())];
    pdu.numDatSetEntries = 3;
    let mut buf = Vec::new();
    encode_goose_frame(&mut h, &pdu, &mut buf).unwrap();
    let tail = &buf[buf.len() - 17..];
    assert_eq!(tail, &[0xAB, 0x0F, 0x85, 0x02, 0xFF, 0x7F, 0x86, 0x02, 0x00, 0xC8, 0x87, 0x05, 0x08, 0x3F, 0x80, 0x00, 0x00]);
}

#[test]
fn rejects_wrong_ethertype() {
    let mut h = header(false);
    let mut buf = Vec::new();
    encode_goose_frame(&mut h, &sample_pdu(), &mut buf).unwrap();
    buf[12] = 0x08;
    buf[13] = 0x00;
    assert_eq!(decode_goose_frame(&buf, 0).unwrap_err(), CodecError::Malformed);
}

#[test]
fn rejects_length_beyond_buffer() {
    let mut h = header(true);
    let mut buf = Vec::new();
    encode_goose_frame(&mut h, &sample_pdu(), &mut buf).unwrap();
    buf.truncate(buf.len() - 1);
    assert!(decode_goose_frame(&buf, 0).is_err());
    assert!(decode_goose_frame(&buf[..10], 0).is_err());
}

#[test]
fn rejects_entry_count_mismatch() {
    let mut h = header(false);
    let mut pdu = sample_pdu();
    pdu.numDatSetEntries = 3;
    let mut buf = Vec::new();
    encode_goose_frame(&mut h, &pdu, &mut buf).unwrap();
    assert_eq!(decode_goose_frame(&buf, 0).unwrap_err(), CodecError::Malformed);
}

#[test]
fn rejects_non_minimal_integer() {
    let mut h = header(false);
    let mut pdu = sample_pdu();
    pdu.allData = vec![IECData::Int16(5)];
    pdu.numDatSetEntries = 1;
    let mut buf = Vec::new();
    encode_goose_frame(&mut h, &pdu, &mut buf).unwrap();
    let (_, p) = decode_goose_frame(&buf, 0).unwrap();
    assert!(matches!(p.allData[0], IECData::Int8(5)));
    let n = buf.len();
    assert_eq!(&buf[n - 3..], &[0x85, 0x01, 0x05]);
    buf[n - 1] = 0x00;
    let (_, p) = decode_goose_frame(&buf, 0).unwrap();
    assert!(matches!(p.allData[0], IECData::Int8(0)));
}

#[test]
fn oversized_pdu_is_not_encoded() {
    let mut h = header(false);
    let mut pdu = sample_pdu();
    pdu.allData = vec![IECData::OctetString(vec![0u8; 70_000])];
    pdu.numDatSetEntries = 1;
    let mut buf = Vec::new();
    assert_eq!(encode_goose_frame(&mut h, &pdu, &mut buf).unwrap_err(), CodecError::TooLarge);
}

#[test]
fn receive_filter_accepts_goose_only() {
    let mut p = vec![0u8; 20];
    assert!(!is_goose_frame(&p));
    p[12] = 0x88;
    p[13] = 0xB8;
    assert!(is_goose_frame(&p));
    p[12] = 0x81;
    p[13] = 0x00;
    p[16] = 0x88;
    p[17] = 0xB8;
    assert!(is_goose_frame(&p));
    assert!(!is_goose_frame(&p[..13]));
}

#[test]
fn accessors_name_their_variant() {
    let v = IECData::Float32(1.5f32.to_bits());
    assert_eq!(v.as_f32(), Some(1.5f32.to_bits()));
    assert_eq!(v.as_i32(), None);
    assert!(v.is_float() && !v.is_integer());
    assert_eq!(v.variant_name(), "float32");
    let s = IECData::BitString { padding: 2, val: vec![1] };
    assert_eq!(s.as_bit_string(), Some((2, &vec![1u8])));
    assert!(IECData::Int16u(3).is_integer());
    assert_eq!(IECData::Array(vec![]).as_array().map(|v| v.len()), Some(0));
    assert_eq!(IECData::UtcTime([3; 8]).as_utc_time(), Some(&[3u8; 8]));
    assert!(IECData::MmsString("x".to_string()).is_string());
}

#[test]
fn utc_time_stamp_layout() {
    let t = utc_time_from_ms(1_700_000_000_500);
    assert_eq!(&t[..4], &1_700_000_000u32.to_be_bytes());
    assert_eq!(&t[4..7], &[0x80, 0x00, 0x00]);
    assert_eq!(t[7], 0x0A);
}
