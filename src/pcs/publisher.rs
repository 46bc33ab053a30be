//! Per-PCS GOOSE publisher frames: the type mapping that lays out `allData`,
//! frame initialisation from a nameplate, and the text fields it parses.

use vstd::prelude::*;
use vstd::string::*;
use crate::goose::types::{models, DataValue, EthernetHeader, IECData, IECGoosePdu};
use crate::pcs::record::PcsRecord;
use crate::text::{contains_bytes, find_bytes, lower_of, lowercase};
use crate::pcs::nameplate::NameplateConfig;
use crate::plc::publisher::{be16, bytes_of, is_true_text, text_is_true, u32_field};
use crate::text::{
    mac_from_bytes, mac_of, parse_unsigned, trim_str, trimmed, unquote_bounds, unquoted, unsigned_of,
    without_hex_prefix,
};

verus! {

/// The `allData` layout of one PCS type: `(field name, data type)` pairs in
/// frame order; the data type is `boolean`, `float` or `int`.
#[derive(Debug, Clone)]
pub struct PcsTypeMapping {
    pub pcstype: String,
    pub fields: Vec<(String, String)>,
}

fn slice_from(b: &[u8], from: usize, to: usize) -> (r: Vec<u8>)
    requires
        from <= to <= b@.len(),
    ensures
        r@ == b@.subrange(from as int, to as int),
{
    let mut r: Vec<u8> = Vec::new();
    crate::goose::ber::append_range(&mut r, b, from, to);
    r
}

/// The MAC address in `t`, a text already trimmed of whitespace: surrounding
/// double quotes are dropped, then it is read as `mac_of` says.
pub fn parse_mac_trimmed(t: &str) -> (r: Result<[u8; 6], String>)
    ensures
        r is Ok <==> mac_of(unquoted(bytes_of(t@))) is Some,
        r matches Ok(m) ==> m@ == mac_of(unquoted(bytes_of(t@)))->Some_0,
{
    let b = t.as_bytes();
    let (a, z) = unquote_bounds(b);
    let inner = slice_from(b, a, z);
    match mac_from_bytes(inner.as_slice()) {
        Some(m) => Ok(m),
        None => Err(String::from_str("Invalid MAC format")),
    }
}

/// Parses a MAC address, ignoring surrounding whitespace and double quotes.
pub fn parse_mac(s: &str) -> (r: Result<[u8; 6], String>)
    ensures
        r is Ok <==> mac_of(unquoted(bytes_of(trimmed(s@)))) is Some,
        r matches Ok(m) ==> m@ == mac_of(unquoted(bytes_of(trimmed(s@))))->Some_0,
{
    parse_mac_trimmed(trim_str(s))
}

/// The hex number in `t`, a text already trimmed of whitespace: surrounding
/// double quotes and then one leading `0x` are dropped.
pub open spec fn hex_u16_of(t: Seq<char>) -> Option<int> {
    match unsigned_of(without_hex_prefix(unquoted(bytes_of(t))), 16) {
        Some(v) => if v <= 0xFFFF { Some(v) } else { None },
        None => None,
    }
}

/// Parses a 16-bit hex number from `t`, a text already trimmed of whitespace.
pub fn parse_hex_u16_trimmed(t: &str) -> (r: Result<u16, String>)
    ensures
        r is Ok <==> hex_u16_of(t@) is Some,
        r matches Ok(v) ==> hex_u16_of(t@) == Some(v as int),
{
    let b = t.as_bytes();
    let (a, z) = unquote_bounds(b);
    let start = if z - a >= 2 && b[a] == 0x30 && b[a + 1] == 0x78 { a + 2 } else { a };
    let digits = slice_from(b, start, z);
    proof {
        assert(digits@ =~= without_hex_prefix(unquoted(bytes_of(t@))));
    }
    match parse_unsigned(digits.as_slice(), 16, 0xFFFF) {
        Some(v) => Ok(v as u16),
        None => Err(String::from_str("Failed to parse hex u16")),
    }
}

/// Parses a 16-bit hex number, with or without `0x`, ignoring surrounding
/// whitespace and double quotes.
pub fn parse_hex_u16(s: &str) -> (r: Result<u16, String>)
    ensures
        r is Ok <==> hex_u16_of(trimmed(s@)) is Some,
        r matches Ok(v) ==> hex_u16_of(trimmed(s@)) == Some(v as int),
{
    parse_hex_u16_trimmed(trim_str(s))
}

/// IEEE-754 single bit patterns of the values published for fields that no
/// feedback provides yet: state of charge 50.0, maximum charging and
/// discharging power 1000.0, maximum capacitive and inductive power 500.0.
pub const DEFAULT_SOC: u32 = 0x4248_0000;

pub const DEFAULT_MAX_ACTIVE_POWER: u32 = 0x447A_0000;

pub const DEFAULT_MAX_REACTIVE_POWER: u32 = 0x43FA_0000;

/// Status published for every PCS: standby.
pub const STANDBY_STATUS: i32 = 2;

/// The value published at a field named `name`, or `None` for a field the
/// frame keeps as it is. The first rule whose key the name contains applies.
pub open spec fn published_value(name: Seq<char>, record: PcsRecord) -> Option<DataValue> {
    let n = bytes_of(name);
    if contains_bytes(n, bytes_of("realtime_active_power"@)) {
        Some(DataValue::Float32(record.active_power_feedback))
    } else if contains_bytes(n, bytes_of("realtime_reactive_power"@)) {
        Some(DataValue::Float32(record.reactive_power_feedback))
    } else if contains_bytes(n, bytes_of("status"@)) {
        Some(DataValue::Int32(STANDBY_STATUS))
    } else if contains_bytes(n, bytes_of("soc"@)) {
        Some(DataValue::Float32(DEFAULT_SOC))
    } else if contains_bytes(n, bytes_of("maximum_charging_power"@)) || contains_bytes(n, bytes_of("maximum_discharging_power"@)) {
        Some(DataValue::Float32(DEFAULT_MAX_ACTIVE_POWER))
    } else if contains_bytes(n, bytes_of("maximum_capacitive_power"@)) || contains_bytes(n, bytes_of("maximum_inductive_power"@)) {
        Some(DataValue::Float32(DEFAULT_MAX_REACTIVE_POWER))
    } else {
        None
    }
}

fn name_has(name: &String, key: &str) -> (r: bool)
    ensures
        r == contains_bytes(bytes_of(name@), bytes_of(key@)),
{
    find_bytes(name.as_str().as_bytes(), key.as_bytes())
}

fn value_for(name: &String, record: &PcsRecord) -> (r: Option<IECData>)
    ensures
        match r {
            Some(d) => published_value(name@, *record) == Some(d.model()),
            None => published_value(name@, *record) is None,
        },
{
    if name_has(name, "realtime_active_power") {
        Some(IECData::Float32(record.active_power_feedback))
    } else if name_has(name, "realtime_reactive_power") {
        Some(IECData::Float32(record.reactive_power_feedback))
    } else if name_has(name, "status") {
        Some(IECData::Int32(STANDBY_STATUS))
    } else if name_has(name, "soc") {
        Some(IECData::Float32(DEFAULT_SOC))
    } else if name_has(name, "maximum_charging_power") || name_has(name, "maximum_discharging_power") {
        Some(IECData::Float32(DEFAULT_MAX_ACTIVE_POWER))
    } else if name_has(name, "maximum_capacitive_power") || name_has(name, "maximum_inductive_power") {
        Some(IECData::Float32(DEFAULT_MAX_REACTIVE_POWER))
    } else {
        None
    }
}

/// Copies the current values of `record` into the frame's `allData`, by
/// field name at each position of the mapping (see `published_value`);
/// positions past the end of `allData` are ignored.
pub fn update_goose_frame_data(frame: &mut (EthernetHeader, IECGoosePdu), record: &PcsRecord, type_mapping: &PcsTypeMapping)
    ensures
        final(frame).0 == old(frame).0,
        final(frame).1.allData@.len() == old(frame).1.allData@.len(),
        forall|i: int| 0 <= i < final(frame).1.allData@.len() ==> #[trigger] final(frame).1.allData@[i].model() == (
        if i < type_mapping.fields@.len() {
            match published_value(type_mapping.fields@[i].0@, *record) {
                Some(v) => v,
                None => old(frame).1.allData@[i].model(),
            }
        } else {
            old(frame).1.allData@[i].model()
        }),
        final(frame).1.stNum == old(frame).1.stNum,
        final(frame).1.sqNum == old(frame).1.sqNum,
        final(frame).1.numDatSetEntries == old(frame).1.numDatSetEntries,
        final(frame).1.t == old(frame).1.t,
{
    let ghost od = frame.1.allData@;
    let mut i: usize = 0;
    while i < type_mapping.fields.len() && i < frame.1.allData.len()
        invariant
            i <= type_mapping.fields@.len(),
            frame.1.allData@.len() == od.len(),
            frame.0 == old(frame).0,
            frame.1.stNum == old(frame).1.stNum,
            frame.1.sqNum == old(frame).1.sqNum,
            frame.1.numDatSetEntries == old(frame).1.numDatSetEntries,
            frame.1.t == old(frame).1.t,
            forall|j: int| 0 <= j < frame.1.allData@.len() ==> #[trigger] frame.1.allData@[j].model() == (
            if j < i {
                match published_value(type_mapping.fields@[j].0@, *record) {
                    Some(v) => v,
                    None => od[j].model(),
                }
            } else {
                od[j].model()
            }),
        decreases type_mapping.fields@.len() - i,
    {
        match value_for(&type_mapping.fields[i].0, record) {
            Some(d) => {
                frame.1.allData.set(i, d);
            },
            None => {},
        }
        i = i + 1;
    }
}

/// A nameplate field that a publisher frame needs.
#[derive(Debug, Clone, Copy, PartialEq, Eq)]
pub enum NameplateField {
    SrcAddr,
    DstAddr,
    Tpid,
    Tci,
    Appid,
    GocbRef,
    DataSet,
    GoId,
}

/// Why no publisher frame could be made from a nameplate.
#[derive(Debug, Clone, Copy, PartialEq, Eq)]
pub enum FrameInitError {
    Missing(NameplateField),
    Invalid(NameplateField),
    /// The mapping field at this index has a type other than `boolean`,
    /// `float` or `int`.
    UnknownDataType(usize),
}

pub open spec fn opt_text(o: Option<String>) -> Option<Seq<char>> {
    match o {
        Some(s) => Some(s@),
        None => None,
    }
}

/// A flag field: set when its lower-case text is exactly `true`.
pub open spec fn flag_of(o: Option<String>) -> bool {
    match o {
        Some(s) => is_true_text(lower_of(s@)),
        None => false,
    }
}

/// The configuration revision: the decimal text, or 1 when absent or unreadable.
pub open spec fn conf_rev_of(o: Option<String>) -> u32 {
    match o {
        Some(s) => match u32_field(s@) {
            Some(v) => v as u32,
            None => 1,
        },
        None => 1,
    }
}

/// A data type the mapping may name: `boolean`, `float` or `int`.
pub open spec fn known_type(t: Seq<char>) -> bool {
    bytes_of(t) == bytes_of("boolean"@) || bytes_of(t) == bytes_of("float"@) || bytes_of(t) == bytes_of("int"@)
}

/// The initial value of a field of type `t`: `false`, `0.0` or `0`.
pub open spec fn initial_value(t: Seq<char>) -> DataValue {
    if bytes_of(t) == bytes_of("boolean"@) {
        DataValue::Boolean(false)
    } else if bytes_of(t) == bytes_of("float"@) {
        DataValue::Float32(0)
    } else {
        DataValue::Int32(0)
    }
}

/// The initial `allData` of a type mapping: one entry per field, in order.
pub open spec fn initial_data(fields: Seq<(String, String)>) -> Seq<DataValue> {
    Seq::new(fields.len(), |i: int| initial_value(fields[i].1@))
}

/// The first problem of a nameplate for publishing, checked in this order.
pub open spec fn nameplate_issue(n: NameplateConfig) -> Option<FrameInitError> {
    if n.goose_src_addr is None {
        Some(FrameInitError::Missing(NameplateField::SrcAddr))
    } else if mac_of(unquoted(bytes_of(trimmed(n.goose_src_addr->Some_0@)))) is None {
        Some(FrameInitError::Invalid(NameplateField::SrcAddr))
    } else if n.goose_dst_addr is None {
        Some(FrameInitError::Missing(NameplateField::DstAddr))
    } else if mac_of(unquoted(bytes_of(trimmed(n.goose_dst_addr->Some_0@)))) is None {
        Some(FrameInitError::Invalid(NameplateField::DstAddr))
    } else if n.goose_tpid is None {
        Some(FrameInitError::Missing(NameplateField::Tpid))
    } else if hex_u16_of(trimmed(n.goose_tpid->Some_0@)) is None {
        Some(FrameInitError::Invalid(NameplateField::Tpid))
    } else if n.goose_tci is None {
        Some(FrameInitError::Missing(NameplateField::Tci))
    } else if hex_u16_of(trimmed(n.goose_tci->Some_0@)) is None {
        Some(FrameInitError::Invalid(NameplateField::Tci))
    } else if n.goose_appid is None {
        Some(FrameInitError::Missing(NameplateField::Appid))
    } else if n.goose_gocb_ref is None {
        Some(FrameInitError::Missing(NameplateField::GocbRef))
    } else if n.goose_data_set is None {
        Some(FrameInitError::Missing(NameplateField::DataSet))
    } else if n.goose_go_id is None {
        Some(FrameInitError::Missing(NameplateField::GoId))
    } else {
        None
    }
}

fn same_bytes(a: &[u8], b: &[u8]) -> (r: bool)
    ensures
        r == (a@ == b@),
{
    if a.len() != b.len() {
        return false;
    }
    let mut i: usize = 0;
    while i < a.len()
        invariant
            a@.len() == b@.len(),
            i <= a@.len(),
            forall|j: int| 0 <= j < i ==> a@[j] == b@[j],
        decreases a@.len() - i,
    {
        if a[i] != b[i] {
            return false;
        }
        i = i + 1;
    }
    assert(a@ =~= b@);
    true
}

fn initial_values(fields: &Vec<(String, String)>) -> (r: Result<Vec<IECData>, usize>)
    ensures
        r matches Ok(v) ==> models(v@) == initial_data(fields@) && forall|i: int| 0 <= i < fields@.len() ==> known_type(#[trigger] fields@[i].1@),
        r matches Err(i) ==> i < fields@.len() && !known_type(fields@[i as int].1@) && forall|j: int| 0 <= j < i ==> known_type(#[trigger] fields@[j].1@),
{
    let mut data: Vec<IECData> = Vec::new();
    let mut i: usize = 0;
    while i < fields.len()
        invariant
            i <= fields@.len(),
            data@.len() == i,
            forall|j: int| 0 <= j < i ==> known_type(#[trigger] fields@[j].1@),
            forall|j: int| 0 <= j < i ==> #[trigger] data@[j].model() == initial_value(fields@[j].1@),
        decreases fields@.len() - i,
    {
        let t = fields[i].1.as_str().as_bytes();
        if same_bytes(t, "boolean".as_bytes()) {
            data.push(IECData::Boolean(false));
        } else if same_bytes(t, "float".as_bytes()) {
            data.push(IECData::Float32(0));
        } else if same_bytes(t, "int".as_bytes()) {
            data.push(IECData::Int32(0));
        } else {
            return Err(i);
        }
        i = i + 1;
    }
    proof {
        crate::goose::value_codec::lemma_models_index(data@);
        assert(models(data@) =~= initial_data(fields@));
    }
    Ok(data)
}

fn flag(o: &Option<String>) -> (r: bool)
    ensures
        r == flag_of(*o),
{
    match o {
        Some(s) => text_is_true(&lowercase(s.as_str())),
        None => false,
    }
}

/// The publisher frame of one PCS: header from the nameplate's addresses,
/// tag and APPID; PDU from its identifiers and flags, stNum and sqNum 0, a
/// time-to-live of 5000 ms, and the initial data set of its type mapping.
pub fn init_goose_frame_for_pcs(nameplate: &NameplateConfig, type_mapping: &PcsTypeMapping) -> (r: Result<(EthernetHeader, IECGoosePdu), FrameInitError>)
    requires
        type_mapping.fields@.len() <= u32::MAX,
    ensures
        r is Err <==> (nameplate_issue(*nameplate) is Some || exists|i: int|
            0 <= i < type_mapping.fields@.len() && !known_type(#[trigger] type_mapping.fields@[i].1@)),
        r matches Err(e) ==> match nameplate_issue(*nameplate) {
            Some(n) => e == n,
            None => e matches FrameInitError::UnknownDataType(i) && i < type_mapping.fields@.len() && !known_type(
                type_mapping.fields@[i as int].1@,
            ) && forall|j: int| 0 <= j < i ==> known_type(#[trigger] type_mapping.fields@[j].1@),
        },
        r matches Ok(f) ==> {
            let (h, p) = f;
            &&& h.srcAddr@ == mac_of(unquoted(bytes_of(trimmed(nameplate.goose_src_addr->Some_0@))))->Some_0
            &&& h.dstAddr@ == mac_of(unquoted(bytes_of(trimmed(nameplate.goose_dst_addr->Some_0@))))->Some_0
            &&& Some(h.TPID@) == (match hex_u16_of(trimmed(nameplate.goose_tpid->Some_0@)) { Some(v) => Some(be16(v as u16)), None => None })
            &&& Some(h.TCI@) == (match hex_u16_of(trimmed(nameplate.goose_tci->Some_0@)) { Some(v) => Some(be16(v as u16)), None => None })
            &&& h.etherType@ == seq![0x88u8, 0xB8u8]
            &&& h.APPID@ == be16(nameplate.goose_appid->Some_0)
            &&& Some(p.gocbRef@) == opt_text(nameplate.goose_gocb_ref)
            &&& Some(p.datSet@) == opt_text(nameplate.goose_data_set)
            &&& Some(p.goID@) == opt_text(nameplate.goose_go_id)
            &&& p.timeAllowedtoLive == 5000
            &&& p.t@ == seq![0u8; 8]
            &&& p.stNum == 0 && p.sqNum == 0
            &&& p.simulation == flag_of(nameplate.goose_simulation)
            &&& p.confRev == conf_rev_of(nameplate.goose_conf_rev)
            &&& p.ndsCom == flag_of(nameplate.goose_nds_com)
            &&& models(p.allData@) == initial_data(type_mapping.fields@)
            &&& p.allData@.len() == type_mapping.fields@.len()
            &&& p.numDatSetEntries == p.allData@.len()
        },
{
    let src = match &nameplate.goose_src_addr {
        Some(s) => match parse_mac(s.as_str()) {
            Ok(m) => m,
            Err(_) => {
                return Err(FrameInitError::Invalid(NameplateField::SrcAddr));
            },
        },
        None => {
            return Err(FrameInitError::Missing(NameplateField::SrcAddr));
        },
    };
    let dst = match &nameplate.goose_dst_addr {
        Some(s) => match parse_mac(s.as_str()) {
            Ok(m) => m,
            Err(_) => {
                return Err(FrameInitError::Invalid(NameplateField::DstAddr));
            },
        },
        None => {
            return Err(FrameInitError::Missing(NameplateField::DstAddr));
        },
    };
    let tpid = match &nameplate.goose_tpid {
        Some(s) => match parse_hex_u16(s.as_str()) {
            Ok(v) => v,
            Err(_) => {
                return Err(FrameInitError::Invalid(NameplateField::Tpid));
            },
        },
        None => {
            return Err(FrameInitError::Missing(NameplateField::Tpid));
        },
    };
    let tci = match &nameplate.goose_tci {
        Some(s) => match parse_hex_u16(s.as_str()) {
            Ok(v) => v,
            Err(_) => {
                return Err(FrameInitError::Invalid(NameplateField::Tci));
            },
        },
        None => {
            return Err(FrameInitError::Missing(NameplateField::Tci));
        },
    };
    let appid = match nameplate.goose_appid {
        Some(a) => a,
        None => {
            return Err(FrameInitError::Missing(NameplateField::Appid));
        },
    };
    let gocb_ref = match &nameplate.goose_gocb_ref {
        Some(s) => s.clone(),
        None => {
            return Err(FrameInitError::Missing(NameplateField::GocbRef));
        },
    };
    let data_set = match &nameplate.goose_data_set {
        Some(s) => s.clone(),
        None => {
            return Err(FrameInitError::Missing(NameplateField::DataSet));
        },
    };
    let go_id = match &nameplate.goose_go_id {
        Some(s) => s.clone(),
        None => {
            return Err(FrameInitError::Missing(NameplateField::GoId));
        },
    };
    let conf_rev = match &nameplate.goose_conf_rev {
        Some(s) => match parse_unsigned(s.as_str().as_bytes(), 10, 0xFFFF_FFFF) {
            Some(v) => v as u32,
            None => 1,
        },
        None => 1,
    };
    let data = match initial_values(&type_mapping.fields) {
        Ok(d) => d,
        Err(i) => {
            return Err(FrameInitError::UnknownDataType(i));
        },
    };
    let n = data.len();
    proof {
        crate::goose::value_codec::lemma_models_index(data@);
    }
    let h = EthernetHeader {
        srcAddr: src,
        dstAddr: dst,
        TPID: [(tpid / 256) as u8, (tpid % 256) as u8],
        TCI: [(tci / 256) as u8, (tci % 256) as u8],
        etherType: [0x88, 0xB8],
        APPID: [(appid / 256) as u8, (appid % 256) as u8],
        length: [0, 0],
    };
    assert(h.TPID@ =~= be16(tpid));
    assert(h.TCI@ =~= be16(tci));
    assert(h.APPID@ =~= be16(appid));
    assert(h.etherType@ =~= seq![0x88u8, 0xB8u8]);
    let p = IECGoosePdu {
        gocbRef: gocb_ref,
        timeAllowedtoLive: 5000,
        datSet: data_set,
        goID: go_id,
        t: [0; 8],
        stNum: 0,
        sqNum: 0,
        simulation: flag(&nameplate.goose_simulation),
        confRev: conf_rev,
        ndsCom: flag(&nameplate.goose_nds_com),
        numDatSetEntries: n as u32,
        allData: data,
    };
    assert(p.t@ =~= seq![0u8; 8]);
    Ok((h, p))
}

} // verus!
