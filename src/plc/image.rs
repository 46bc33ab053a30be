//! The telemetry image sent to the PLC (little-endian): per-PCS records
//! extracted from the received GOOSE data, and their serialisation.

use vstd::prelude::*;
use crate::goose::types::{models, DataValue, IECData};
use crate::pcs::record::PcsRecord;
use crate::plc::com::Lifecounter;
use crate::plc::types::StPCSDataBytePosInAllDataCfg;

verus! {

/// IEEE-754 single bit pattern of 999999.0, the value of a field that could
/// not be read.
pub const INVALID_VALUE: u32 = 0x4974_23F0;

/// Protocol number of the telemetry image.
pub const IMAGE_PROTOCOL: u8 = 10;

/// Telemetry of one PCS. Powers and SOC are IEEE-754 single bit patterns.
#[derive(Debug, Clone, Copy, PartialEq, Eq)]
pub struct StPCSinfo {
    pub logical_id: u16,
    pub is_valid: u8,
    pub feed_line_id: u8,
    pub is_controllable: u8,
    pub pcs_realtime_active_power: u32,
    pub pcs_realtime_reactive_power: u32,
    pub pcs_maximum_charging_power: u32,
    pub pcs_maximum_discharging_power: u32,
    pub pcs_maximum_inductive_power: u32,
    pub pcs_maximum_capacitive_power: u32,
    pub pcs_soc: u32,
    pub spare: [u8; 16],
}

/// The telemetry image: both LANs' records.
#[derive(Debug, Clone)]
pub struct StPCSImage {
    pub protocol: u8,
    pub number_of_pcs: u16,
    pub lifecounter: u64,
    pub spare: [u8; 16],
    pub pcs_data_networka: Vec<StPCSinfo>,
    pub pcs_data_networkb: Vec<StPCSinfo>,
}

/// The float bits at position `pos` of `data`, or `INVALID_VALUE` when the
/// position is out of range or holds another type.
pub open spec fn float_at(data: Seq<DataValue>, pos: int) -> u32 {
    if 0 <= pos < data.len() {
        match data[pos] {
            DataValue::Float32(x) => x,
            _ => INVALID_VALUE,
        }
    } else {
        INVALID_VALUE
    }
}

pub open spec fn pow2(k: nat) -> nat
    decreases k,
{
    if k == 0 {
        1
    } else {
        2 * pow2((k - 1) as nat)
    }
}

/// `f32::round` followed by a saturating cast to `u8`, on the bit pattern:
/// NaN and negatives give 0, values from 255.5 on give 255, halves round away
/// from zero.
pub open spec fn round_to_u8(bits: u32) -> u8 {
    let sign = bits / 0x8000_0000;
    let exp = (bits / 0x80_0000) % 256;
    let man = bits % 0x80_0000;
    if exp == 255 {
        if man == 0 && sign == 0 { 255 } else { 0 }
    } else if sign == 1 || exp < 126 {
        0
    } else if exp >= 135 {
        255
    } else {
        let k = (150 - exp) as nat;
        let r = (man + 0x80_0000 + pow2((k - 1) as nat)) / (pow2(k) as int);
        if r > 255 { 255 } else { r as u8 }
    }
}

/// Whether a status value marks the PCS controllable: a float is rounded to
/// `u8` first, an unsigned byte is taken as it is; either must be one of the
/// controllable codes.
pub open spec fn controllable(data: Seq<DataValue>, pos: int, codes: Seq<u8>) -> bool {
    0 <= pos < data.len() && match data[pos] {
        DataValue::Float32(x) => codes.contains(round_to_u8(x)),
        DataValue::Int8u(x) => codes.contains(x),
        _ => false,
    }
}

fn round_bits_to_u8(bits: u32) -> (r: u8)
    ensures
        r == round_to_u8(bits),
{
    let sign = bits / 0x8000_0000;
    let exp = (bits / 0x80_0000) % 256;
    let man = bits % 0x80_0000;
    if exp == 255 {
        if man == 0 && sign == 0 { 255 } else { 0 }
    } else if sign == 1 || exp < 126 {
        0
    } else if exp >= 135 {
        255
    } else {
        let k = 150 - exp;
        let mut div: u32 = 1;
        let mut i: u32 = 0;
        while i < k - 1
            invariant
                i <= k - 1,
                16 <= k <= 24,
                div == pow2(i as nat),
                1 <= div <= 0x80_0000,
            decreases k - 1 - i,
        {
            proof {
                assert(pow2((i + 1) as nat) == 2 * pow2(i as nat));
                lemma_pow2_bound(i as nat, 22);
                lemma_pow2_22();
            }
            div = div * 2;
            i = i + 1;
        }
        let half = div;
        proof {
            assert(pow2(k as nat) == 2 * pow2((k - 1) as nat));
        }
        let full = div * 2;
        let r = (man + 0x80_0000 + half) / full;
        if r > 255 { 255 } else { r as u8 }
    }
}

proof fn lemma_pow2_bound(a: nat, b: nat)
    requires
        a <= b,
    ensures
        pow2(a) <= pow2(b),
    decreases b,
{
    if a < b {
        lemma_pow2_bound(a, (b - 1) as nat);
    }
}

proof fn lemma_pow2_22()
    ensures
        pow2(22) == 0x40_0000,
{
    reveal_with_fuel(pow2, 23);
}

fn float_bits_at(data: &Vec<IECData>, pos: usize) -> (r: u32)
    ensures
        r == float_at(models(data@), pos as int),
{
    proof {
        crate::goose::value_codec::lemma_models_index(data@);
    }
    if pos < data.len() {
        match &data[pos] {
            IECData::Float32(x) => *x,
            _ => INVALID_VALUE,
        }
    } else {
        INVALID_VALUE
    }
}

fn has_code(codes: &Vec<u8>, c: u8) -> (r: bool)
    ensures
        r == codes@.contains(c),
{
    let mut i: usize = 0;
    while i < codes.len()
        invariant
            i <= codes@.len(),
            forall|j: int| 0 <= j < i ==> codes@[j] != c,
        decreases codes@.len() - i,
    {
        if codes[i] == c {
            return true;
        }
        i = i + 1;
    }
    false
}

fn is_controllable_at(data: &Vec<IECData>, pos: usize, codes: &Vec<u8>) -> (r: bool)
    ensures
        r == controllable(models(data@), pos as int, codes@),
{
    proof {
        crate::goose::value_codec::lemma_models_index(data@);
    }
    if pos < data.len() {
        match &data[pos] {
            IECData::Float32(x) => has_code(codes, round_bits_to_u8(*x)),
            IECData::Int8u(x) => has_code(codes, *x),
            _ => false,
        }
    } else {
        false
    }
}

/// Telemetry of `logical_id` read from `record` with the positions of `cfg`
/// and the controllable status codes `codes`.
pub open spec fn info_of(
    logical_id: u16,
    cfg: StPCSDataBytePosInAllDataCfg,
    codes: Seq<u8>,
    record: PcsRecord,
    info: StPCSinfo,
) -> bool {
    let d = models(record.pdu.allData@);
    &&& info.logical_id == logical_id
    &&& info.is_valid == (if record.state_valid { 1u8 } else { 0u8 })
    &&& info.feed_line_id == (record.feed_line_id % 256) as u8
    &&& info.is_controllable == (if controllable(d, cfg.pcs_status_pos as int, codes) { 1u8 } else { 0u8 })
    &&& info.pcs_realtime_active_power == float_at(d, cfg.pcs_realtime_active_power_pos as int)
    &&& info.pcs_realtime_reactive_power == float_at(d, cfg.pcs_realtime_reactive_power_pos as int)
    &&& info.pcs_maximum_charging_power == float_at(d, cfg.pcs_maximum_charging_power_pos as int)
    &&& info.pcs_maximum_discharging_power == float_at(d, cfg.pcs_maximum_discharging_power_pos as int)
    &&& info.pcs_maximum_inductive_power == float_at(d, cfg.pcs_maximum_inductive_power_pos as int)
    &&& info.pcs_maximum_capacitive_power == float_at(d, cfg.pcs_maximum_capacitive_power_pos as int)
    &&& info.pcs_soc == float_at(d, cfg.pcs_soc_pos as int)
}

impl StPCSinfo {
    /// A record with every field zero.
    pub fn new() -> (r: StPCSinfo)
        ensures
            r.logical_id == 0 && r.is_valid == 0 && r.feed_line_id == 0 && r.is_controllable == 0,
            r.pcs_realtime_active_power == 0 && r.pcs_realtime_reactive_power == 0,
            r.pcs_maximum_charging_power == 0 && r.pcs_maximum_discharging_power == 0,
            r.pcs_maximum_inductive_power == 0 && r.pcs_maximum_capacitive_power == 0 && r.pcs_soc == 0,
            r.spare@ == seq![0u8; 16],
    {
        let r = StPCSinfo {
            logical_id: 0,
            is_valid: 0,
            feed_line_id: 0,
            is_controllable: 0,
            pcs_realtime_active_power: 0,
            pcs_realtime_reactive_power: 0,
            pcs_maximum_charging_power: 0,
            pcs_maximum_discharging_power: 0,
            pcs_maximum_inductive_power: 0,
            pcs_maximum_capacitive_power: 0,
            pcs_soc: 0,
            spare: [0; 16],
        };
        assert(r.spare@ =~= seq![0u8; 16]);
        r
    }

    /// Fills this record for `logical_id` from `record`. With the type's
    /// configuration `cfg` (positions and controllable codes) every field is
    /// read as `info_of` says: a float position that is out of range or
    /// holds another type gives `INVALID_VALUE`. Without a configuration the
    /// identity, validity and feed line are set, the PCS is not
    /// controllable, the powers are left as they were, and the call fails.
    pub fn get_info(
        &mut self,
        logical_id: u16,
        cfg: Option<&(StPCSDataBytePosInAllDataCfg, Vec<u8>)>,
        record: &PcsRecord,
    ) -> (r: Result<(), ()>)
        ensures
            r is Ok <==> cfg is Some,
            cfg matches Some(c) ==> info_of(logical_id, c.0, c.1@, *record, *final(self)),
            cfg is None ==> {
                &&& final(self).logical_id == logical_id
                &&& final(self).is_valid == (if record.state_valid { 1u8 } else { 0u8 })
                &&& final(self).feed_line_id == (record.feed_line_id % 256) as u8
                &&& final(self).is_controllable == 0
                &&& final(self).pcs_realtime_active_power == old(self).pcs_realtime_active_power
                &&& final(self).pcs_realtime_reactive_power == old(self).pcs_realtime_reactive_power
                &&& final(self).pcs_maximum_charging_power == old(self).pcs_maximum_charging_power
                &&& final(self).pcs_maximum_discharging_power == old(self).pcs_maximum_discharging_power
                &&& final(self).pcs_maximum_inductive_power == old(self).pcs_maximum_inductive_power
                &&& final(self).pcs_maximum_capacitive_power == old(self).pcs_maximum_capacitive_power
                &&& final(self).pcs_soc == old(self).pcs_soc
            },
            final(self).spare == old(self).spare,
    {
        self.logical_id = logical_id;
        self.is_valid = if record.state_valid { 1 } else { 0 };
        self.feed_line_id = (record.feed_line_id % 256) as u8;
        self.is_controllable = 0;
        let (config, codes) = match cfg {
            Some(c) => (&c.0, &c.1),
            None => {
                return Err(());
            },
        };
        let data = &record.pdu.allData;
        self.pcs_realtime_active_power = float_bits_at(data, config.pcs_realtime_active_power_pos);
        self.pcs_realtime_reactive_power = float_bits_at(data, config.pcs_realtime_reactive_power_pos);
        self.pcs_maximum_charging_power = float_bits_at(data, config.pcs_maximum_charging_power_pos);
        self.pcs_maximum_discharging_power = float_bits_at(data, config.pcs_maximum_discharging_power_pos);
        self.pcs_maximum_inductive_power = float_bits_at(data, config.pcs_maximum_inductive_power_pos);
        self.pcs_maximum_capacitive_power = float_bits_at(data, config.pcs_maximum_capacitive_power_pos);
        self.pcs_soc = float_bits_at(data, config.pcs_soc_pos);
        self.is_controllable = if is_controllable_at(data, config.pcs_status_pos, codes) { 1 } else { 0 };
        Ok(())
    }
}

/// The telemetry of `logical_id` from `record`, as `StPCSinfo::get_info`
/// fills a zeroed record.
pub fn pcs_info(logical_id: u16, cfg: Option<&(StPCSDataBytePosInAllDataCfg, Vec<u8>)>, record: &PcsRecord) -> (r: StPCSinfo)
    ensures
        cfg matches Some(c) ==> info_of(logical_id, c.0, c.1@, *record, r),
        cfg is None ==> r.logical_id == logical_id && r.is_controllable == 0 && r.pcs_realtime_active_power == 0,
{
    let mut info = StPCSinfo::new();
    let _ = info.get_info(logical_id, cfg, record);
    info
}

/// The `n` low-order bytes of `x`, least significant first.
pub open spec fn le_bytes(x: nat, n: nat) -> Seq<u8>
    decreases n,
{
    if n == 0 {
        Seq::empty()
    } else {
        seq![(x % 256) as u8] + le_bytes(x / 256, (n - 1) as nat)
    }
}

/// The 49 bytes of one PCS record.
pub open spec fn info_bytes(i: StPCSinfo) -> Seq<u8> {
    le_bytes(i.logical_id as nat, 2) + seq![i.is_valid, i.feed_line_id, i.is_controllable] + le_bytes(
        i.pcs_realtime_active_power as nat,
        4,
    ) + le_bytes(i.pcs_realtime_reactive_power as nat, 4) + le_bytes(i.pcs_maximum_charging_power as nat, 4)
        + le_bytes(i.pcs_maximum_discharging_power as nat, 4) + le_bytes(i.pcs_maximum_inductive_power as nat, 4)
        + le_bytes(i.pcs_maximum_capacitive_power as nat, 4) + le_bytes(i.pcs_soc as nat, 4) + i.spare@
}

/// The records one after the other.
pub open spec fn infos_bytes(s: Seq<StPCSinfo>) -> Seq<u8>
    decreases s.len(),
{
    if s.len() == 0 {
        Seq::empty()
    } else {
        infos_bytes(s.drop_last()) + info_bytes(s.last())
    }
}

/// The 27-byte header of the image.
pub open spec fn image_header(img: StPCSImage) -> Seq<u8> {
    seq![img.protocol] + le_bytes(img.number_of_pcs as nat, 2) + le_bytes(img.lifecounter as nat, 8) + img.spare@
}

pub open spec fn sorted_by_id(s: Seq<StPCSinfo>) -> bool {
    forall|i: int, j: int| 0 <= i < j < s.len() ==> s[i].logical_id <= s[j].logical_id
}

/// Relies on `slice::sort_unstable_by_key`: the same records, in ascending
/// order of the key, here the logical id.
#[verifier::external_body]
fn sort_by_logical_id(v: &mut Vec<StPCSinfo>)
    ensures
        final(v)@.to_multiset() == old(v)@.to_multiset(),
        sorted_by_id(final(v)@),
{
    v.sort_unstable_by_key(|i| i.logical_id)
}

fn push_le(out: &mut Vec<u8>, x: u64, n: usize)
    ensures
        final(out)@ == old(out)@ + le_bytes(x as nat, n as nat),
    decreases n,
{
    if n > 0 {
        out.push((x % 256) as u8);
        push_le(out, x / 256, n - 1);
    }
    assert(final(out)@ =~= old(out)@ + le_bytes(x as nat, n as nat));
}

fn push_info(out: &mut Vec<u8>, i: &StPCSinfo)
    ensures
        final(out)@ == old(out)@ + info_bytes(*i),
{
    let ghost o = out@;
    push_le(out, i.logical_id as u64, 2);
    out.push(i.is_valid);
    out.push(i.feed_line_id);
    out.push(i.is_controllable);
    push_le(out, i.pcs_realtime_active_power as u64, 4);
    push_le(out, i.pcs_realtime_reactive_power as u64, 4);
    push_le(out, i.pcs_maximum_charging_power as u64, 4);
    push_le(out, i.pcs_maximum_discharging_power as u64, 4);
    push_le(out, i.pcs_maximum_inductive_power as u64, 4);
    push_le(out, i.pcs_maximum_capacitive_power as u64, 4);
    push_le(out, i.pcs_soc as u64, 4);
    crate::goose::ber::append_range(out, i.spare.as_slice(), 0, 16);
    assert(i.spare@.subrange(0, 16) =~= i.spare@);
    assert(final(out)@ =~= o + info_bytes(*i));
}

fn push_infos(out: &mut Vec<u8>, v: &Vec<StPCSinfo>)
    ensures
        final(out)@ == old(out)@ + infos_bytes(v@),
{
    let ghost o = out@;
    let mut k: usize = 0;
    proof {
        assert(v@.subrange(0, 0) =~= Seq::<StPCSinfo>::empty());
        assert(out@ =~= o + infos_bytes(v@.subrange(0, 0)));
    }
    while k < v.len()
        invariant
            k <= v@.len(),
            out@ == o + infos_bytes(v@.subrange(0, k as int)),
        decreases v@.len() - k,
    {
        push_info(out, &v[k]);
        proof {
            assert(v@.subrange(0, k + 1).drop_last() =~= v@.subrange(0, k as int));
            assert(out@ =~= o + infos_bytes(v@.subrange(0, k + 1)));
        }
        k = k + 1;
    }
    assert(v@.subrange(0, v@.len() as int) =~= v@);
}

/// The image of the records of LAN A and LAN B, each sorted by logical id;
/// it takes the current life counter value and advances the counter.
pub fn get_stpcsimage(
    lan_a: Vec<StPCSinfo>,
    lan_b: Vec<StPCSinfo>,
    qtyofpcs: usize,
    counter: &mut Lifecounter,
) -> (r: StPCSImage)
    ensures
        r.protocol == IMAGE_PROTOCOL,
        r.number_of_pcs == qtyofpcs as u16,
        r.lifecounter == old(counter)@,
        final(counter)@ == (if old(counter)@ == u64::MAX { 0 } else { (old(counter)@ + 1) as u64 }),
        r.spare@ == seq![0u8; 16],
        r.pcs_data_networka@.to_multiset() == lan_a@.to_multiset(),
        r.pcs_data_networkb@.to_multiset() == lan_b@.to_multiset(),
        sorted_by_id(r.pcs_data_networka@),
        sorted_by_id(r.pcs_data_networkb@),
{
    let mut a = lan_a;
    let mut b = lan_b;
    sort_by_logical_id(&mut a);
    sort_by_logical_id(&mut b);
    let lifecounter = counter.fetch_increment();
    let spare = [0u8; 16];
    assert(spare@ =~= seq![0u8; 16]);
    StPCSImage {
        protocol: IMAGE_PROTOCOL,
        number_of_pcs: qtyofpcs as u16,
        lifecounter,
        spare,
        pcs_data_networka: a,
        pcs_data_networkb: b,
    }
}

/// The datagram bytes of an image: its header, then the LAN A records and
/// the LAN B records in the order they are stored.
pub fn serialize_stpcsimage(image: &StPCSImage) -> (r: Vec<u8>)
    ensures
        r@ == image_header(*image) + infos_bytes(image.pcs_data_networka@) + infos_bytes(image.pcs_data_networkb@),
{
    let mut out: Vec<u8> = Vec::new();
    out.push(image.protocol);
    push_le(&mut out, image.number_of_pcs as u64, 2);
    push_le(&mut out, image.lifecounter, 8);
    crate::goose::ber::append_range(&mut out, image.spare.as_slice(), 0, 16);
    assert(image.spare@.subrange(0, 16) =~= image.spare@);
    assert(out@ =~= image_header(*image));
    push_infos(&mut out, &image.pcs_data_networka);
    push_infos(&mut out, &image.pcs_data_networkb);
    out
}

} // verus!
