//! Encoding and decoding of complete Ethernet + GOOSE frames.

use vstd::prelude::*;
use vstd::utf8::*;
use crate::goose::ber::{append_range, holds_at, int_bytes, lemma_int_bytes_len, push_int, read_int, tlv};
use crate::goose::types::{models, same_header, same_pdu, EthernetHeader, IECData, IECGoosePdu};
use crate::goose::value_codec::{all_fit, all_wire, encode_list, lemma_holds_at_split, list_bytes, parse_list, read_tlv, string_from_utf8};

verus! {

broadcast use vstd::seq_lib::group_seq_properties;

/// Why a frame could not be encoded or decoded.
#[derive(Debug, Clone, Copy, PartialEq, Eq)]
pub enum CodecError {
    /// A field or the whole frame is longer than the format can carry.
    TooLarge,
    /// The bytes are not a well-formed GOOSE frame.
    Malformed,
}

pub open spec fn bool_bytes(x: bool) -> Seq<u8> {
    seq![if x { 1u8 } else { 0u8 }]
}

/// Field `k` (0 to 11) of the PDU, in IEC 61850-8-1 order.
pub open spec fn pdu_field(p: IECGoosePdu, k: int) -> Seq<u8> {
    if k == 0 {
        tlv(0x80, encode_utf8(p.gocbRef@))
    } else if k == 1 {
        tlv(0x81, int_bytes(p.timeAllowedtoLive as int))
    } else if k == 2 {
        tlv(0x82, encode_utf8(p.datSet@))
    } else if k == 3 {
        tlv(0x83, encode_utf8(p.goID@))
    } else if k == 4 {
        tlv(0x84, p.t@)
    } else if k == 5 {
        tlv(0x85, int_bytes(p.stNum as int))
    } else if k == 6 {
        tlv(0x86, int_bytes(p.sqNum as int))
    } else if k == 7 {
        tlv(0x87, bool_bytes(p.simulation))
    } else if k == 8 {
        tlv(0x88, int_bytes(p.confRev as int))
    } else if k == 9 {
        tlv(0x89, bool_bytes(p.ndsCom))
    } else if k == 10 {
        tlv(0x8A, int_bytes(p.numDatSetEntries as int))
    } else {
        tlv(0xAB, list_bytes(models(p.allData@)))
    }
}

/// Fields `k` through 11 of the PDU, one after the other.
pub open spec fn pdu_tail(p: IECGoosePdu, k: int) -> Seq<u8>
    decreases 12 - k,
{
    if k >= 12 {
        Seq::empty()
    } else {
        pdu_field(p, k) + pdu_tail(p, k + 1)
    }
}

/// The content of the APDU: all twelve fields.
pub open spec fn pdu_content(p: IECGoosePdu) -> Seq<u8> {
    pdu_tail(p, 0)
}

/// The APDU: the PDU fields under application tag 0x61.
pub open spec fn apdu_bytes(p: IECGoosePdu) -> Seq<u8> {
    tlv(0x61, pdu_content(p))
}

pub open spec fn is_tagged(h: EthernetHeader) -> bool {
    h.TPID@ == seq![0x81u8, 0x00u8]
}

/// The bytes in front of the APDU: addresses, optional 802.1Q tag, EtherType,
/// APPID, length and the two reserved words.
pub open spec fn header_bytes(h: EthernetHeader) -> Seq<u8> {
    h.dstAddr@ + h.srcAddr@ + (if is_tagged(h) {
        h.TPID@ + h.TCI@
    } else {
        Seq::empty()
    }) + h.etherType@ + h.APPID@ + h.length@ + seq![0u8, 0u8, 0u8, 0u8]
}

/// The bytes of a frame.
pub open spec fn frame_bytes(h: EthernetHeader, p: IECGoosePdu) -> Seq<u8> {
    header_bytes(h) + apdu_bytes(p)
}

/// Every field of the PDU fits the format, and the frame length fits its 16-bit field.
pub open spec fn pdu_fits(p: IECGoosePdu) -> bool {
    &&& encode_utf8(p.gocbRef@).len() < 65536
    &&& encode_utf8(p.datSet@).len() < 65536
    &&& encode_utf8(p.goID@).len() < 65536
    &&& all_fit(models(p.allData@))
    &&& list_bytes(models(p.allData@)).len() < 65536
    &&& pdu_content(p).len() < 65536
    &&& 8 + apdu_bytes(p).len() <= 65535
}

/// A frame that decodes back to itself: it fits, its values are in canonical
/// form, the entry count matches `allData`, the EtherType is GOOSE's, the
/// length field is right and an untagged header carries zero TPID and TCI.
pub open spec fn frame_ok(h: EthernetHeader, p: IECGoosePdu) -> bool {
    &&& pdu_fits(p)
    &&& all_wire(models(p.allData@))
    &&& p.numDatSetEntries == p.allData@.len()
    &&& h.etherType@ == seq![0x88u8, 0xB8u8]
    &&& h.length@ == seq![((8 + apdu_bytes(p).len()) / 256) as u8, ((8 + apdu_bytes(p).len()) % 256) as u8]
    &&& (!is_tagged(h) ==> h.TPID@ == seq![0u8, 0u8] && h.TCI@ == seq![0u8, 0u8])
}

/// The header as the encoder completes it: GOOSE EtherType and the length of
/// APPID through APDU.
pub open spec fn completed_header(h: EthernetHeader, p: IECGoosePdu) -> EthernetHeader {
    EthernetHeader {
        etherType: [0x88u8, 0xB8u8],
        length: [((8 + apdu_bytes(p).len()) / 256) as u8, ((8 + apdu_bytes(p).len()) % 256) as u8],
        ..h
    }
}

// ---------------------------------------------------------------------------
// Field writers

fn push_tlv_of(out: &mut Vec<u8>, tag: u8, c: &Vec<u8>) -> (ok: bool)
    ensures
        ok == (c@.len() < 65536),
        ok ==> final(out)@ == old(out)@ + tlv(tag, c@),
{
    if c.len() >= 65536 {
        return false;
    }
    out.push(tag);
    crate::goose::ber::push_len(out, c.len());
    let cs = c.as_slice();
    append_range(out, cs, 0, cs.len());
    assert(cs@.subrange(0, cs@.len() as int) =~= c@);
    assert(final(out)@ =~= old(out)@ + tlv(tag, c@));
    true
}

fn push_string_field(out: &mut Vec<u8>, tag: u8, s: &String) -> (ok: bool)
    ensures
        ok == (encode_utf8(s@).len() < 65536),
        ok ==> final(out)@ == old(out)@ + tlv(tag, encode_utf8(s@)),
{
    let mut c: Vec<u8> = Vec::new();
    let bs = s.as_str().as_bytes();
    append_range(&mut c, bs, 0, bs.len());
    assert(c@ =~= encode_utf8(s@));
    push_tlv_of(out, tag, &c)
}

fn push_u32_field(out: &mut Vec<u8>, tag: u8, v: u32)
    ensures
        final(out)@ == old(out)@ + tlv(tag, int_bytes(v as int)),
{
    let mut c: Vec<u8> = Vec::new();
    push_int(&mut c, v as i64);
    proof {
        lemma_int_bytes_len(v as int);
    }
    assert(c@ =~= int_bytes(v as int));
    push_tlv_of(out, tag, &c);
}

fn push_bool_field(out: &mut Vec<u8>, tag: u8, v: bool)
    ensures
        final(out)@ == old(out)@ + tlv(tag, bool_bytes(v)),
{
    let mut c: Vec<u8> = Vec::new();
    c.push(if v { 1 } else { 0 });
    assert(c@ =~= bool_bytes(v));
    push_tlv_of(out, tag, &c);
}

/// `head` followed by `tail`.
fn joined(head: Vec<u8>, tail: &Vec<u8>) -> (r: Vec<u8>)
    ensures
        r@ == head@ + tail@,
{
    let mut r = head;
    let ts = tail.as_slice();
    append_range(&mut r, ts, 0, ts.len());
    assert(ts@.subrange(0, ts@.len() as int) =~= tail@);
    r
}

fn string_field(tag: u8, s: &String) -> (r: Option<Vec<u8>>)
    ensures
        r is Some == (encode_utf8(s@).len() < 65536),
        r matches Some(v) ==> v@ == tlv(tag, encode_utf8(s@)),
{
    let mut v: Vec<u8> = Vec::new();
    if push_string_field(&mut v, tag, s) {
        assert(v@ =~= tlv(tag, encode_utf8(s@)));
        Some(v)
    } else {
        None
    }
}

fn u32_field(tag: u8, x: u32) -> (r: Vec<u8>)
    ensures
        r@ == tlv(tag, int_bytes(x as int)),
{
    let mut v: Vec<u8> = Vec::new();
    push_u32_field(&mut v, tag, x);
    assert(v@ =~= tlv(tag, int_bytes(x as int)));
    v
}

fn bool_field(tag: u8, x: bool) -> (r: Vec<u8>)
    ensures
        r@ == tlv(tag, bool_bytes(x)),
{
    let mut v: Vec<u8> = Vec::new();
    push_bool_field(&mut v, tag, x);
    assert(v@ =~= tlv(tag, bool_bytes(x)));
    v
}

/// The fields of the PDU.
fn write_pdu_content(p: &IECGoosePdu) -> (r: Option<Vec<u8>>)
    ensures
        r is Some == (encode_utf8(p.gocbRef@).len() < 65536 && encode_utf8(p.datSet@).len() < 65536
            && encode_utf8(p.goID@).len() < 65536 && all_fit(models(p.allData@)) && list_bytes(
            models(p.allData@),
        ).len() < 65536),
        r matches Some(v) ==> v@ == pdu_content(*p),
{
    let mut dc: Vec<u8> = Vec::new();
    if !encode_list(&p.allData, &mut dc) {
        return None;
    }
    assert(dc@ =~= list_bytes(models(p.allData@)));
    let mut tail: Vec<u8> = Vec::new();
    if !push_tlv_of(&mut tail, 0xAB, &dc) {
        return None;
    }
    assert(pdu_tail(*p, 12) =~= Seq::<u8>::empty());
    assert(tail@ =~= pdu_tail(*p, 11));
    let tail = joined(u32_field(0x8A, p.numDatSetEntries), &tail);
    assert(tail@ == pdu_tail(*p, 10));
    let tail = joined(bool_field(0x89, p.ndsCom), &tail);
    assert(tail@ == pdu_tail(*p, 9));
    let tail = joined(u32_field(0x88, p.confRev), &tail);
    assert(tail@ == pdu_tail(*p, 8));
    let tail = joined(bool_field(0x87, p.simulation), &tail);
    assert(tail@ == pdu_tail(*p, 7));
    let tail = joined(u32_field(0x86, p.sqNum), &tail);
    assert(tail@ == pdu_tail(*p, 6));
    let tail = joined(u32_field(0x85, p.stNum), &tail);
    assert(tail@ == pdu_tail(*p, 5));
    let mut tc: Vec<u8> = Vec::new();
    append_range(&mut tc, p.t.as_slice(), 0, 8);
    assert(tc@ =~= p.t@);
    let mut tf: Vec<u8> = Vec::new();
    push_tlv_of(&mut tf, 0x84, &tc);
    assert(tf@ =~= tlv(0x84, p.t@));
    let tail = joined(tf, &tail);
    assert(tail@ == pdu_tail(*p, 4));
    let f = match string_field(0x83, &p.goID) {
        Some(f) => f,
        None => {
            return None;
        },
    };
    let tail = joined(f, &tail);
    assert(tail@ == pdu_tail(*p, 3));
    let f = match string_field(0x82, &p.datSet) {
        Some(f) => f,
        None => {
            return None;
        },
    };
    let tail = joined(f, &tail);
    assert(tail@ == pdu_tail(*p, 2));
    let tail = joined(u32_field(0x81, p.timeAllowedtoLive), &tail);
    assert(tail@ == pdu_tail(*p, 1));
    let f = match string_field(0x80, &p.gocbRef) {
        Some(f) => f,
        None => {
            return None;
        },
    };
    let r = joined(f, &tail);
    assert(r@ == pdu_tail(*p, 0));
    Some(r)
}

/// The header bytes of `h`.
fn write_header(h: &EthernetHeader) -> (r: Vec<u8>)
    ensures
        r@ == header_bytes(*h),
{
    let mut out: Vec<u8> = Vec::new();
    append_range(&mut out, h.dstAddr.as_slice(), 0, 6);
    append_range(&mut out, h.srcAddr.as_slice(), 0, 6);
    let ghost base = h.dstAddr@ + h.srcAddr@;
    assert(h.dstAddr@.subrange(0, 6) =~= h.dstAddr@);
    assert(h.srcAddr@.subrange(0, 6) =~= h.srcAddr@);
    assert(out@ =~= base);
    if h.TPID[0] == 0x81 && h.TPID[1] == 0x00 {
        assert(h.TPID@ =~= seq![0x81u8, 0x00u8]);
        append_range(&mut out, h.TPID.as_slice(), 0, 2);
        append_range(&mut out, h.TCI.as_slice(), 0, 2);
        assert(h.TPID@.subrange(0, 2) =~= h.TPID@);
        assert(h.TCI@.subrange(0, 2) =~= h.TCI@);
        assert(out@ =~= base + (h.TPID@ + h.TCI@));
    } else {
        assert(!is_tagged(*h));
        assert(out@ =~= base + Seq::<u8>::empty());
    }
    let ghost mid = out@;
    append_range(&mut out, h.etherType.as_slice(), 0, 2);
    append_range(&mut out, h.APPID.as_slice(), 0, 2);
    append_range(&mut out, h.length.as_slice(), 0, 2);
    out.push(0);
    out.push(0);
    out.push(0);
    out.push(0);
    assert(h.etherType@.subrange(0, 2) =~= h.etherType@);
    assert(h.APPID@.subrange(0, 2) =~= h.APPID@);
    assert(h.length@.subrange(0, 2) =~= h.length@);
    assert(out@ =~= mid + h.etherType@ + h.APPID@ + h.length@ + seq![0u8, 0u8, 0u8, 0u8]);
    out
}

/// Encodes the frame `(header, pdu)` and appends it to `buffer`; gives the
/// number of bytes appended. On success `header` gets the GOOSE EtherType and
/// the length of APPID through APDU. Fails with `TooLarge`, leaving `buffer`
/// unspecified, exactly when the PDU does not fit the format.
pub fn encode_goose_frame(header: &mut EthernetHeader, pdu: &IECGoosePdu, buffer: &mut Vec<u8>) -> (r: Result<usize, CodecError>)
    ensures
        r is Ok <==> pdu_fits(*pdu),
        r is Err ==> r == Err::<usize, CodecError>(CodecError::TooLarge) && *final(header) == *old(header),
        r matches Ok(n) ==> {
            &&& same_header(*final(header), completed_header(*old(header), *pdu))
            &&& final(buffer)@ == old(buffer)@ + frame_bytes(*final(header), *pdu)
            &&& n == frame_bytes(*final(header), *pdu).len()
        },
{
    let content = match write_pdu_content(pdu) {
        Some(c) => c,
        None => {
            return Err(CodecError::TooLarge);
        },
    };
    let mut apdu: Vec<u8> = Vec::new();
    if !push_tlv_of(&mut apdu, 0x61, &content) {
        return Err(CodecError::TooLarge);
    }
    assert(apdu@ =~= apdu_bytes(*pdu));
    if apdu.len() > 65535 - 8 {
        return Err(CodecError::TooLarge);
    }
    let total = apdu.len() + 8;
    header.etherType = [0x88, 0xB8];
    header.length = [(total / 256) as u8, (total % 256) as u8];
    let hb = write_header(header);
    let start = buffer.len();
    let hs = hb.as_slice();
    append_range(buffer, hs, 0, hs.len());
    let a = apdu.as_slice();
    append_range(buffer, a, 0, a.len());
    proof {
        assert(hs@.subrange(0, hs@.len() as int) =~= header_bytes(*header));
        assert(a@.subrange(0, a@.len() as int) =~= apdu_bytes(*pdu));
        assert(buffer@ =~= old(buffer)@ + frame_bytes(*header, *pdu));
        assert(header.etherType@ =~= completed_header(*old(header), *pdu).etherType@);
        assert(header.length@ =~= completed_header(*old(header), *pdu).length@);
    }
    Ok(buffer.len() - start)
}

// ---------------------------------------------------------------------------
// Field readers

fn read_string_field(b: &[u8], pos: usize, end: usize, tag: u8) -> (r: Option<(String, usize)>)
    requires
        end <= b@.len(),
    ensures
        r matches Some((s, np)) ==> encode_utf8(s@).len() < 65536 && holds_at(
            b@,
            pos as int,
            end as int,
            tlv(tag, encode_utf8(s@)),
        ) && np == pos + tlv(tag, encode_utf8(s@)).len(),
        forall|x: Seq<char>|
            encode_utf8(x).len() < 65536 && #[trigger] holds_at(b@, pos as int, end as int, tlv(tag, encode_utf8(x)))
                ==> (r matches Some((s, np)) && s@ == x && np == pos + tlv(tag, encode_utf8(x)).len()),
{
    let (t, cs, ce) = match read_tlv(b, pos, end) {
        Some(x) => x,
        None => {
            return None;
        },
    };
    if t != tag {
        return None;
    }
    let mut bytes: Vec<u8> = Vec::new();
    append_range(&mut bytes, b, cs, ce);
    proof {
        assert forall|x: Seq<char>| encode_utf8(x).len() < 65536 && #[trigger] holds_at(b@, pos as int, end as int, tlv(tag, encode_utf8(x)))
            implies valid_utf8(bytes@) by {
            encode_utf8_valid_utf8(x);
        }
    }
    let s = match string_from_utf8(bytes) {
        Some(s) => s,
        None => {
            return None;
        },
    };
    proof {
        encode_utf8_decode_utf8(s@);
        assert forall|x: Seq<char>| encode_utf8(x).len() < 65536 && #[trigger] holds_at(b@, pos as int, end as int, tlv(tag, encode_utf8(x)))
            implies s@ == x by {
            encode_utf8_decode_utf8(x);
        }
    }
    Some((s, ce))
}

fn read_u32_field(b: &[u8], pos: usize, end: usize, tag: u8) -> (r: Option<(u32, usize)>)
    requires
        end <= b@.len(),
    ensures
        r matches Some((v, np)) ==> holds_at(b@, pos as int, end as int, tlv(tag, int_bytes(v as int))) && np
            == pos + tlv(tag, int_bytes(v as int)).len(),
        forall|x: u32|
            #[trigger] holds_at(b@, pos as int, end as int, tlv(tag, int_bytes(x as int))) ==> (r matches Some((v, np))
                && v == x && np == pos + tlv(tag, int_bytes(x as int)).len()),
{
    proof {
        assert forall|x: u32| #[trigger] holds_at(b@, pos as int, end as int, tlv(tag, int_bytes(x as int))) implies int_bytes(
            x as int,
        ).len() < 65536 by {
            lemma_int_bytes_len(x as int);
        }
    }
    let (t, cs, ce) = match read_tlv(b, pos, end) {
        Some(x) => x,
        None => {
            return None;
        },
    };
    if t != tag {
        return None;
    }
    let v = match read_int(b, cs, ce) {
        Some(v) => v,
        None => {
            proof {
                assert forall|x: u32| #[trigger] holds_at(b@, pos as int, end as int, tlv(tag, int_bytes(x as int))) implies false by {
                    assert(int_bytes((x as i64) as int) == b@.subrange(cs as int, ce as int));
                }
            }
            return None;
        },
    };
    proof {
        assert forall|x: u32| #[trigger] holds_at(b@, pos as int, end as int, tlv(tag, int_bytes(x as int))) implies v == x as i64 by {
            assert(int_bytes((x as i64) as int) == b@.subrange(cs as int, ce as int));
        }
    }
    if v < 0 || v > u32::MAX as i64 {
        return None;
    }
    Some((v as u32, ce))
}

fn read_bool_field(b: &[u8], pos: usize, end: usize, tag: u8) -> (r: Option<(bool, usize)>)
    requires
        end <= b@.len(),
    ensures
        r matches Some((v, np)) ==> holds_at(b@, pos as int, end as int, tlv(tag, bool_bytes(v))) && np == pos
            + tlv(tag, bool_bytes(v)).len(),
        forall|x: bool|
            #[trigger] holds_at(b@, pos as int, end as int, tlv(tag, bool_bytes(x))) ==> (r matches Some((v, np)) && v
                == x && np == pos + tlv(tag, bool_bytes(x)).len()),
{
    let (t, cs, ce) = match read_tlv(b, pos, end) {
        Some(x) => x,
        None => {
            return None;
        },
    };
    proof {
        assert forall|x: bool| #[trigger] holds_at(b@, pos as int, end as int, tlv(tag, bool_bytes(x))) implies ce - cs == 1
            && b@[cs as int] == bool_bytes(x)[0] by {
            assert(b@.subrange(cs as int, ce as int)[0] == b@[cs as int]);
        }
    }
    if t != tag || ce - cs != 1 || b[cs] > 1 {
        return None;
    }
    let v = b[cs] == 1;
    proof {
        assert(b@.subrange(cs as int, ce as int) =~= bool_bytes(v));
    }
    Some((v, ce))
}

fn read_time_field(b: &[u8], pos: usize, end: usize, tag: u8) -> (r: Option<([u8; 8], usize)>)
    requires
        end <= b@.len(),
    ensures
        r matches Some((v, np)) ==> holds_at(b@, pos as int, end as int, tlv(tag, v@)) && np == pos + tlv(
            tag,
            v@,
        ).len(),
        forall|x: [u8; 8]|
            #[trigger] holds_at(b@, pos as int, end as int, tlv(tag, x@)) ==> (r matches Some((v, np)) && v@ == x@
                && np == pos + tlv(tag, x@).len()),
{
    let (t, cs, ce) = match read_tlv(b, pos, end) {
        Some(x) => x,
        None => {
            return None;
        },
    };
    if t != tag || ce - cs != 8 {
        return None;
    }
    let v = [b[cs], b[cs + 1], b[cs + 2], b[cs + 3], b[cs + 4], b[cs + 5], b[cs + 6], b[cs + 7]];
    assert(v@ =~= b@.subrange(cs as int, ce as int));
    Some((v, ce))
}

fn read_data_field(b: &[u8], pos: usize, end: usize, tag: u8) -> (r: Option<(Vec<IECData>, usize)>)
    requires
        end <= b@.len(),
    ensures
        r matches Some((v, np)) ==> all_wire(models(v@)) && list_bytes(models(v@)).len() < 65536 && holds_at(
            b@,
            pos as int,
            end as int,
            tlv(tag, list_bytes(models(v@))),
        ) && np == pos + tlv(tag, list_bytes(models(v@))).len(),
        forall|x: Seq<crate::goose::types::DataValue>|
            all_wire(x) && list_bytes(x).len() < 65536 && #[trigger] holds_at(b@, pos as int, end as int, tlv(tag, list_bytes(x)))
                ==> (r matches Some((v, np)) && models(v@) == x && np == pos + tlv(tag, list_bytes(x)).len()),
{
    let (t, cs, ce) = match read_tlv(b, pos, end) {
        Some(x) => x,
        None => {
            return None;
        },
    };
    if t != tag {
        return None;
    }
    match parse_list(b, cs, ce) {
        Some(v) => Some((v, ce)),
        None => None,
    }
}

/// A PDU the decoder owes back exactly.
pub open spec fn pdu_ok(p: IECGoosePdu) -> bool {
    &&& encode_utf8(p.gocbRef@).len() < 65536
    &&& encode_utf8(p.datSet@).len() < 65536
    &&& encode_utf8(p.goID@).len() < 65536
    &&& all_wire(models(p.allData@))
    &&& list_bytes(models(p.allData@)).len() < 65536
    &&& p.numDatSetEntries == p.allData@.len()
}

pub proof fn lemma_tail_split(b: Seq<u8>, pos: int, end: int, p: IECGoosePdu, k: int)
    requires
        0 <= k < 12,
    ensures
        holds_at(b, pos, end, pdu_tail(p, k)) <==> (holds_at(b, pos, end, pdu_field(p, k)) && holds_at(
            b,
            pos + pdu_field(p, k).len(),
            end,
            pdu_tail(p, k + 1),
        )),
        pdu_tail(p, k).len() == pdu_field(p, k).len() + pdu_tail(p, k + 1).len(),
{
    lemma_holds_at_split(b, pos, end, pdu_field(p, k), pdu_tail(p, k + 1));
}

/// The premise under which the PDU decoder owes `p`.
pub open spec fn pdu_at(b: Seq<u8>, cs: int, ce: int, p: IECGoosePdu) -> bool {
    pdu_ok(p) && holds_at(b, cs, ce, pdu_tail(p, 0)) && cs + pdu_tail(p, 0).len() == ce
}

/// After reading `k` fields from `cs`, the reader stands at `pos`.
pub open spec fn pdu_read_to(b: Seq<u8>, pos: int, ce: int, p: IECGoosePdu, k: int) -> bool {
    holds_at(b, pos, ce, pdu_tail(p, k)) && pos + pdu_tail(p, k).len() == ce
}

/// Decodes the twelve PDU fields that fill `b[cs..ce]`.
#[verifier::rlimit(80)]
fn parse_pdu(b: &[u8], cs: usize, ce: usize) -> (r: Option<IECGoosePdu>)
    requires
        cs <= ce <= b@.len(),
    ensures
        r matches Some(p) ==> pdu_at(b@, cs as int, ce as int, p),
        forall|p: IECGoosePdu| #[trigger] pdu_at(b@, cs as int, ce as int, p) ==> (r matches Some(q) && same_pdu(q, p)),
{
    let ghost bb = b@;
    proof {
        assert forall|p: IECGoosePdu| #[trigger] pdu_at(bb, cs as int, ce as int, p) implies pdu_read_to(bb, cs as int, ce as int, p, 0)
            && holds_at(bb, cs as int, ce as int, pdu_field(p, 0)) && pdu_read_to(bb, cs + pdu_field(p, 0).len(), ce as int, p, 1) by {
            lemma_tail_split(bb, cs as int, ce as int, p, 0);
        }
    }
    let (gocb, pos1) = match read_string_field(b, cs, ce, 0x80) { Some(x) => x, None => { return None; } };
    proof {
        assert forall|p: IECGoosePdu| #[trigger] pdu_at(bb, cs as int, ce as int, p) implies gocb@ == p.gocbRef@
            && pdu_read_to(bb, pos1 as int, ce as int, p, 1) && holds_at(bb, pos1 as int, ce as int, pdu_field(p, 1))
            && pdu_read_to(bb, pos1 + pdu_field(p, 1).len(), ce as int, p, 2) by {
            lemma_tail_split(bb, cs as int, ce as int, p, 0);
            lemma_tail_split(bb, pos1 as int, ce as int, p, 1);
        }
    }
    let (ttl, pos2) = match read_u32_field(b, pos1, ce, 0x81) { Some(x) => x, None => { return None; } };
    proof {
        assert forall|p: IECGoosePdu| #[trigger] pdu_at(bb, cs as int, ce as int, p) implies ttl == p.timeAllowedtoLive
            && pdu_read_to(bb, pos2 as int, ce as int, p, 2) && holds_at(bb, pos2 as int, ce as int, pdu_field(p, 2))
            && pdu_read_to(bb, pos2 + pdu_field(p, 2).len(), ce as int, p, 3) by {
            lemma_tail_split(bb, pos2 as int, ce as int, p, 2);
        }
    }
    let (dat_set, pos3) = match read_string_field(b, pos2, ce, 0x82) { Some(x) => x, None => { return None; } };
    proof {
        assert forall|p: IECGoosePdu| #[trigger] pdu_at(bb, cs as int, ce as int, p) implies dat_set@ == p.datSet@
            && pdu_read_to(bb, pos3 as int, ce as int, p, 3) && holds_at(bb, pos3 as int, ce as int, pdu_field(p, 3))
            && pdu_read_to(bb, pos3 + pdu_field(p, 3).len(), ce as int, p, 4) by {
            lemma_tail_split(bb, pos3 as int, ce as int, p, 3);
        }
    }
    let (go_id, pos4) = match read_string_field(b, pos3, ce, 0x83) { Some(x) => x, None => { return None; } };
    proof {
        assert forall|p: IECGoosePdu| #[trigger] pdu_at(bb, cs as int, ce as int, p) implies go_id@ == p.goID@
            && pdu_read_to(bb, pos4 as int, ce as int, p, 4) && holds_at(bb, pos4 as int, ce as int, pdu_field(p, 4))
            && pdu_read_to(bb, pos4 + pdu_field(p, 4).len(), ce as int, p, 5) by {
            lemma_tail_split(bb, pos4 as int, ce as int, p, 4);
        }
    }
    let (t, pos5) = match read_time_field(b, pos4, ce, 0x84) { Some(x) => x, None => { return None; } };
    proof {
        assert forall|p: IECGoosePdu| #[trigger] pdu_at(bb, cs as int, ce as int, p) implies t@ == p.t@
            && pdu_read_to(bb, pos5 as int, ce as int, p, 5) && holds_at(bb, pos5 as int, ce as int, pdu_field(p, 5))
            && pdu_read_to(bb, pos5 + pdu_field(p, 5).len(), ce as int, p, 6) by {
            lemma_tail_split(bb, pos5 as int, ce as int, p, 5);
        }
    }
    let (st_num, pos6) = match read_u32_field(b, pos5, ce, 0x85) { Some(x) => x, None => { return None; } };
    proof {
        assert forall|p: IECGoosePdu| #[trigger] pdu_at(bb, cs as int, ce as int, p) implies st_num == p.stNum
            && pdu_read_to(bb, pos6 as int, ce as int, p, 6) && holds_at(bb, pos6 as int, ce as int, pdu_field(p, 6))
            && pdu_read_to(bb, pos6 + pdu_field(p, 6).len(), ce as int, p, 7) by {
            lemma_tail_split(bb, pos6 as int, ce as int, p, 6);
        }
    }
    let (sq_num, pos7) = match read_u32_field(b, pos6, ce, 0x86) { Some(x) => x, None => { return None; } };
    proof {
        assert forall|p: IECGoosePdu| #[trigger] pdu_at(bb, cs as int, ce as int, p) implies sq_num == p.sqNum
            && pdu_read_to(bb, pos7 as int, ce as int, p, 7) && holds_at(bb, pos7 as int, ce as int, pdu_field(p, 7))
            && pdu_read_to(bb, pos7 + pdu_field(p, 7).len(), ce as int, p, 8) by {
            lemma_tail_split(bb, pos7 as int, ce as int, p, 7);
        }
    }
    let (simulation, pos8) = match read_bool_field(b, pos7, ce, 0x87) { Some(x) => x, None => { return None; } };
    proof {
        assert forall|p: IECGoosePdu| #[trigger] pdu_at(bb, cs as int, ce as int, p) implies simulation == p.simulation
            && pdu_read_to(bb, pos8 as int, ce as int, p, 8) && holds_at(bb, pos8 as int, ce as int, pdu_field(p, 8))
            && pdu_read_to(bb, pos8 + pdu_field(p, 8).len(), ce as int, p, 9) by {
            lemma_tail_split(bb, pos8 as int, ce as int, p, 8);
        }
    }
    let (conf_rev, pos9) = match read_u32_field(b, pos8, ce, 0x88) { Some(x) => x, None => { return None; } };
    proof {
        assert forall|p: IECGoosePdu| #[trigger] pdu_at(bb, cs as int, ce as int, p) implies conf_rev == p.confRev
            && pdu_read_to(bb, pos9 as int, ce as int, p, 9) && holds_at(bb, pos9 as int, ce as int, pdu_field(p, 9))
            && pdu_read_to(bb, pos9 + pdu_field(p, 9).len(), ce as int, p, 10) by {
            lemma_tail_split(bb, pos9 as int, ce as int, p, 9);
        }
    }
    let (nds_com, pos10) = match read_bool_field(b, pos9, ce, 0x89) { Some(x) => x, None => { return None; } };
    proof {
        assert forall|p: IECGoosePdu| #[trigger] pdu_at(bb, cs as int, ce as int, p) implies nds_com == p.ndsCom
            && pdu_read_to(bb, pos10 as int, ce as int, p, 10) && holds_at(bb, pos10 as int, ce as int, pdu_field(p, 10))
            && pdu_read_to(bb, pos10 + pdu_field(p, 10).len(), ce as int, p, 11) by {
            lemma_tail_split(bb, pos10 as int, ce as int, p, 10);
        }
    }
    let (entries, pos11) = match read_u32_field(b, pos10, ce, 0x8A) { Some(x) => x, None => { return None; } };
    proof {
        assert forall|p: IECGoosePdu| #[trigger] pdu_at(bb, cs as int, ce as int, p) implies entries == p.numDatSetEntries
            && pdu_read_to(bb, pos11 as int, ce as int, p, 11) && holds_at(bb, pos11 as int, ce as int, pdu_field(p, 11))
            && pdu_read_to(bb, pos11 + pdu_field(p, 11).len(), ce as int, p, 12) by {
            lemma_tail_split(bb, pos11 as int, ce as int, p, 11);
        }
    }
    let (data, pos12) = match read_data_field(b, pos11, ce, 0xAB) { Some(x) => x, None => { return None; } };
    proof {
        assert forall|p: IECGoosePdu| #[trigger] pdu_at(bb, cs as int, ce as int, p) implies models(data@) == models(p.allData@)
            && pos12 == ce && entries as int == data@.len() by {
            assert(pdu_tail(p, 12) =~= Seq::<u8>::empty());
            crate::goose::value_codec::lemma_models_index(data@);
            crate::goose::value_codec::lemma_models_index(p.allData@);
        }
    }
    if pos12 != ce || entries as usize != data.len() {
        return None;
    }
    let q = IECGoosePdu {
        gocbRef: gocb,
        timeAllowedtoLive: ttl,
        datSet: dat_set,
        goID: go_id,
        t,
        stNum: st_num,
        sqNum: sq_num,
        simulation,
        confRev: conf_rev,
        ndsCom: nds_com,
        numDatSetEntries: entries,
        allData: data,
    };
    proof {
        assert(pdu_tail(q, 12) =~= Seq::<u8>::empty());
        lemma_tail_split(bb, pos11 as int, ce as int, q, 11);
        lemma_tail_split(bb, pos10 as int, ce as int, q, 10);
        lemma_tail_split(bb, pos9 as int, ce as int, q, 9);
        lemma_tail_split(bb, pos8 as int, ce as int, q, 8);
        lemma_tail_split(bb, pos7 as int, ce as int, q, 7);
        lemma_tail_split(bb, pos6 as int, ce as int, q, 6);
        lemma_tail_split(bb, pos5 as int, ce as int, q, 5);
        lemma_tail_split(bb, pos4 as int, ce as int, q, 4);
        lemma_tail_split(bb, pos3 as int, ce as int, q, 3);
        lemma_tail_split(bb, pos2 as int, ce as int, q, 2);
        lemma_tail_split(bb, pos1 as int, ce as int, q, 1);
        lemma_tail_split(bb, cs as int, ce as int, q, 0);
        assert(holds_at(bb, ce as int, ce as int, Seq::<u8>::empty()));
    }
    Some(q)
}

/// What the decoder asks of a header: GOOSE EtherType, and zero TPID and TCI
/// when untagged.
pub open spec fn header_ok(h: EthernetHeader) -> bool {
    &&& h.etherType@ == seq![0x88u8, 0xB8u8]
    &&& (!is_tagged(h) ==> h.TPID@ == seq![0u8, 0u8] && h.TCI@ == seq![0u8, 0u8])
}

pub proof fn lemma_header_bytes_index(h: EthernetHeader)
    ensures
        header_bytes(h).len() == (if is_tagged(h) { 26int } else { 22int }),
        forall|i: int| 0 <= i < 6 ==> header_bytes(h)[i] == h.dstAddr@[i],
        forall|i: int| 0 <= i < 6 ==> header_bytes(h)[6 + i] == h.srcAddr@[i],
        is_tagged(h) ==> header_bytes(h)[12] == 0x81 && header_bytes(h)[13] == 0x00 && header_bytes(h)[14] == h.TCI@[0]
            && header_bytes(h)[15] == h.TCI@[1],
        ({
            let k: int = if is_tagged(h) { 16 } else { 12 };
            &&& header_bytes(h)[k] == h.etherType@[0]
            &&& header_bytes(h)[k + 1] == h.etherType@[1]
            &&& header_bytes(h)[k + 2] == h.APPID@[0]
            &&& header_bytes(h)[k + 3] == h.APPID@[1]
            &&& header_bytes(h)[k + 4] == h.length@[0]
            &&& header_bytes(h)[k + 5] == h.length@[1]
            &&& header_bytes(h)[k + 6] == 0 && header_bytes(h)[k + 7] == 0
            &&& header_bytes(h)[k + 8] == 0 && header_bytes(h)[k + 9] == 0
        }),
{
}

/// Reads the header bytes at `o`; gives the header and where the APDU starts.
#[verifier::rlimit(60)]
fn read_header(b: &[u8], o: usize) -> (r: Option<(EthernetHeader, usize)>)
    ensures
        r matches Some((h, a)) ==> header_ok(h) && holds_at(b@, o as int, b@.len() as int, header_bytes(h)) && a == o
            + header_bytes(h).len(),
        forall|h1: EthernetHeader|
            header_ok(h1) && #[trigger] holds_at(b@, o as int, b@.len() as int, header_bytes(h1)) ==> (r matches Some((h, a))
                && same_header(h, h1) && a == o + header_bytes(h1).len()),
{
    let n = b.len();
    let ghost bb = b@;
    proof {
        assert forall|h1: EthernetHeader| header_ok(h1) && #[trigger] holds_at(bb, o as int, n as int, header_bytes(h1)) implies
            forall|i: int| 0 <= i < header_bytes(h1).len() ==> bb[o + i] == #[trigger] header_bytes(h1)[i] by {
            lemma_header_bytes_index(h1);
            assert forall|i: int| 0 <= i < header_bytes(h1).len() implies bb[o + i] == #[trigger] header_bytes(h1)[i] by {
                assert(bb.subrange(o as int, o + header_bytes(h1).len())[i] == bb[o + i]);
            }
        }
    }
    if o > n || n - o < 22 {
        proof {
            assert forall|h1: EthernetHeader| header_ok(h1) && #[trigger] holds_at(bb, o as int, n as int, header_bytes(h1)) implies false by {
                lemma_header_bytes_index(h1);
            }
        }
        return None;
    }
    let tagged = b[o + 12] == 0x81 && b[o + 13] == 0x00;
    proof {
        assert forall|h1: EthernetHeader| header_ok(h1) && #[trigger] holds_at(bb, o as int, n as int, header_bytes(h1)) implies
            is_tagged(h1) == tagged by {
            lemma_header_bytes_index(h1);
            if !is_tagged(h1) {
                assert(header_bytes(h1)[12] == 0x88);
            }
        }
    }
    if tagged && n - o < 26 {
        proof {
            assert forall|h1: EthernetHeader| header_ok(h1) && #[trigger] holds_at(bb, o as int, n as int, header_bytes(h1)) implies false by {
                lemma_header_bytes_index(h1);
            }
        }
        return None;
    }
    let q = if tagged { o + 16 } else { o + 12 };
    if b[q] != 0x88 || b[q + 1] != 0xB8 || b[q + 6] != 0 || b[q + 7] != 0 || b[q + 8] != 0 || b[q + 9] != 0 {
        proof {
            assert forall|h1: EthernetHeader| header_ok(h1) && #[trigger] holds_at(bb, o as int, n as int, header_bytes(h1)) implies false by {
                lemma_header_bytes_index(h1);
            }
        }
        return None;
    }
    let dst = [b[o], b[o + 1], b[o + 2], b[o + 3], b[o + 4], b[o + 5]];
    let src = [b[o + 6], b[o + 7], b[o + 8], b[o + 9], b[o + 10], b[o + 11]];
    let tpid: [u8; 2] = if tagged { [0x81, 0x00] } else { [0, 0] };
    let tci: [u8; 2] = if tagged { [b[o + 14], b[o + 15]] } else { [0, 0] };
    let h = EthernetHeader {
        srcAddr: src,
        dstAddr: dst,
        TPID: tpid,
        TCI: tci,
        etherType: [0x88, 0xB8],
        APPID: [b[q + 2], b[q + 3]],
        length: [b[q + 4], b[q + 5]],
    };
    proof {
        if tagged {
            assert(h.TPID@ =~= seq![0x81u8, 0x00u8]);
        } else {
            assert(h.TPID@ =~= seq![0u8, 0u8]);
            assert(h.TCI@ =~= seq![0u8, 0u8]);
        }
        assert(h.etherType@ =~= seq![0x88u8, 0xB8u8]);
        assert(is_tagged(h) == tagged);
        lemma_header_bytes_index(h);
        assert(bb.subrange(o as int, q + 10) =~= header_bytes(h));
        assert forall|h1: EthernetHeader| header_ok(h1) && #[trigger] holds_at(bb, o as int, n as int, header_bytes(h1)) implies
            same_header(h, h1) by {
            lemma_header_bytes_index(h1);
            assert(h.dstAddr@ =~= h1.dstAddr@) by {
                assert forall|i: int| 0 <= i < 6 implies h.dstAddr@[i] == h1.dstAddr@[i] by {
                    assert(header_bytes(h1)[i] == h1.dstAddr@[i]);
                }
            }
            assert(h.srcAddr@ =~= h1.srcAddr@) by {
                assert forall|i: int| 0 <= i < 6 implies h.srcAddr@[i] == h1.srcAddr@[i] by {
                    assert(header_bytes(h1)[6 + i] == h1.srcAddr@[i]);
                }
            }
            assert(h.TPID@ =~= h1.TPID@);
            assert(h.TCI@ =~= h1.TCI@);
            assert(h.etherType@ =~= h1.etherType@);
            assert(h.APPID@ =~= h1.APPID@);
            assert(h.length@ =~= h1.length@);
        }
    }
    Some((h, q + 10))
}

/// Decodes the Ethernet + GOOSE frame that starts at `offset` in `b`; bytes
/// after the frame (Ethernet padding) are ignored. Accepts 802.1Q tagged and
/// untagged frames.
pub fn decode_goose_frame(b: &[u8], offset: usize) -> (r: Result<(EthernetHeader, IECGoosePdu), CodecError>)
    ensures
        r matches Ok((h, p)) ==> frame_ok(h, p) && holds_at(b@, offset as int, b@.len() as int, frame_bytes(h, p)),
        forall|h: EthernetHeader, p: IECGoosePdu|
            frame_ok(h, p) && #[trigger] holds_at(b@, offset as int, b@.len() as int, frame_bytes(h, p)) ==> (r matches Ok((h2, pos2))
                && same_header(h2, h) && same_pdu(pos2, p)),
        r is Err ==> r == Err::<(EthernetHeader, IECGoosePdu), CodecError>(CodecError::Malformed),
{
    let n = b.len();
    let ghost bb = b@;
    proof {
        assert forall|h: EthernetHeader, p: IECGoosePdu|
            frame_ok(h, p) && #[trigger] holds_at(bb, offset as int, n as int, frame_bytes(h, p)) implies
            header_ok(h) && holds_at(bb, offset as int, n as int, header_bytes(h)) && holds_at(bb, offset + header_bytes(h).len(), n as int, apdu_bytes(p)) by {
            lemma_holds_at_split(bb, offset as int, n as int, header_bytes(h), apdu_bytes(p));
        }
    }
    let (h, a) = match read_header(b, offset) {
        Some(x) => x,
        None => {
            return Err(CodecError::Malformed);
        },
    };
    let (tag, cs, ce) = match read_tlv(b, a, n) {
        Some(x) => x,
        None => {
            return Err(CodecError::Malformed);
        },
    };
    proof {
        assert forall|h1: EthernetHeader, p: IECGoosePdu|
            frame_ok(h1, p) && #[trigger] holds_at(bb, offset as int, n as int, frame_bytes(h1, p)) implies
            tag == 0x61 && pdu_at(bb, cs as int, ce as int, p) && ce - a == apdu_bytes(p).len() && same_header(h, h1) by {
            assert(holds_at(bb, a as int, n as int, tlv(0x61, pdu_content(p))));
        }
    }
    if tag != 0x61 || ce - a > 65535 - 8 {
        return Err(CodecError::Malformed);
    }
    let total = 8 + (ce - a);
    if h.length[0] != (total / 256) as u8 || h.length[1] != (total % 256) as u8 {
        return Err(CodecError::Malformed);
    }
    let p = match parse_pdu(b, cs, ce) {
        Some(p) => p,
        None => {
            return Err(CodecError::Malformed);
        },
    };
    proof {
        crate::goose::value_codec::lemma_all_wire_fit(models(p.allData@));
        lemma_holds_at_split(bb, offset as int, n as int, header_bytes(h), apdu_bytes(p));
        assert(h.length@ =~= seq![((8 + apdu_bytes(p).len()) / 256) as u8, ((8 + apdu_bytes(p).len()) % 256) as u8]);
    }
    Ok((h, p))
}

/// Round trip: decoding the bytes that the encoder writes for a valid frame,
/// followed by any padding, gives that frame back field for field.
///
/// `encode_goose_frame` appends `frame_bytes(h, p)` with `h` completed; for
/// such bytes `decode_goose_frame` owes `Ok` with a header and PDU equal to
/// `h` and `p`. This lemma shows that a valid PDU is encodable, that the
/// completed header is valid, and that the written bytes meet the decoder's
/// premise.
pub proof fn lemma_round_trip(h0: EthernetHeader, p: IECGoosePdu, before: Seq<u8>, padding: Seq<u8>)
    requires
        pdu_ok(p),
        pdu_content(p).len() < 65536,
        8 + apdu_bytes(p).len() <= 65535,
        !is_tagged(h0) ==> h0.TPID@ == seq![0u8, 0u8] && h0.TCI@ == seq![0u8, 0u8],
    ensures
        pdu_fits(p),
        forall|h: EthernetHeader| same_header(h, completed_header(h0, p)) ==> {
            &&& frame_ok(h, p)
            &&& holds_at(before + frame_bytes(h, p) + padding, before.len() as int,
                (before + frame_bytes(h, p) + padding).len() as int, frame_bytes(h, p))
        },
{
    crate::goose::value_codec::lemma_all_wire_fit(models(p.allData@));
    assert forall|h: EthernetHeader| same_header(h, completed_header(h0, p)) implies {
        &&& frame_ok(h, p)
        &&& holds_at(before + frame_bytes(h, p) + padding, before.len() as int,
            (before + frame_bytes(h, p) + padding).len() as int, frame_bytes(h, p))
    } by {
        let c = completed_header(h0, p);
        assert(h.TPID@ == h0.TPID@);
        assert(h.etherType@ =~= seq![0x88u8, 0xB8u8]);
        assert(h.length@ =~= seq![((8 + apdu_bytes(p).len()) / 256) as u8, ((8 + apdu_bytes(p).len()) % 256) as u8]);
        let all = before + frame_bytes(h, p) + padding;
        assert(all.subrange(before.len() as int, before.len() + frame_bytes(h, p).len() as int) =~= frame_bytes(h, p));
    }
}

/// A received frame worth decoding: at least 14 bytes, with EtherType
/// 0x88B8 at 12, or an 802.1Q tag at 12 followed by 0x88B8 at 16.
pub open spec fn carries_goose(p: Seq<u8>) -> bool {
    p.len() >= 14 && ((p[12] == 0x88 && p[13] == 0xB8) || (p.len() >= 18 && p[12] == 0x81 && p[13] == 0x00
        && p[16] == 0x88 && p[17] == 0xB8))
}

/// The receive filter: whether `packet` carries GOOSE (see `carries_goose`).
pub fn is_goose_frame(packet: &[u8]) -> (r: bool)
    ensures
        r == carries_goose(packet@),
{
    let n = packet.len();
    n >= 14 && ((packet[12] == 0x88 && packet[13] == 0xB8) || (n >= 18 && packet[12] == 0x81 && packet[13] == 0x00
        && packet[16] == 0x88 && packet[17] == 0xB8))
}

/// An untagged header carries zero TPID and TCI.
pub open spec fn tag_clear(h: EthernetHeader) -> bool {
    !is_tagged(h) ==> h.TPID@ == seq![0u8, 0u8] && h.TCI@ == seq![0u8, 0u8]
}

/// A frame the encoder wrote is valid in wire form when its values are in
/// canonical form, its entry count matches `allData` and an untagged header
/// carries zero TPID and TCI.
pub proof fn lemma_completed_frame_ok(h0: EthernetHeader, h: EthernetHeader, p: IECGoosePdu)
    requires
        same_header(h, completed_header(h0, p)),
        pdu_fits(p),
        all_wire(models(p.allData@)),
        p.numDatSetEntries == p.allData@.len(),
        tag_clear(h0),
    ensures
        frame_ok(h, p),
{
    assert(h.TPID@ == h0.TPID@);
    assert(h.etherType@ =~= seq![0x88u8, 0xB8u8]);
    assert(h.length@ =~= seq![((8 + apdu_bytes(p).len()) / 256) as u8, ((8 + apdu_bytes(p).len()) % 256) as u8]);
}

} // verus!
