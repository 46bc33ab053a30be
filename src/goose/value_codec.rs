//! BER encoding of GOOSE data values (the `allData` entries), and its decoder.

use vstd::prelude::*;
use vstd::utf8::*;
use crate::goose::ber::{append_range, be_bytes, be_of, holds_at, int_bytes, len_bytes, lemma_be_bytes_of_value, lemma_be_round_trip, lemma_int_bytes_len, lemma_pow256_values, push_be, push_int, push_len, read_int, read_len, tlv};
use crate::goose::types::{models, DataValue, IECData};

verus! {

broadcast use vstd::seq_lib::group_seq_properties;

/// The context tag of a value in `allData`.
pub open spec fn value_tag(d: DataValue) -> u8 {
    match d {
        DataValue::Array(_) => 0xA1,
        DataValue::Structure(_) => 0xA2,
        DataValue::Boolean(_) => 0x83,
        DataValue::BitString(_, _) => 0x84,
        DataValue::Int8(_) | DataValue::Int16(_) | DataValue::Int32(_) | DataValue::Int64(_) => 0x85,
        DataValue::Int8u(_) | DataValue::Int16u(_) | DataValue::Int32u(_) => 0x86,
        DataValue::Float32(_) | DataValue::Float64(_) => 0x87,
        DataValue::OctetString(_) => 0x89,
        DataValue::VisibleString(_) => 0x8A,
        DataValue::MmsString(_) => 0x90,
        DataValue::UtcTime(_) => 0x91,
    }
}

/// The content octets of a value.
pub open spec fn value_content(d: DataValue) -> Seq<u8>
    decreases d,
{
    match d {
        DataValue::Array(s) => list_bytes(s),
        DataValue::Structure(s) => list_bytes(s),
        DataValue::Boolean(b) => seq![if b { 1u8 } else { 0u8 }],
        DataValue::BitString(p, v) => seq![p] + v,
        DataValue::Int8(x) => int_bytes(x as int),
        DataValue::Int16(x) => int_bytes(x as int),
        DataValue::Int32(x) => int_bytes(x as int),
        DataValue::Int64(x) => int_bytes(x as int),
        DataValue::Int8u(x) => int_bytes(x as int),
        DataValue::Int16u(x) => int_bytes(x as int),
        DataValue::Int32u(x) => int_bytes(x as int),
        DataValue::Float32(x) => seq![0x08u8] + be_bytes(x as nat, 4),
        DataValue::Float64(x) => seq![0x0Bu8] + be_bytes(x as nat, 8),
        DataValue::OctetString(v) => v,
        DataValue::VisibleString(s) => encode_utf8(s),
        DataValue::MmsString(s) => encode_utf8(s),
        DataValue::UtcTime(t) => t,
    }
}

/// The complete TLV of a value.
pub open spec fn value_bytes(d: DataValue) -> Seq<u8> {
    tlv(value_tag(d), value_content(d))
}

/// The values of a sequence, encoded one after the other.
pub open spec fn list_bytes(s: Seq<DataValue>) -> Seq<u8>
    decreases s,
{
    if s.len() == 0 {
        Seq::empty()
    } else {
        list_bytes(s.subrange(0, s.len() - 1)) + tlv(value_tag(s[s.len() - 1]), value_content(s[s.len() - 1]))
    }
}

/// Every content field of the value, nested ones included, is shorter than 64 KiB.
pub open spec fn value_fits(d: DataValue) -> bool
    decreases d,
{
    match d {
        DataValue::Array(s) => (forall|i: int| 0 <= i < s.len() ==> value_fits(#[trigger] s[i]))
            && list_bytes(s).len() < 65536,
        DataValue::Structure(s) => (forall|i: int| 0 <= i < s.len() ==> value_fits(#[trigger] s[i]))
            && list_bytes(s).len() < 65536,
        _ => value_content(d).len() < 65536,
    }
}

/// A value the decoder gives back exactly: it fits, every integer sits in the
/// narrowest variant that holds it, and a time stamp has eight octets.
pub open spec fn wire_value(d: DataValue) -> bool
    decreases d,
{
    match d {
        DataValue::Array(s) => (forall|i: int| 0 <= i < s.len() ==> wire_value(#[trigger] s[i]))
            && list_bytes(s).len() < 65536,
        DataValue::Structure(s) => (forall|i: int| 0 <= i < s.len() ==> wire_value(#[trigger] s[i]))
            && list_bytes(s).len() < 65536,
        DataValue::Int16(x) => !(-128 <= x < 128),
        DataValue::Int32(x) => !(-32768 <= x < 32768),
        DataValue::Int64(x) => !(i32::MIN <= x <= i32::MAX),
        DataValue::Int16u(x) => x > 255,
        DataValue::Int32u(x) => x > 65535,
        DataValue::UtcTime(t) => t.len() == 8,
        _ => value_content(d).len() < 65536,
    }
}

pub open spec fn all_wire(s: Seq<DataValue>) -> bool {
    forall|i: int| 0 <= i < s.len() ==> wire_value(#[trigger] s[i])
}

pub open spec fn all_fit(s: Seq<DataValue>) -> bool {
    forall|i: int| 0 <= i < s.len() ==> value_fits(#[trigger] s[i])
}

// ---------------------------------------------------------------------------

pub proof fn lemma_holds_at_split(b: Seq<u8>, pos: int, end: int, x: Seq<u8>, y: Seq<u8>)
    ensures
        holds_at(b, pos, end, x + y) <==> (holds_at(b, pos, end, x) && holds_at(b, pos + x.len(), end, y)),
{
    if holds_at(b, pos, end, x + y) {
        let w = b.subrange(pos, pos + x.len() + y.len());
        assert(w == x + y);
        assert(b.subrange(pos, pos + x.len()) =~= w.subrange(0, x.len() as int));
        assert(w.subrange(0, x.len() as int) =~= x);
        assert(b.subrange(pos + x.len(), pos + x.len() + y.len()) =~= w.subrange(
            x.len() as int,
            (x.len() + y.len()) as int,
        ));
        assert(w.subrange(x.len() as int, (x.len() + y.len()) as int) =~= y);
    }
    if holds_at(b, pos, end, x) && holds_at(b, pos + x.len(), end, y) {
        assert(b.subrange(pos, pos + x.len() + y.len()) =~= b.subrange(pos, pos + x.len()) + b.subrange(
            pos + x.len(),
            pos + x.len() + y.len(),
        ));
    }
}

pub proof fn lemma_models_index(s: Seq<IECData>)
    ensures
        models(s).len() == s.len(),
        forall|i: int| 0 <= i < s.len() ==> #[trigger] models(s)[i] == s[i].model(),
    decreases s.len(),
{
    if s.len() > 0 {
        lemma_models_index(s.subrange(0, s.len() - 1));
    }
}

pub proof fn lemma_models_push(s: Seq<IECData>, d: IECData)
    ensures
        models(s.push(d)) == models(s).push(d.model()),
{
    lemma_models_index(s);
    lemma_models_index(s.push(d));
    assert(models(s.push(d)) =~= models(s).push(d.model()));
}

pub proof fn lemma_list_bytes_push(s: Seq<DataValue>, d: DataValue)
    ensures
        list_bytes(s.push(d)) == list_bytes(s) + value_bytes(d),
{
    assert(s.push(d).subrange(0, s.len() as int) =~= s);
}

pub proof fn lemma_list_bytes_concat(a: Seq<DataValue>, b: Seq<DataValue>)
    ensures
        list_bytes(a + b) == list_bytes(a) + list_bytes(b),
    decreases b.len(),
{
    if b.len() == 0 {
        assert(a + b =~= a);
        assert(list_bytes(b) =~= Seq::<u8>::empty());
        assert(list_bytes(a) + list_bytes(b) =~= list_bytes(a));
    } else {
        let bl = b.subrange(0, b.len() - 1);
        lemma_list_bytes_concat(a, bl);
        assert((a + b).subrange(0, (a + b).len() - 1) =~= a + bl);
        assert((a + b).last() == b.last());
        assert(list_bytes(a + b) =~= list_bytes(a) + list_bytes(b));
    }
}

pub proof fn lemma_value_bytes_len(d: DataValue)
    ensures
        value_bytes(d).len() >= 2,
        value_bytes(d)[0] == value_tag(d),
{
    let c = value_content(d);
    assert(len_bytes(c.len()).len() >= 1);
}

pub proof fn lemma_list_bytes_empty(s: Seq<DataValue>)
    ensures
        (list_bytes(s).len() == 0) == (s.len() == 0),
{
    if s.len() > 0 {
        lemma_value_bytes_len(s.last());
    }
}

/// The encoding of `t[k..]` starts with that of `t[k]`.
pub proof fn lemma_list_bytes_front(t: Seq<DataValue>, k: int)
    requires
        0 <= k < t.len(),
    ensures
        list_bytes(t.subrange(k, t.len() as int)) == value_bytes(t[k]) + list_bytes(
            t.subrange(k + 1, t.len() as int),
        ),
{
    let one = seq![t[k]];
    let rest = t.subrange(k + 1, t.len() as int);
    assert(t.subrange(k, t.len() as int) =~= one + rest);
    lemma_list_bytes_concat(one, rest);
    assert(one.subrange(0, 0) =~= Seq::<DataValue>::empty());
    assert(list_bytes(Seq::<DataValue>::empty()) =~= Seq::<u8>::empty());
    assert(list_bytes(one) =~= value_bytes(t[k]));
}

/// Reads a TLV header at `pos`; gives its tag and the bounds of its content.
pub fn read_tlv(b: &[u8], pos: usize, end: usize) -> (r: Option<(u8, usize, usize)>)
    requires
        end <= b@.len(),
    ensures
        r matches Some((tag, cs, ce)) ==> pos < cs <= ce <= end && ce - cs < 65536 && holds_at(
            b@,
            pos as int,
            end as int,
            tlv(tag, b@.subrange(cs as int, ce as int)),
        ) && cs == pos + 1 + len_bytes((ce - cs) as nat).len() && ce == pos + tlv(
            tag,
            b@.subrange(cs as int, ce as int),
        ).len(),
        forall|tag: u8, c: Seq<u8>|
            c.len() < 65536 && #[trigger] holds_at(b@, pos as int, end as int, tlv(tag, c)) ==> r
                == Some(
                (tag, (pos + 1 + len_bytes(c.len()).len()) as usize, (pos + tlv(tag, c).len()) as usize),
            ) && c == b@.subrange(
                pos + 1 + len_bytes(c.len()).len(),
                pos + tlv(tag, c).len(),
            ),
{
    proof {
        assert forall|tag: u8, c: Seq<u8>|
            c.len() < 65536 && #[trigger] holds_at(b@, pos as int, end as int, tlv(tag, c)) implies b@[pos as int]
                == tag && holds_at(b@, pos + 1, end as int, len_bytes(c.len())) && holds_at(
                b@,
                pos + 1 + len_bytes(c.len()).len(),
                end as int,
                c,
            ) by {
            lemma_holds_at_split(b@, pos as int, end as int, seq![tag] + len_bytes(c.len()), c);
            lemma_holds_at_split(b@, pos as int, end as int, seq![tag], len_bytes(c.len()));
            assert(b@.subrange(pos as int, pos + 1)[0] == b@[pos as int]);
        }
    }
    if pos >= end {
        return None;
    }
    let tag = b[pos];
    let (n, p) = match read_len(b, pos + 1, end) {
        Some(x) => x,
        None => {
            return None;
        },
    };
    if n > end - p {
        return None;
    }
    let ce = p + n;
    proof {
        let c = b@.subrange(p as int, ce as int);
        assert(holds_at(b@, p as int, end as int, c));
        assert(b@.subrange(pos as int, pos + 1) =~= seq![tag]);
        lemma_holds_at_split(b@, pos as int, end as int, seq![tag], len_bytes(n as nat));
        lemma_holds_at_split(b@, pos as int, end as int, seq![tag] + len_bytes(n as nat), c);
    }
    Some((tag, p, ce))
}

/// Relies on `String::from_utf8`: it succeeds exactly on valid UTF-8 and the
/// string holds those bytes.
#[verifier::external_body]
pub(crate) fn string_from_utf8(bytes: Vec<u8>) -> (r: Option<String>)
    ensures
        r is Some <==> valid_utf8(bytes@),
        r matches Some(s) ==> encode_utf8(s@) == bytes@,
{
    String::from_utf8(bytes).ok()
}

/// Appends the UTF-8 bytes of `s`.
fn push_utf8(out: &mut Vec<u8>, s: &String)
    ensures
        final(out)@ == old(out)@ + encode_utf8(s@),
{
    let bs = s.as_str().as_bytes();
    append_range(out, bs, 0, bs.len());
    assert(bs@.subrange(0, bs@.len() as int) =~= bs@);
}

/// Appends a TLV with the given content.
fn push_tlv(out: &mut Vec<u8>, tag: u8, c: &Vec<u8>)
    requires
        c@.len() < 65536,
    ensures
        final(out)@ == old(out)@ + tlv(tag, c@),
{
    out.push(tag);
    push_len(out, c.len());
    let cs = c.as_slice();
    append_range(out, cs, 0, cs.len());
    assert(cs@.subrange(0, cs@.len() as int) =~= c@);
    assert(final(out)@ =~= old(out)@ + tlv(tag, c@));
}

/// Appends the BER encoding of `d`; fails, leaving `out` unspecified, only when
/// some content is 64 KiB or longer.
pub fn encode_value(d: &IECData, out: &mut Vec<u8>) -> (ok: bool)
    ensures
        ok == value_fits(d.model()),
        ok ==> final(out)@ == old(out)@ + value_bytes(d.model()),
    decreases d,
{
    let mut c: Vec<u8> = Vec::new();
    let tag: u8 = match d {
        IECData::Array(v) => {
            if !encode_list(v, &mut c) {
                return false;
            }
            0xA1
        },
        IECData::Structure(v) => {
            if !encode_list(v, &mut c) {
                return false;
            }
            0xA2
        },
        IECData::Boolean(x) => {
            c.push(if *x { 1 } else { 0 });
            0x83
        },
        IECData::BitString { padding, val } => {
            c.push(*padding);
            append_range(&mut c, val.as_slice(), 0, val.len());
            0x84
        },
        IECData::Int8(x) => {
            push_int(&mut c, *x as i64);
            0x85
        },
        IECData::Int16(x) => {
            push_int(&mut c, *x as i64);
            0x85
        },
        IECData::Int32(x) => {
            push_int(&mut c, *x as i64);
            0x85
        },
        IECData::Int64(x) => {
            push_int(&mut c, *x);
            0x85
        },
        IECData::Int8u(x) => {
            push_int(&mut c, *x as i64);
            0x86
        },
        IECData::Int16u(x) => {
            push_int(&mut c, *x as i64);
            0x86
        },
        IECData::Int32u(x) => {
            push_int(&mut c, *x as i64);
            0x86
        },
        IECData::Float32(x) => {
            c.push(0x08);
            push_be(&mut c, *x as u64, 4);
            0x87
        },
        IECData::Float64(x) => {
            c.push(0x0B);
            push_be(&mut c, *x, 8);
            0x87
        },
        IECData::OctetString(v) => {
            append_range(&mut c, v.as_slice(), 0, v.len());
            0x89
        },
        IECData::VisibleString(s) => {
            push_utf8(&mut c, s);
            0x8A
        },
        IECData::MmsString(s) => {
            push_utf8(&mut c, s);
            0x90
        },
        IECData::UtcTime(t) => {
            append_range(&mut c, t.as_slice(), 0, 8);
            0x91
        },
    };
    proof {
        let m = d.model();
        match d {
            IECData::BitString { padding, val } => {
                assert(val@.subrange(0, val@.len() as int) =~= val@);
            },
            IECData::OctetString(v) => {
                assert(v@.subrange(0, v@.len() as int) =~= v@);
            },
            IECData::UtcTime(t) => {
                assert(t@.subrange(0, 8) =~= t@);
            },
            _ => {},
        }
        assert(c@ =~= value_content(m));
        assert(tag == value_tag(m));
    }
    if c.len() >= 65536 {
        return false;
    }
    push_tlv(out, tag, &c);
    true
}

/// Appends the encodings of the values of `v`, in order.
pub fn encode_list(v: &Vec<IECData>, out: &mut Vec<u8>) -> (ok: bool)
    ensures
        ok == all_fit(models(v@)),
        ok ==> final(out)@ == old(out)@ + list_bytes(models(v@)),
    decreases v,
{
    proof {
        lemma_models_index(v@);
    }
    let mut i: usize = 0;
    while i < v.len()
        invariant
            i <= v@.len(),
            models(v@).len() == v@.len(),
            forall|j: int| 0 <= j < v@.len() ==> #[trigger] models(v@)[j] == v@[j].model(),
            forall|j: int| 0 <= j < i ==> value_fits(#[trigger] v@[j].model()),
            out@ == old(out)@ + list_bytes(models(v@.subrange(0, i as int))),
        decreases v@.len() - i,
    {
        proof {
            assert(decreases_to!(v => v@[i as int]));
        }
        let ghost before = out@;
        if !encode_value(&v[i], out) {
            proof {
                assert(!value_fits(models(v@)[i as int]));
            }
            return false;
        }
        proof {
            let s = v@.subrange(0, i as int);
            assert(v@.subrange(0, i + 1) =~= s.push(v@[i as int]));
            lemma_models_push(s, v@[i as int]);
            lemma_list_bytes_push(models(s), v@[i as int].model());
        }
        i = i + 1;
    }
    proof {
        assert(v@.subrange(0, v@.len() as int) =~= v@);
    }
    true
}

pub proof fn lemma_wire_content_len(t: DataValue)
    requires
        wire_value(t),
    ensures
        value_content(t).len() < 65536,
{
    match t {
        DataValue::Int16(x) => {
            lemma_int_bytes_len(x as int);
        },
        DataValue::Int32(x) => {
            lemma_int_bytes_len(x as int);
        },
        DataValue::Int64(x) => {
            lemma_int_bytes_len(x as int);
        },
        DataValue::Int16u(x) => {
            lemma_int_bytes_len(x as int);
        },
        DataValue::Int32u(x) => {
            lemma_int_bytes_len(x as int);
        },
        _ => {},
    }
}

/// The premise under which a decoder owes the value `t`.
pub open spec fn content_is(b: Seq<u8>, tag: u8, cs: int, ce: int, t: DataValue) -> bool {
    wire_value(t) && value_tag(t) == tag && value_content(t) == b.subrange(cs, ce)
}

/// Decodes an array or a structure.
fn decode_list_content(b: &[u8], tag: u8, cs: usize, ce: usize) -> (r: Option<IECData>)
    requires
        cs <= ce <= b@.len(),
        ce - cs < 65536,
        tag == 0xA1 || tag == 0xA2,
    ensures
        r matches Some(d) ==> content_is(b@, tag, cs as int, ce as int, d.model()),
        forall|t: DataValue| #[trigger] content_is(b@, tag, cs as int, ce as int, t) ==> (r matches Some(d)
            && d.model() == t),
    decreases ce - cs, 2int,
{
    let ghost c = b@.subrange(cs as int, ce as int);
    let n = ce - cs;
    let items = match parse_list(b, cs, ce) {
        Some(v) => v,
        None => {
            proof {
                assert forall|t: DataValue| #[trigger] content_is(b@, tag, cs as int, ce as int, t) implies false by {
                    match t {
                        DataValue::Array(s) => {
                            assert(wire_value(t));
                            assert(value_content(t) == list_bytes(s));
                            assert(all_wire(s));
                            assert(list_bytes(s) == c);
                        },
                        DataValue::Structure(s) => {
                            assert(all_wire(s));
                            assert(list_bytes(s) == c);
                        },
                        _ => {
                            assert(value_tag(t) != 0xA1 && value_tag(t) != 0xA2);
                        },
                    }
                }
            }
            return None;
        },
    };
    let d = if tag == 0xA1 {
        IECData::Array(items)
    } else {
        IECData::Structure(items)
    };
    proof {
        assert forall|t: DataValue| #[trigger] content_is(b@, tag, cs as int, ce as int, t) implies d.model()
            == t by {
            match t {
                DataValue::Array(s) => {
                    assert(all_wire(s));
                    assert(list_bytes(s) == c);
                },
                DataValue::Structure(s) => {
                    assert(all_wire(s));
                    assert(list_bytes(s) == c);
                },
                _ => {},
            }
        }
    }
    Some(d)
}

/// Decodes a boolean.
fn decode_bool_content(b: &[u8], tag: u8, cs: usize, ce: usize) -> (r: Option<IECData>)
    requires
        cs <= ce <= b@.len(),
        ce - cs < 65536,
        tag == 0x83,
    ensures
        r matches Some(d) ==> content_is(b@, tag, cs as int, ce as int, d.model()),
        forall|t: DataValue| #[trigger] content_is(b@, tag, cs as int, ce as int, t) ==> (r matches Some(d)
            && d.model() == t),
    decreases ce - cs, 2int,
{
    let ghost c = b@.subrange(cs as int, ce as int);
    let n = ce - cs;
    proof {
        assert forall|t: DataValue| #[trigger] content_is(b@, tag, cs as int, ce as int, t) implies n == 1
            && b@[cs as int] <= 1 && t == DataValue::Boolean(b@[cs as int] == 1) by {
            if let DataValue::Boolean(x) = t {
                assert(c.len() == 1);
                assert(c[0] == b@[cs as int]);
            }
        }
    }
    if n != 1 || b[cs] > 1 {
        return None;
    }
    let d = IECData::Boolean(b[cs] == 1);
    proof {
        assert(c =~= seq![b@[cs as int]]);
        assert(value_content(d.model()) =~= c);
    }
    Some(d)
}

/// Decodes a bit string.
fn decode_bit_string_content(b: &[u8], tag: u8, cs: usize, ce: usize) -> (r: Option<IECData>)
    requires
        cs <= ce <= b@.len(),
        ce - cs < 65536,
        tag == 0x84,
    ensures
        r matches Some(d) ==> content_is(b@, tag, cs as int, ce as int, d.model()),
        forall|t: DataValue| #[trigger] content_is(b@, tag, cs as int, ce as int, t) ==> (r matches Some(d)
            && d.model() == t),
    decreases ce - cs, 2int,
{
    let ghost c = b@.subrange(cs as int, ce as int);
    let n = ce - cs;
    if n < 1 {
        return None;
    }
    let mut val: Vec<u8> = Vec::new();
    append_range(&mut val, b, cs + 1, ce);
    let d = IECData::BitString { padding: b[cs], val };
    proof {
        assert(value_content(d.model()) =~= c);
        assert forall|t: DataValue| #[trigger] content_is(b@, tag, cs as int, ce as int, t) implies d.model()
            == t by {
            if let DataValue::BitString(p, v) = t {
                assert(c == seq![p] + v);
                assert(c[0] == b@[cs as int]);
                assert((seq![p] + v)[0] == p);
                assert(v =~= (seq![p] + v).subrange(1, c.len() as int));
                assert(c.subrange(1, c.len() as int) =~= b@.subrange(cs + 1, ce as int));
            }
        }
    }
    Some(d)
}

/// Decodes a signed or unsigned integer.
fn decode_int_content(b: &[u8], tag: u8, cs: usize, ce: usize) -> (r: Option<IECData>)
    requires
        cs <= ce <= b@.len(),
        ce - cs < 65536,
        tag == 0x85 || tag == 0x86,
    ensures
        r matches Some(d) ==> content_is(b@, tag, cs as int, ce as int, d.model()),
        forall|t: DataValue| #[trigger] content_is(b@, tag, cs as int, ce as int, t) ==> (r matches Some(d)
            && d.model() == t),
    decreases ce - cs, 2int,
{
    let ghost c = b@.subrange(cs as int, ce as int);
    let n = ce - cs;
    let v = match read_int(b, cs, ce) {
        Some(v) => v,
        None => {
            proof {
                assert forall|t: DataValue| #[trigger] content_is(b@, tag, cs as int, ce as int, t) implies false by {
                    match t {
                        DataValue::Int8(x) => { assert(int_bytes((x as i64) as int) == c); },
                        DataValue::Int16(x) => { assert(int_bytes((x as i64) as int) == c); },
                        DataValue::Int32(x) => { assert(int_bytes((x as i64) as int) == c); },
                        DataValue::Int64(x) => { assert(int_bytes((x as i64) as int) == c); },
                        DataValue::Int8u(x) => { assert(int_bytes((x as i64) as int) == c); },
                        DataValue::Int16u(x) => { assert(int_bytes((x as i64) as int) == c); },
                        DataValue::Int32u(x) => { assert(int_bytes((x as i64) as int) == c); },
                        _ => {},
                    }
                }
            }
            return None;
        },
    };
    proof {
        assert forall|t: DataValue| #[trigger] content_is(b@, tag, cs as int, ce as int, t) implies t.is_int_of(
            v as int,
        ) by {
            match t {
                DataValue::Int8(x) => { assert(int_bytes((x as i64) as int) == c); },
                DataValue::Int16(x) => { assert(int_bytes((x as i64) as int) == c); },
                DataValue::Int32(x) => { assert(int_bytes((x as i64) as int) == c); },
                DataValue::Int64(x) => { assert(int_bytes((x as i64) as int) == c); },
                DataValue::Int8u(x) => { assert(int_bytes((x as i64) as int) == c); },
                DataValue::Int16u(x) => { assert(int_bytes((x as i64) as int) == c); },
                DataValue::Int32u(x) => { assert(int_bytes((x as i64) as int) == c); },
                _ => {},
            }
        }
    }
    let d = if tag == 0x85 {
        if -128 <= v && v < 128 {
            IECData::Int8(v as i8)
        } else if -32768 <= v && v < 32768 {
            IECData::Int16(v as i16)
        } else if i32::MIN as i64 <= v && v <= i32::MAX as i64 {
            IECData::Int32(v as i32)
        } else {
            IECData::Int64(v)
        }
    } else {
        if v < 0 || v > u32::MAX as i64 {
            return None;
        }
        if v <= 255 {
            IECData::Int8u(v as u8)
        } else if v <= 65535 {
            IECData::Int16u(v as u16)
        } else {
            IECData::Int32u(v as u32)
        }
    };
    Some(d)
}

/// Decodes a floating-point bit pattern.
fn decode_float_content(b: &[u8], tag: u8, cs: usize, ce: usize) -> (r: Option<IECData>)
    requires
        cs <= ce <= b@.len(),
        ce - cs < 65536,
        tag == 0x87,
    ensures
        r matches Some(d) ==> content_is(b@, tag, cs as int, ce as int, d.model()),
        forall|t: DataValue| #[trigger] content_is(b@, tag, cs as int, ce as int, t) ==> (r matches Some(d)
            && d.model() == t),
    decreases ce - cs, 2int,
{
    let ghost c = b@.subrange(cs as int, ce as int);
    let n = ce - cs;
    if n == 5 && b[cs] == 0x08 {
        let x128 = be_of(b, cs + 1, ce);
        proof {
            lemma_pow256_values();
        }
        let x = x128 as u32;
        let d = IECData::Float32(x);
        proof {
            lemma_pow256_values();
            lemma_be_bytes_of_value(b@.subrange(cs + 1, ce as int));
            assert(c =~= seq![0x08u8] + b@.subrange(cs + 1, ce as int));
            assert forall|t: DataValue| #[trigger] content_is(b@, tag, cs as int, ce as int, t) implies d.model()
                == t by {
                match t {
                    DataValue::Float32(y) => {
                        lemma_be_round_trip(y as nat, 4);
                        assert(be_bytes(y as nat, 4) =~= (seq![0x08u8] + be_bytes(y as nat, 4)).subrange(1, 5));
                        assert(c.subrange(1, 5) =~= b@.subrange(cs + 1, ce as int));
                        assert(x as nat == y as nat);
                    },
                    DataValue::Float64(y) => {
                        lemma_be_round_trip(y as nat, 8);
                    },
                    _ => {},
                }
            }
        }
        Some(d)
    } else if n == 9 && b[cs] == 0x0B {
        let x128 = be_of(b, cs + 1, ce);
        proof {
            lemma_pow256_values();
        }
        let x = x128 as u64;
        let d = IECData::Float64(x);
        proof {
            lemma_pow256_values();
            lemma_be_bytes_of_value(b@.subrange(cs + 1, ce as int));
            assert(c =~= seq![0x0Bu8] + b@.subrange(cs + 1, ce as int));
            assert forall|t: DataValue| #[trigger] content_is(b@, tag, cs as int, ce as int, t) implies d.model()
                == t by {
                match t {
                    DataValue::Float32(y) => {
                        lemma_be_round_trip(y as nat, 4);
                    },
                    DataValue::Float64(y) => {
                        lemma_be_round_trip(y as nat, 8);
                        assert(be_bytes(y as nat, 8) =~= (seq![0x0Bu8] + be_bytes(y as nat, 8)).subrange(1, 9));
                        assert(c.subrange(1, 9) =~= b@.subrange(cs + 1, ce as int));
                        assert(x as nat == y as nat);
                    },
                    _ => {},
                }
            }
        }
        Some(d)
    } else {
        proof {
            assert forall|t: DataValue| #[trigger] content_is(b@, tag, cs as int, ce as int, t) implies false by {
                match t {
                    DataValue::Float32(y) => {
                        lemma_pow256_values();
                        lemma_be_round_trip(y as nat, 4);
                        assert(c[0] == b@[cs as int]);
                        assert((seq![0x08u8] + be_bytes(y as nat, 4))[0] == 0x08);
                    },
                    DataValue::Float64(y) => {
                        lemma_pow256_values();
                        lemma_be_round_trip(y as nat, 8);
                        assert(c[0] == b@[cs as int]);
                        assert((seq![0x0Bu8] + be_bytes(y as nat, 8))[0] == 0x0B);
                    },
                    _ => {},
                }
            }
        }
        None
    }
}

/// Decodes an octet string.
fn decode_octet_string_content(b: &[u8], tag: u8, cs: usize, ce: usize) -> (r: Option<IECData>)
    requires
        cs <= ce <= b@.len(),
        ce - cs < 65536,
        tag == 0x89,
    ensures
        r matches Some(d) ==> content_is(b@, tag, cs as int, ce as int, d.model()),
        forall|t: DataValue| #[trigger] content_is(b@, tag, cs as int, ce as int, t) ==> (r matches Some(d)
            && d.model() == t),
    decreases ce - cs, 2int,
{
    let ghost c = b@.subrange(cs as int, ce as int);
    let n = ce - cs;
    let mut val: Vec<u8> = Vec::new();
    append_range(&mut val, b, cs, ce);
    let d = IECData::OctetString(val);
    proof {
        assert(val@ =~= c);
    }
    Some(d)
}

/// Decodes a visible or MMS string.
fn decode_string_content(b: &[u8], tag: u8, cs: usize, ce: usize) -> (r: Option<IECData>)
    requires
        cs <= ce <= b@.len(),
        ce - cs < 65536,
        tag == 0x8A || tag == 0x90,
    ensures
        r matches Some(d) ==> content_is(b@, tag, cs as int, ce as int, d.model()),
        forall|t: DataValue| #[trigger] content_is(b@, tag, cs as int, ce as int, t) ==> (r matches Some(d)
            && d.model() == t),
    decreases ce - cs, 2int,
{
    let ghost c = b@.subrange(cs as int, ce as int);
    let n = ce - cs;
    let mut bytes: Vec<u8> = Vec::new();
    append_range(&mut bytes, b, cs, ce);
    proof {
        assert(bytes@ =~= c);
        assert forall|t: DataValue| #[trigger] content_is(b@, tag, cs as int, ce as int, t) implies valid_utf8(c) by {
            match t {
                DataValue::VisibleString(x) => { encode_utf8_valid_utf8(x); },
                DataValue::MmsString(x) => { encode_utf8_valid_utf8(x); },
                _ => {},
            }
        }
    }
    let s = match string_from_utf8(bytes) {
        Some(s) => s,
        None => {
            return None;
        },
    };
    let d = if tag == 0x8A {
        IECData::VisibleString(s)
    } else {
        IECData::MmsString(s)
    };
    proof {
        assert forall|t: DataValue| #[trigger] content_is(b@, tag, cs as int, ce as int, t) implies d.model()
            == t by {
            encode_utf8_decode_utf8(s@);
            match t {
                DataValue::VisibleString(x) => { encode_utf8_decode_utf8(x); },
                DataValue::MmsString(x) => { encode_utf8_decode_utf8(x); },
                _ => {},
            }
        }
    }
    Some(d)
}

/// Decodes a time stamp.
fn decode_utc_time_content(b: &[u8], tag: u8, cs: usize, ce: usize) -> (r: Option<IECData>)
    requires
        cs <= ce <= b@.len(),
        ce - cs < 65536,
        tag == 0x91,
    ensures
        r matches Some(d) ==> content_is(b@, tag, cs as int, ce as int, d.model()),
        forall|t: DataValue| #[trigger] content_is(b@, tag, cs as int, ce as int, t) ==> (r matches Some(d)
            && d.model() == t),
    decreases ce - cs, 2int,
{
    let ghost c = b@.subrange(cs as int, ce as int);
    let n = ce - cs;
    if n != 8 {
        return None;
    }
    let t = [b[cs], b[cs + 1], b[cs + 2], b[cs + 3], b[cs + 4], b[cs + 5], b[cs + 6], b[cs + 7]];
    let d = IECData::UtcTime(t);
    proof {
        assert(t@ =~= c);
    }
    Some(d)
}

/// Decodes the content `b[cs..ce]` of a TLV with tag `tag`.
fn decode_content(b: &[u8], tag: u8, cs: usize, ce: usize) -> (r: Option<IECData>)
    requires
        cs <= ce <= b@.len(),
        ce - cs < 65536,
    ensures
        r matches Some(d) ==> content_is(b@, tag, cs as int, ce as int, d.model()),
        forall|t: DataValue| #[trigger] content_is(b@, tag, cs as int, ce as int, t) ==> (r matches Some(d)
            && d.model() == t),
    decreases ce - cs, 3int,
{
    if tag == 0xA1 || tag == 0xA2 {
        decode_list_content(b, tag, cs, ce)
    } else if tag == 0x83 {
        decode_bool_content(b, tag, cs, ce)
    } else if tag == 0x84 {
        decode_bit_string_content(b, tag, cs, ce)
    } else if tag == 0x85 || tag == 0x86 {
        decode_int_content(b, tag, cs, ce)
    } else if tag == 0x87 {
        decode_float_content(b, tag, cs, ce)
    } else if tag == 0x89 {
        decode_octet_string_content(b, tag, cs, ce)
    } else if tag == 0x8A || tag == 0x90 {
        decode_string_content(b, tag, cs, ce)
    } else if tag == 0x91 {
        decode_utc_time_content(b, tag, cs, ce)
    } else {
        None
    }
}

impl DataValue {
    /// An integer variant holding `v`.
    pub open spec fn is_int_of(self, v: int) -> bool {
        match self {
            DataValue::Int8(x) => x as int == v,
            DataValue::Int16(x) => x as int == v,
            DataValue::Int32(x) => x as int == v,
            DataValue::Int64(x) => x as int == v,
            DataValue::Int8u(x) => x as int == v,
            DataValue::Int16u(x) => x as int == v,
            DataValue::Int32u(x) => x as int == v,
            _ => false,
        }
    }
}

/// Decodes one value at `pos`, ending no later than `end`.
pub fn parse_value(b: &[u8], pos: usize, end: usize) -> (r: Option<(IECData, usize)>)
    requires
        end <= b@.len(),
    ensures
        r matches Some((d, p)) ==> wire_value(d.model()) && holds_at(b@, pos as int, end as int, value_bytes(d.model()))
            && p == pos + value_bytes(d.model()).len(),
        forall|t: DataValue|
            wire_value(t) && #[trigger] holds_at(b@, pos as int, end as int, value_bytes(t)) ==> (r matches Some((d, p))
                && d.model() == t && p == pos + value_bytes(t).len()),
    decreases end - pos, 0int,
{
    proof {
        assert forall|t: DataValue| wire_value(t) && #[trigger] holds_at(b@, pos as int, end as int, value_bytes(t)) implies
            value_content(t).len() < 65536 by {
            lemma_wire_content_len(t);
        }
    }
    let (tag, cs, ce) = match read_tlv(b, pos, end) {
        Some(x) => x,
        None => {
            return None;
        },
    };
    proof {
        assert forall|t: DataValue| wire_value(t) && #[trigger] holds_at(b@, pos as int, end as int, value_bytes(t)) implies
            content_is(b@, tag, cs as int, ce as int, t) by {
            lemma_wire_content_len(t);
        }
    }
    match decode_content(b, tag, cs, ce) {
        Some(d) => Some((d, ce)),
        None => None,
    }
}

/// Decodes the values that fill `b[cs..ce]` exactly.
pub fn parse_list(b: &[u8], cs: usize, ce: usize) -> (r: Option<Vec<IECData>>)
    requires
        cs <= ce <= b@.len(),
    ensures
        r matches Some(v) ==> all_wire(models(v@)) && list_bytes(models(v@)) == b@.subrange(cs as int, ce as int),
        forall|t: Seq<DataValue>|
            all_wire(t) && #[trigger] list_bytes(t) == b@.subrange(cs as int, ce as int) ==> (r matches Some(v)
                && models(v@) == t),
    decreases ce - cs, 1int,
{
    let mut items: Vec<IECData> = Vec::new();
    let mut p = cs;
    proof {
        assert(b@.subrange(cs as int, cs as int) =~= Seq::<u8>::empty());
        assert(models(items@) =~= Seq::<DataValue>::empty());
        assert forall|t: Seq<DataValue>| all_wire(t) && #[trigger] list_bytes(t) == b@.subrange(cs as int, ce as int) implies
            t.subrange(0, 0) == models(items@) && b@.subrange(p as int, ce as int) == list_bytes(t.subrange(0, t.len() as int)) by {
            assert(t.subrange(0, t.len() as int) =~= t);
            assert(t.subrange(0, 0) =~= Seq::<DataValue>::empty());
        }
    }
    while p < ce
        invariant
            cs <= p <= ce <= b@.len(),
            all_wire(models(items@)),
            list_bytes(models(items@)) == b@.subrange(cs as int, p as int),
            forall|t: Seq<DataValue>|
                all_wire(t) && #[trigger] list_bytes(t) == b@.subrange(cs as int, ce as int) ==> items@.len() <= t.len()
                    && t.subrange(0, items@.len() as int) == models(items@) && b@.subrange(p as int, ce as int)
                    == list_bytes(t.subrange(items@.len() as int, t.len() as int)),
        decreases ce - p,
    {
        let ghost k = items@.len() as int;
        proof {
            assert forall|t: Seq<DataValue>| all_wire(t) && #[trigger] list_bytes(t) == b@.subrange(cs as int, ce as int) implies
                k < t.len() && holds_at(b@, p as int, ce as int, value_bytes(t[k])) && b@.subrange(
                p + value_bytes(t[k]).len(),
                ce as int,
            ) == list_bytes(t.subrange(k + 1, t.len() as int)) && wire_value(t[k]) by {
                lemma_list_bytes_empty(t.subrange(k, t.len() as int));
                lemma_list_bytes_front(t, k);
                let w = b@.subrange(p as int, ce as int);
                let vb = value_bytes(t[k]);
                assert(w.subrange(0, vb.len() as int) =~= vb);
                assert(b@.subrange(p as int, p + vb.len()) =~= w.subrange(0, vb.len() as int));
                assert(b@.subrange(p + vb.len(), ce as int) =~= w.subrange(vb.len() as int, w.len() as int));
                assert(w.subrange(vb.len() as int, w.len() as int) =~= list_bytes(t.subrange(k + 1, t.len() as int)));
            }
        }
        let (d, np) = match parse_value(b, p, ce) {
            Some(x) => x,
            None => {
                return None;
            },
        };
        proof {
            lemma_models_push(items@, d);
            lemma_list_bytes_push(models(items@), d.model());
            assert(b@.subrange(cs as int, np as int) =~= b@.subrange(cs as int, p as int) + b@.subrange(p as int, np as int));
            assert forall|t: Seq<DataValue>| all_wire(t) && #[trigger] list_bytes(t) == b@.subrange(cs as int, ce as int) implies
                t.subrange(0, k + 1) == models(items@).push(d.model()) by {
                assert(t.subrange(0, k + 1) =~= t.subrange(0, k).push(t[k]));
            }
            lemma_models_index(items@);
            assert forall|i: int| 0 <= i < k + 1 implies wire_value(#[trigger] models(items@).push(d.model())[i]) by {
                if i < k {
                    assert(models(items@).push(d.model())[i] == models(items@)[i]);
                }
            }
        }
        items.push(d);
        p = np;
    }
    proof {
        assert forall|t: Seq<DataValue>| all_wire(t) && #[trigger] list_bytes(t) == b@.subrange(cs as int, ce as int) implies
            models(items@) == t by {
            assert(b@.subrange(p as int, ce as int) =~= Seq::<u8>::empty());
            lemma_list_bytes_empty(t.subrange(items@.len() as int, t.len() as int));
            assert(t.subrange(0, t.len() as int) =~= t);
        }
    }
    Some(items)
}

/// A value in wire form also fits the format.
pub proof fn lemma_wire_fits(d: DataValue)
    requires
        wire_value(d),
    ensures
        value_fits(d),
    decreases d,
{
    match d {
        DataValue::Array(s) => {
            assert forall|i: int| 0 <= i < s.len() implies value_fits(#[trigger] s[i]) by {
                lemma_wire_fits(s[i]);
            }
        },
        DataValue::Structure(s) => {
            assert forall|i: int| 0 <= i < s.len() implies value_fits(#[trigger] s[i]) by {
                lemma_wire_fits(s[i]);
            }
        },
        _ => {
            lemma_wire_content_len(d);
        },
    }
}

pub proof fn lemma_all_wire_fit(s: Seq<DataValue>)
    requires
        all_wire(s),
    ensures
        all_fit(s),
{
    assert forall|i: int| 0 <= i < s.len() implies value_fits(#[trigger] s[i]) by {
        lemma_wire_fits(s[i]);
    }
}

} // verus!
