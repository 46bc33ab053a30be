//! BER building blocks of the GOOSE wire format: tag-length-value framing,
//! minimal two's-complement integers and fixed-width big-endian numbers.

use vstd::prelude::*;
use vstd::arithmetic::div_mod::lemma_fundamental_div_mod_converse;
use vstd::arithmetic::div_mod::lemma_fundamental_div_mod;

verus! {

/// `256^n`.
pub open spec fn pow256(n: nat) -> nat
    decreases n,
{
    if n == 0 {
        1
    } else {
        256 * pow256((n - 1) as nat)
    }
}

/// The unsigned big-endian number that `s` spells.
pub open spec fn be_value(s: Seq<u8>) -> nat
    decreases s.len(),
{
    if s.len() == 0 {
        0
    } else {
        be_value(s.drop_last()) * 256 + s.last() as nat
    }
}

/// The `n` low-order bytes of `x`, most significant first.
pub open spec fn be_bytes(x: nat, n: nat) -> Seq<u8>
    decreases n,
{
    if n == 0 {
        Seq::empty()
    } else {
        be_bytes(x / 256, (n - 1) as nat) + seq![(x % 256) as u8]
    }
}

pub open spec fn abs(v: int) -> int {
    if v < 0 {
        -v
    } else {
        v
    }
}

/// Minimal two's-complement BER content octets of the integer `v`.
pub open spec fn int_bytes(v: int) -> Seq<u8>
    decreases abs(v),
{
    if -128 <= v < 128 {
        seq![(v % 256) as u8]
    } else {
        int_bytes(v / 256) + seq![(v % 256) as u8]
    }
}

/// The integer that two's-complement content octets `s` denote.
pub open spec fn signed_value(s: Seq<u8>) -> int {
    if s.len() > 0 && s[0] >= 128 {
        be_value(s) - pow256(s.len())
    } else {
        be_value(s) as int
    }
}

/// BER definite length octets for a content length below 65536.
pub open spec fn len_bytes(n: nat) -> Seq<u8> {
    if n < 128 {
        seq![n as u8]
    } else if n < 256 {
        seq![0x81u8, n as u8]
    } else {
        seq![0x82u8, (n / 256) as u8, (n % 256) as u8]
    }
}

/// A tag-length-value triple.
pub open spec fn tlv(tag: u8, c: Seq<u8>) -> Seq<u8> {
    seq![tag] + len_bytes(c.len()) + c
}

/// `b[pos..]` starts with `s`, and `s` ends no later than `end`.
pub open spec fn holds_at(b: Seq<u8>, pos: int, end: int, s: Seq<u8>) -> bool {
    0 <= pos && pos + s.len() <= end && end <= b.len() && b.subrange(pos, pos + s.len()) == s
}

pub proof fn lemma_pow256_pos(n: nat)
    ensures
        pow256(n) >= 1,
    decreases n,
{
    if n > 0 {
        lemma_pow256_pos((n - 1) as nat);
    }
}

pub proof fn lemma_be_value_bound(s: Seq<u8>)
    ensures
        be_value(s) < pow256(s.len()),
    decreases s.len(),
{
    if s.len() > 0 {
        lemma_be_value_bound(s.drop_last());
        let a = be_value(s.drop_last());
        let p = pow256((s.len() - 1) as nat);
        let l = s.last() as nat;
        assert(a * 256 + l < 256 * p) by (nonlinear_arith)
            requires
                a < p,
                l < 256,
        ;
    }
}

pub proof fn lemma_be_value_push(s: Seq<u8>, b: u8)
    ensures
        be_value(s.push(b)) == be_value(s) * 256 + b as nat,
{
    assert(s.push(b).drop_last() =~= s);
}

pub proof fn lemma_be_bytes_len(x: nat, n: nat)
    ensures
        be_bytes(x, n).len() == n,
    decreases n,
{
    if n > 0 {
        lemma_be_bytes_len(x / 256, (n - 1) as nat);
    }
}

/// Reading back fixed-width big-endian bytes gives the number.
pub proof fn lemma_be_round_trip(x: nat, n: nat)
    requires
        x < pow256(n),
    ensures
        be_value(be_bytes(x, n)) == x,
        be_bytes(x, n).len() == n,
    decreases n,
{
    lemma_be_bytes_len(x, n);
    if n > 0 {
        let q = x / 256;
        let r = x % 256;
        lemma_fundamental_div_mod(x as int, 256);
        assert(q < pow256((n - 1) as nat)) by (nonlinear_arith)
            requires
                x < 256 * pow256((n - 1) as nat),
                q == x / 256,
        ;
        lemma_be_round_trip(q, (n - 1) as nat);
        lemma_be_value_push(be_bytes(q, (n - 1) as nat), r as u8);
        assert(be_bytes(x, n) =~= be_bytes(q, (n - 1) as nat).push(r as u8));
    } else {
        assert(x == 0);
    }
}

/// Fixed-width bytes are recovered from the number they spell.
pub proof fn lemma_be_bytes_of_value(s: Seq<u8>)
    ensures
        be_bytes(be_value(s), s.len()) == s,
    decreases s.len(),
{
    if s.len() > 0 {
        let a = be_value(s.drop_last());
        let l = s.last() as int;
        lemma_fundamental_div_mod_converse(a * 256 + l, 256, a as int, l);
        lemma_be_bytes_of_value(s.drop_last());
        assert(be_bytes(be_value(s), s.len()) =~= s.drop_last() + seq![s.last()]);
        assert(s.drop_last() + seq![s.last()] =~= s);
    }
}

/// `v = 256 * q + r` with `q` the floored quotient and `r` in `0..256`.
pub proof fn lemma_div256(v: int)
    ensures
        v == 256 * (v / 256) + v % 256,
        0 <= v % 256 < 256,
        abs(v) >= 128 ==> abs(v / 256) < abs(v),
{
    lemma_fundamental_div_mod(v, 256);
    let q = v / 256;
    let r = v % 256;
    if abs(v) >= 128 {
        if v >= 0 {
            assert(q < v) by (nonlinear_arith)
                requires
                    v == 256 * q + r,
                    0 <= r < 256,
                    v >= 128,
            ;
            assert(q >= 0) by (nonlinear_arith)
                requires
                    v == 256 * q + r,
                    0 <= r < 256,
                    v >= 128,
            ;
        } else {
            assert(q < 0 && -q < -v) by (nonlinear_arith)
                requires
                    v == 256 * q + r,
                    0 <= r < 256,
                    v <= -128,
            ;
        }
    }
}

pub proof fn lemma_int_bytes_unfold(v: int)
    ensures
        int_bytes(v).len() >= 1,
        !(-128 <= v < 128) ==> int_bytes(v) == int_bytes(v / 256) + seq![(v % 256) as u8],
        -128 <= v < 128 ==> int_bytes(v) == seq![(v % 256) as u8],
        (int_bytes(v)[0] >= 128) == (v < 0),
    decreases abs(v),
{
    lemma_div256(v);
    if !(-128 <= v < 128) {
        lemma_int_bytes_unfold(v / 256);
        assert((v / 256 < 0) == (v < 0)) by (nonlinear_arith)
            requires
                v == 256 * (v / 256) + v % 256,
                0 <= v % 256 < 256,
        ;
    }
}

/// Minimal two's-complement octets read back as the integer they encode.
pub proof fn lemma_int_round_trip(v: int)
    ensures
        signed_value(int_bytes(v)) == v,
    decreases abs(v),
{
    lemma_div256(v);
    lemma_int_bytes_unfold(v);
    let r = v % 256;
    if -128 <= v < 128 {
        assert(be_value(seq![r as u8]) == r) by {
            assert(seq![r as u8].drop_last() =~= Seq::<u8>::empty());
            assert(be_value(Seq::<u8>::empty()) == 0);
        }
        lemma_pow256_values();
        if v < 0 {
            assert(r == v + 256) by (nonlinear_arith)
                requires
                    v == 256 * (v / 256) + r,
                    0 <= r < 256,
                    -128 <= v < 0,
            ;
        } else {
            assert(r == v) by (nonlinear_arith)
                requires
                    v == 256 * (v / 256) + r,
                    0 <= r < 256,
                    0 <= v < 128,
            ;
        }
    } else {
        let q = v / 256;
        let iq = int_bytes(q);
        lemma_int_round_trip(q);
        lemma_int_bytes_unfold(q);
        lemma_be_value_push(iq, r as u8);
        let s = iq.push(r as u8);
        assert(int_bytes(v) =~= s);
        assert(s[0] == iq[0]);
        let n = iq.len();
        assert(pow256(n + 1) == 256 * pow256(n));
        let f: int = if iq[0] >= 128 { 1 } else { 0 };
        assert(signed_value(iq) == be_value(iq) - f * pow256(n));
        assert(signed_value(s) == be_value(s) - f * pow256(n + 1));
        assert(be_value(s) - f * pow256(n + 1) == 256 * (be_value(iq) - f * pow256(n)) + r)
            by (nonlinear_arith)
            requires
                be_value(s) == be_value(iq) * 256 + r,
                pow256(n + 1) == 256 * pow256(n),
        ;
    }
}

/// Content octets of an integer in `-128 * 256^k .. 128 * 256^k` number at most `k + 1`.
pub proof fn lemma_int_bytes_len_bound(v: int, k: nat)
    requires
        -128 * pow256(k) <= v < 128 * pow256(k),
    ensures
        int_bytes(v).len() <= k + 1,
    decreases k,
{
    lemma_int_bytes_unfold(v);
    lemma_div256(v);
    if !(-128 <= v < 128) {
        if k == 0 {
            assert(false);
        } else {
            let p = pow256((k - 1) as nat);
            assert(-128 * p <= v / 256 < 128 * p) by (nonlinear_arith)
                requires
                    -128 * (256 * p) <= v < 128 * (256 * p),
                    v == 256 * (v / 256) + v % 256,
                    0 <= v % 256 < 256,
            ;
            lemma_int_bytes_len_bound(v / 256, (k - 1) as nat);
        }
    }
}

pub proof fn lemma_pow256_values()
    ensures
        pow256(0) == 1,
        pow256(1) == 256,
        pow256(2) == 65536,
        pow256(3) == 0x100_0000,
        pow256(4) == 0x1_0000_0000,
        pow256(5) == 0x100_0000_0000,
        pow256(6) == 0x1_0000_0000_0000,
        pow256(7) == 0x100_0000_0000_0000,
        pow256(8) == 0x1_0000_0000_0000_0000,
        pow256(9) == 0x100_0000_0000_0000_0000,
{
    reveal_with_fuel(pow256, 10);
}

/// Every 64-bit integer takes one to eight content octets; a 32-bit unsigned one at most five.
pub proof fn lemma_int_bytes_len(v: int)
    requires
        i64::MIN <= v <= i64::MAX,
    ensures
        1 <= int_bytes(v).len() <= 8,
        0 <= v <= u32::MAX ==> int_bytes(v).len() <= 5,
{
    lemma_pow256_values();
    lemma_int_bytes_unfold(v);
    lemma_int_bytes_len_bound(v, 7);
    if 0 <= v <= u32::MAX {
        lemma_int_bytes_len_bound(v, 4);
    }
}

// ---------------------------------------------------------------------------
// Executable encoders and decoders.

/// Appends the bytes `b[from..to]`.
pub fn append_range(out: &mut Vec<u8>, b: &[u8], from: usize, to: usize)
    requires
        from <= to <= b@.len(),
    ensures
        final(out)@ == old(out)@ + b@.subrange(from as int, to as int),
{
    let mut i = from;
    while i < to
        invariant
            from <= i <= to <= b@.len(),
            out@ == old(out)@ + b@.subrange(from as int, i as int),
        decreases to - i,
    {
        out.push(b[i]);
        i = i + 1;
        assert(out@ =~= old(out)@ + b@.subrange(from as int, i as int));
    }
}

/// Whether `a` equals `b[from..to]`.
pub fn bytes_match(a: &Vec<u8>, b: &[u8], from: usize, to: usize) -> (r: bool)
    requires
        from <= to <= b@.len(),
    ensures
        r == (a@ == b@.subrange(from as int, to as int)),
{
    if a.len() != to - from {
        return false;
    }
    let mut i: usize = 0;
    while i < a.len()
        invariant
            a@.len() == to - from,
            from <= to <= b@.len(),
            forall|j: int| 0 <= j < i ==> a@[j] == b@[from + j],
        decreases a.len() - i,
    {
        if a[i] != b[from + i] {
            return false;
        }
        i = i + 1;
    }
    assert(a@ =~= b@.subrange(from as int, to as int));
    true
}

/// Appends BER length octets.
pub fn push_len(out: &mut Vec<u8>, n: usize)
    requires
        n < 65536,
    ensures
        final(out)@ == old(out)@ + len_bytes(n as nat),
{
    if n < 128 {
        out.push(n as u8);
    } else if n < 256 {
        out.push(0x81);
        out.push(n as u8);
    } else {
        out.push(0x82);
        out.push((n / 256) as u8);
        out.push((n % 256) as u8);
    }
    assert(final(out)@ =~= old(out)@ + len_bytes(n as nat));
}

/// Reads BER length octets at `pos`; gives the length and the position after them.
pub fn read_len(b: &[u8], pos: usize, end: usize) -> (r: Option<(usize, usize)>)
    requires
        end <= b@.len(),
    ensures
        r matches Some((n, p)) ==> n < 65536 && pos < p <= end && holds_at(b@, pos as int, end as int, len_bytes(n as nat))
            && p == pos + len_bytes(n as nat).len(),
        forall|n: nat|
            n < 65536 && #[trigger] holds_at(b@, pos as int, end as int, len_bytes(n)) ==> r == Some(
                (n as usize, (pos + len_bytes(n).len()) as usize),
            ),
{
    if pos >= end {
        return None;
    }
    let first = b[pos];
    if first < 128 {
        proof {
            assert forall|n: nat| n < 65536 && #[trigger] holds_at(b@, pos as int, end as int, len_bytes(n)) implies n == first as nat by {
                assert(b@.subrange(pos as int, pos + len_bytes(n).len())[0] == b@[pos as int]);
            }
            assert(b@.subrange(pos as int, pos + 1) =~= len_bytes(first as nat));
        }
        Some((first as usize, pos + 1))
    } else if first == 0x81 {
        if end - pos < 2 || b[pos + 1] < 128 {
            proof {
                assert forall|n: nat| n < 65536 && #[trigger] holds_at(b@, pos as int, end as int, len_bytes(n)) implies false by {
                    let s = b@.subrange(pos as int, pos + len_bytes(n).len());
                    assert(s[0] == b@[pos as int]);
                    if len_bytes(n).len() >= 2 {
                        assert(s[1] == b@[pos + 1]);
                    }
                }
            }
            return None;
        }
        let n = b[pos + 1] as usize;
        proof {
            assert forall|m: nat| m < 65536 && #[trigger] holds_at(b@, pos as int, end as int, len_bytes(m)) implies m == n by {
                let s = b@.subrange(pos as int, pos + len_bytes(m).len());
                assert(s[0] == b@[pos as int]);
                assert(s[1] == b@[pos + 1]);
            }
            assert(b@.subrange(pos as int, pos + 2) =~= len_bytes(n as nat));
        }
        Some((n, pos + 2))
    } else if first == 0x82 {
        if end - pos < 3 || b[pos + 1] == 0 {
            proof {
                assert forall|n: nat| n < 65536 && #[trigger] holds_at(b@, pos as int, end as int, len_bytes(n)) implies false by {
                    let s = b@.subrange(pos as int, pos + len_bytes(n).len());
                    assert(s[0] == b@[pos as int]);
                    if len_bytes(n).len() == 3 {
                        assert(s[1] == b@[pos + 1]);
                        assert(n / 256 >= 1);
                    }
                }
            }
            return None;
        }
        let n = (b[pos + 1] as usize) * 256 + b[pos + 2] as usize;
        proof {
            lemma_fundamental_div_mod_converse(n as int, 256, b@[pos + 1] as int, b@[pos + 2] as int);
            assert forall|m: nat| m < 65536 && #[trigger] holds_at(b@, pos as int, end as int, len_bytes(m)) implies m == n by {
                let s = b@.subrange(pos as int, pos + len_bytes(m).len());
                assert(s[0] == b@[pos as int]);
                assert(s[1] == b@[pos + 1]);
                assert(s[2] == b@[pos + 2]);
                lemma_fundamental_div_mod(m as int, 256);
            }
            assert(b@.subrange(pos as int, pos + 3) =~= len_bytes(n as nat));
        }
        Some((n, pos + 3))
    } else {
        proof {
            assert forall|n: nat| n < 65536 && #[trigger] holds_at(b@, pos as int, end as int, len_bytes(n)) implies false by {
                let s = b@.subrange(pos as int, pos + len_bytes(n).len());
                assert(s[0] == b@[pos as int]);
            }
        }
        None
    }
}

pub proof fn lemma_pow256_mono(a: nat, b: nat)
    requires
        a <= b,
    ensures
        pow256(a) <= pow256(b),
    decreases b,
{
    if a < b {
        lemma_pow256_mono(a, (b - 1) as nat);
        lemma_pow256_pos((b - 1) as nat);
    }
}

/// Appends the minimal two's-complement octets of `v`.
pub fn push_int(out: &mut Vec<u8>, v: i64)
    ensures
        final(out)@ == old(out)@ + int_bytes(v as int),
    decreases abs(v as int),
{
    proof {
        lemma_int_bytes_unfold(v as int);
        lemma_div256(v as int);
    }
    if -128 <= v && v < 128 {
        let b: u8 = if v >= 0 {
            v as u8
        } else {
            (v + 256) as u8
        };
        proof {
            if v < 0 {
                lemma_fundamental_div_mod_converse(v as int, 256, -1, v + 256);
            } else {
                lemma_fundamental_div_mod_converse(v as int, 256, 0, v as int);
            }
        }
        out.push(b);
        assert(final(out)@ =~= old(out)@ + int_bytes(v as int));
    } else {
        let q: i64;
        let r: u8;
        if v >= 0 {
            let u = v as u64;
            q = (u / 256) as i64;
            r = (u % 256) as u8;
            proof {
                lemma_fundamental_div_mod(u as int, 256);
                lemma_fundamental_div_mod_converse(v as int, 256, q as int, r as int);
            }
        } else {
            let w = (-(v + 1)) as u64;
            q = -((w / 256) as i64) - 1;
            r = (255 - w % 256) as u8;
            proof {
                lemma_fundamental_div_mod(w as int, 256);
                lemma_fundamental_div_mod_converse(v as int, 256, q as int, r as int);
            }
        }
        push_int(out, q);
        out.push(r);
        assert(final(out)@ =~= old(out)@ + int_bytes(v as int));
    }
}

/// The big-endian number spelled by `b[cs..ce]`, at most eight bytes.
pub fn be_of(b: &[u8], cs: usize, ce: usize) -> (r: u128)
    requires
        cs <= ce <= b@.len(),
        ce - cs <= 8,
    ensures
        r == be_value(b@.subrange(cs as int, ce as int)),
        r < pow256((ce - cs) as nat),
{
    let mut acc: u128 = 0;
    let mut i = cs;
    proof {
        lemma_pow256_values();
        assert(b@.subrange(cs as int, cs as int) =~= Seq::<u8>::empty());
    }
    while i < ce
        invariant
            cs <= i <= ce <= b@.len(),
            ce - cs <= 8,
            acc == be_value(b@.subrange(cs as int, i as int)),
            acc < pow256((i - cs) as nat),
            pow256(8) == 0x1_0000_0000_0000_0000,
        decreases ce - i,
    {
        proof {
            lemma_pow256_mono((i - cs) as nat, 7);
            lemma_pow256_values();
            lemma_be_value_push(b@.subrange(cs as int, i as int), b@[i as int]);
            assert(b@.subrange(cs as int, i + 1) =~= b@.subrange(cs as int, i as int).push(b@[i as int]));
        }
        acc = acc * 256 + b[i] as u128;
        i = i + 1;
        proof {
            lemma_be_value_bound(b@.subrange(cs as int, i as int));
        }
    }
    acc
}

/// Reads minimal two's-complement content octets `b[cs..ce]` as a 64-bit integer.
pub fn read_int(b: &[u8], cs: usize, ce: usize) -> (r: Option<i64>)
    requires
        cs <= ce <= b@.len(),
    ensures
        r matches Some(v) ==> b@.subrange(cs as int, ce as int) == int_bytes(v as int),
        forall|v: i64| #[trigger] int_bytes(v as int) == b@.subrange(cs as int, ce as int) ==> r == Some(v),
{
    let n = ce - cs;
    if n == 0 || n > 8 {
        proof {
            assert forall|v: i64| #[trigger] int_bytes(v as int) == b@.subrange(cs as int, ce as int) implies false by {
                lemma_int_bytes_len(v as int);
            }
        }
        return None;
    }
    let acc = be_of(b, cs, ce);
    let mut pw: u128 = 1;
    let mut k: usize = 0;
    proof {
        lemma_pow256_values();
    }
    while k < n
        invariant
            k <= n <= 8,
            pw == pow256(k as nat),
            pow256(8) == 0x1_0000_0000_0000_0000,
        decreases n - k,
    {
        proof {
            lemma_pow256_mono(k as nat, 7);
            lemma_pow256_values();
        }
        pw = pw * 256;
        k = k + 1;
    }
    let v128: i128 = if b[cs] >= 128 {
        acc as i128 - pw as i128
    } else {
        acc as i128
    };
    assert(v128 == signed_value(b@.subrange(cs as int, ce as int)));
    if v128 < i64::MIN as i128 || v128 > i64::MAX as i128 {
        proof {
            assert forall|v: i64| #[trigger] int_bytes(v as int) == b@.subrange(cs as int, ce as int) implies false by {
                lemma_int_round_trip(v as int);
            }
        }
        return None;
    }
    let v = v128 as i64;
    let mut tmp: Vec<u8> = Vec::new();
    push_int(&mut tmp, v);
    assert(tmp@ =~= int_bytes(v as int));
    if bytes_match(&tmp, b, cs, ce) {
        proof {
            assert forall|x: i64| #[trigger] int_bytes(x as int) == b@.subrange(cs as int, ce as int) implies x == v by {
                lemma_int_round_trip(x as int);
            }
        }
        Some(v)
    } else {
        proof {
            assert forall|x: i64| #[trigger] int_bytes(x as int) == b@.subrange(cs as int, ce as int) implies false by {
                lemma_int_round_trip(x as int);
            }
        }
        None
    }
}

/// Appends the `n` low-order bytes of `x`, most significant first.
pub fn push_be(out: &mut Vec<u8>, x: u64, n: usize)
    ensures
        final(out)@ == old(out)@ + be_bytes(x as nat, n as nat),
    decreases n,
{
    if n > 0 {
        push_be(out, x / 256, n - 1);
        out.push((x % 256) as u8);
    }
    assert(final(out)@ =~= old(out)@ + be_bytes(x as nat, n as nat));
}

} // verus!
