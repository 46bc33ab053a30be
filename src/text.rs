//! Parsing of the text fields of the configuration: MAC addresses, hex and
//! decimal numbers. All of it works on the UTF-8 bytes of the text; the
//! characters it looks for are ASCII, which UTF-8 never uses inside a
//! multi-byte character.

use vstd::prelude::*;
use vstd::utf8::*;

verus! {

pub open spec fn is_hex(b: u8) -> bool {
    (0x30 <= b <= 0x39) || (0x41 <= b <= 0x46) || (0x61 <= b <= 0x66)
}

pub open spec fn hex_val(b: u8) -> int {
    if 0x30 <= b <= 0x39 {
        b - 0x30
    } else if 0x41 <= b <= 0x46 {
        b - 0x41 + 10
    } else {
        b - 0x61 + 10
    }
}

pub open spec fn is_digit(b: u8, radix: int) -> bool {
    if radix == 16 {
        is_hex(b)
    } else {
        0x30 <= b <= 0x39
    }
}

/// A separator between MAC address octets.
pub open spec fn is_sep(b: u8) -> bool {
    b == 0x3A || b == 0x2D || b == 0x2E
}

pub open spec fn count_seps(s: Seq<u8>) -> nat
    decreases s.len(),
{
    if s.len() == 0 {
        0
    } else {
        count_seps(s.drop_last()) + if is_sep(s.last()) { 1nat } else { 0nat }
    }
}

/// The hex digits of `s`, in order.
pub open spec fn hex_only(s: Seq<u8>) -> Seq<u8>
    decreases s.len(),
{
    if s.len() == 0 {
        Seq::empty()
    } else if is_hex(s.last()) {
        hex_only(s.drop_last()).push(s.last())
    } else {
        hex_only(s.drop_last())
    }
}

/// The octet spelled by the two hex digits at `i`.
pub open spec fn octet_at(s: Seq<u8>, i: int) -> u8 {
    (16 * hex_val(s[i]) + hex_val(s[i + 1])) as u8
}

/// Six two-digit groups joined by single separators: `01:0C:CD:01:00:01`.
pub open spec fn grouped_form(s: Seq<u8>) -> bool {
    &&& s.len() == 17
    &&& forall|i: int| 0 <= i < 17 && i % 3 == 2 ==> is_sep(#[trigger] s[i])
    &&& forall|i: int| 0 <= i < 17 && i % 3 != 2 ==> is_hex(#[trigger] s[i])
}

/// The MAC address that `s` spells. With exactly five separators `s` must be
/// six two-digit groups; otherwise its hex digits, ignoring everything else,
/// must number twelve.
pub open spec fn mac_of(s: Seq<u8>) -> Option<Seq<u8>> {
    if count_seps(s) == 5 {
        if grouped_form(s) {
            Some(Seq::new(6, |i: int| octet_at(s, 3 * i)))
        } else {
            None
        }
    } else {
        let h = hex_only(s);
        if h.len() == 12 {
            Some(Seq::new(6, |i: int| octet_at(h, 2 * i)))
        } else {
            None
        }
    }
}

/// The number that the digits `s` spell in `radix`.
pub open spec fn digits_value(s: Seq<u8>, radix: int) -> int
    decreases s.len(),
{
    if s.len() == 0 {
        0
    } else {
        digits_value(s.drop_last(), radix) * radix + hex_val(s.last())
    }
}

/// The unsigned number that `s` spells in `radix`, as Rust's integer parsing
/// reads it: an optional `+`, then at least one digit and nothing else.
pub open spec fn unsigned_of(s: Seq<u8>, radix: int) -> Option<int> {
    if digits_part(s).len() > 0 && (forall|i: int| 0 <= i < digits_part(s).len() ==> is_digit(#[trigger] digits_part(s)[i], radix)) {
        Some(digits_value(digits_part(s), radix))
    } else {
        None
    }
}

/// `s` without one leading `+`.
pub open spec fn digits_part(s: Seq<u8>) -> Seq<u8> {
    if s.len() > 0 && s[0] == 0x2B {
        s.subrange(1, s.len() as int)
    } else {
        s
    }
}

/// `s` without its leading and trailing double quotes.
pub open spec fn unquoted(s: Seq<u8>) -> Seq<u8>
    decreases s.len(),
{
    if s.len() > 0 && s[0] == 0x22 {
        unquoted(s.subrange(1, s.len() as int))
    } else if s.len() > 0 && s.last() == 0x22 {
        unquoted(s.drop_last())
    } else {
        s
    }
}

/// `s` without every leading `0x`.
pub open spec fn without_hex_prefixes(s: Seq<u8>) -> Seq<u8>
    decreases s.len(),
{
    if s.len() >= 2 && s[0] == 0x30 && s[1] == 0x78 {
        without_hex_prefixes(s.subrange(2, s.len() as int))
    } else {
        s
    }
}

/// `s` without one leading `0x`, if it has one.
pub open spec fn without_hex_prefix(s: Seq<u8>) -> Seq<u8> {
    if s.len() >= 2 && s[0] == 0x30 && s[1] == 0x78 {
        s.subrange(2, s.len() as int)
    } else {
        s
    }
}

/// A character with the Unicode `White_Space` property, which is what
/// `char::is_whitespace` tests.
pub open spec fn is_white_space(c: char) -> bool {
    let u = c as u32;
    (0x09 <= u <= 0x0D) || u == 0x20 || u == 0x85 || u == 0xA0 || u == 0x1680 || (0x2000 <= u <= 0x200A)
        || u == 0x2028 || u == 0x2029 || u == 0x202F || u == 0x205F || u == 0x3000
}

/// `s` without leading and trailing white space.
pub open spec fn trimmed(s: Seq<char>) -> Seq<char>
    decreases s.len(),
{
    if s.len() > 0 && is_white_space(s[0]) {
        trimmed(s.subrange(1, s.len() as int))
    } else if s.len() > 0 && is_white_space(s.last()) {
        trimmed(s.drop_last())
    } else {
        s
    }
}

/// Relies on `str::trim`: leading and trailing white space (Unicode
/// `White_Space`) removed.
#[verifier::external_body]
pub(crate) fn trim_str(s: &str) -> (r: &str)
    ensures
        r@ == trimmed(s@),
{
    s.trim()
}

/// What `str::to_lowercase` makes of `s`.
pub uninterp spec fn lower_of(s: Seq<char>) -> Seq<char>;

/// Relies on `str::to_lowercase`: the result depends on the characters alone.
#[verifier::external_body]
pub(crate) fn lowercase(s: &str) -> (r: String)
    ensures
        r@ == lower_of(s@),
{
    s.to_lowercase()
}

/// Relies on `String::push`: appends one character.
#[verifier::external_body]
pub(crate) fn push_char(s: &mut String, c: char)
    ensures
        final(s)@ == old(s)@.push(c),
{
    s.push(c)
}

// ---------------------------------------------------------------------------

fn hex_value(b: u8) -> (r: u8)
    requires
        is_hex(b),
    ensures
        r == hex_val(b),
        r < 16,
{
    if b <= 0x39 {
        b - 0x30
    } else if b <= 0x46 {
        b - 0x41 + 10
    } else {
        b - 0x61 + 10
    }
}

fn is_hex_byte(b: u8) -> (r: bool)
    ensures
        r == is_hex(b),
{
    (0x30 <= b && b <= 0x39) || (0x41 <= b && b <= 0x46) || (0x61 <= b && b <= 0x66)
}

fn is_sep_byte(b: u8) -> (r: bool)
    ensures
        r == is_sep(b),
{
    b == 0x3A || b == 0x2D || b == 0x2E
}

/// Parses a MAC address from the bytes `b` (see `mac_of`).
pub fn mac_from_bytes(b: &[u8]) -> (r: Option<[u8; 6]>)
    ensures
        r is Some == mac_of(b@) is Some,
        r matches Some(m) ==> m@ == mac_of(b@)->Some_0,
{
    let mut seps: usize = 0;
    let mut hex: Vec<u8> = Vec::new();
    let mut i: usize = 0;
    while i < b.len()
        invariant
            i <= b@.len(),
            seps == count_seps(b@.subrange(0, i as int)),
            hex@ == hex_only(b@.subrange(0, i as int)),
            forall|j: int| 0 <= j < hex@.len() ==> is_hex(#[trigger] hex@[j]),
            seps <= i,
        decreases b@.len() - i,
    {
        proof {
            assert(b@.subrange(0, i + 1).drop_last() =~= b@.subrange(0, i as int));
        }
        if is_sep_byte(b[i]) {
            seps = seps + 1;
        }
        if is_hex_byte(b[i]) {
            hex.push(b[i]);
        }
        i = i + 1;
    }
    proof {
        assert(b@.subrange(0, b@.len() as int) =~= b@);
    }
    if seps == 5 {
        if b.len() != 17 {
            return None;
        }
        let mut k: usize = 0;
        while k < 17
            invariant
                b@.len() == 17,
                count_seps(b@) == 5,
                k <= 17,
                forall|j: int| 0 <= j < k && j % 3 == 2 ==> is_sep(#[trigger] b@[j]),
                forall|j: int| 0 <= j < k && j % 3 != 2 ==> is_hex(#[trigger] b@[j]),
            decreases 17 - k,
        {
            let ok = if k % 3 == 2 { is_sep_byte(b[k]) } else { is_hex_byte(b[k]) };
            if !ok {
                proof {
                    if grouped_form(b@) {
                        if k % 3 == 2 {
                            assert(is_sep(b@[k as int]));
                        } else {
                            assert(is_hex(b@[k as int]));
                        }
                    }
                }
                return None;
            }
            k = k + 1;
        }
        let mut m = [0u8; 6];
        let mut g: usize = 0;
        while g < 6
            invariant
                grouped_form(b@),
                count_seps(b@) == 5,
                g <= 6,
                forall|j: int| 0 <= j < g ==> m@[j] == octet_at(b@, 3 * j),
            decreases 6 - g,
        {
            assert(3 * g % 3 == 0 && (3 * g + 1) % 3 == 1);
            let hi = hex_value(b[3 * g]);
            let lo = hex_value(b[3 * g + 1]);
            m[g] = 16 * hi + lo;
            g = g + 1;
        }
        assert(m@ =~= Seq::new(6, |i: int| octet_at(b@, 3 * i)));
        Some(m)
    } else {
        if hex.len() != 12 {
            return None;
        }
        let mut m = [0u8; 6];
        let mut g: usize = 0;
        while g < 6
            invariant
                hex@.len() == 12,
                hex@ == hex_only(b@),
                count_seps(b@) != 5,
                forall|j: int| 0 <= j < 12 ==> is_hex(#[trigger] hex@[j]),
                g <= 6,
                forall|j: int| 0 <= j < g ==> m@[j] == octet_at(hex@, 2 * j),
            decreases 6 - g,
        {
            let hi = hex_value(hex[2 * g]);
            let lo = hex_value(hex[2 * g + 1]);
            m[g] = 16 * hi + lo;
            g = g + 1;
        }
        assert(m@ =~= Seq::new(6, |i: int| octet_at(hex@, 2 * i)));
        Some(m)
    }
}

pub proof fn lemma_digits_value_grows(s: Seq<u8>, k: int, radix: int)
    requires
        0 <= k <= s.len(),
        radix == 10 || radix == 16,
        forall|i: int| 0 <= i < s.len() ==> is_digit(#[trigger] s[i], radix),
    ensures
        digits_value(s, radix) >= digits_value(s.subrange(0, k), radix),
        digits_value(s, radix) >= 0,
    decreases s.len(),
{
    if s.len() > 0 {
        let p = s.drop_last();
        assert forall|i: int| 0 <= i < p.len() implies is_digit(#[trigger] p[i], radix) by {
            assert(p[i] == s[i]);
        }
        if k == s.len() {
            assert(s.subrange(0, k) =~= s);
            lemma_digits_value_grows(p, 0, radix);
        } else {
            lemma_digits_value_grows(p, k, radix);
            assert(p.subrange(0, k) =~= s.subrange(0, k));
        }
        let v = digits_value(p, radix);
        assert(v * radix >= v) by (nonlinear_arith)
            requires
                v >= 0,
                radix >= 1,
        ;
    }
}

pub proof fn lemma_unsigned_of_digits(s: Seq<u8>, d: Seq<u8>, radix: int)
    requires
        d == digits_part(s),
        d.len() > 0,
    ensures
        (forall|i: int| 0 <= i < d.len() ==> is_digit(#[trigger] d[i], radix)) ==> unsigned_of(s, radix) == Some(
            digits_value(d, radix),
        ),
        !(forall|i: int| 0 <= i < d.len() ==> is_digit(#[trigger] d[i], radix)) ==> unsigned_of(s, radix) is None,
{
}

/// Parses `b` as an unsigned number in `radix` (10 or 16) no larger than `max`.
pub fn parse_unsigned(b: &[u8], radix: u64, max: u64) -> (r: Option<u64>)
    requires
        radix == 10 || radix == 16,
    ensures
        r matches Some(v) ==> unsigned_of(b@, radix as int) == Some(v as int) && v <= max,
        r is None ==> match unsigned_of(b@, radix as int) {
            Some(v) => v > max,
            None => true,
        },
{
    let start: usize = if b.len() > 0 && b[0] == 0x2B { 1 } else { 0 };
    let ghost d = b@.subrange(start as int, b@.len() as int);
    assert(d =~= digits_part(b@));
    if start == b.len() {
        return None;
    }
    let mut acc: u64 = 0;
    let mut i = start;
    proof {
        assert(d.subrange(0, 0) =~= Seq::<u8>::empty());
    }
    while i < b.len()
        invariant
            start <= i <= b@.len(),
            d == b@.subrange(start as int, b@.len() as int),
            d == digits_part(b@),
            d.len() > 0,
            radix == 10 || radix == 16,
            forall|j: int| 0 <= j < i - start ==> is_digit(#[trigger] d[j], radix as int),
            acc == digits_value(d.subrange(0, i - start), radix as int),
            acc <= max,
        decreases b@.len() - i,
    {
        let c = b[i];
        let ok = if radix == 16 { is_hex_byte(c) } else { 0x30 <= c && c <= 0x39 };
        if !ok {
            proof {
                assert(d[i - start] == c);
                assert(!is_digit(d[i - start], radix as int));
                lemma_unsigned_of_digits(b@, d, radix as int);
            }
            return None;
        }
        let v = hex_value(c);
        assert((acc as int) * (radix as int) <= 0xffff_ffff_ffff_ffff * 16) by (nonlinear_arith)
            requires
                acc <= 0xffff_ffff_ffff_ffffu64,
                radix <= 16,
        ;
        let next: u128 = (acc as u128) * (radix as u128) + (v as u128);
        proof {
            assert(d[i - start] == c);
            assert(d.subrange(0, i - start + 1).drop_last() =~= d.subrange(0, i - start));
        }
        if next > max as u128 {
            proof {
                lemma_unsigned_of_digits(b@, d, radix as int);
                if forall|j: int| 0 <= j < d.len() ==> is_digit(#[trigger] d[j], radix as int) {
                    lemma_digits_value_grows(d, i - start + 1, radix as int);
                }
            }
            return None;
        }
        acc = next as u64;
        i = i + 1;
    }
    proof {
        assert(d.subrange(0, d.len() as int) =~= d);
        lemma_unsigned_of_digits(b@, d, radix as int);
    }
    Some(acc)
}

/// The bounds of `b` without its leading and trailing double quotes.
pub fn unquote_bounds(b: &[u8]) -> (r: (usize, usize))
    ensures
        r.0 <= r.1 <= b@.len(),
        b@.subrange(r.0 as int, r.1 as int) == unquoted(b@),
{
    let n = b.len();
    let mut a: usize = 0;
    proof {
        assert(b@.subrange(0, n as int) =~= b@);
    }
    while a < n && b[a] == 0x22
        invariant
            a <= n == b@.len(),
            unquoted(b@.subrange(a as int, n as int)) == unquoted(b@),
        decreases n - a,
    {
        proof {
            assert(b@.subrange(a as int, n as int).subrange(1, (n - a) as int) =~= b@.subrange(a + 1, n as int));
        }
        a = a + 1;
    }
    let mut z: usize = n;
    while z > a && b[z - 1] == 0x22
        invariant
            a <= z <= n == b@.len(),
            unquoted(b@.subrange(a as int, z as int)) == unquoted(b@),
            a < n ==> b@[a as int] != 0x22,
        decreases z - a,
    {
        proof {
            assert(b@.subrange(a as int, z as int).drop_last() =~= b@.subrange(a as int, z - 1));
        }
        z = z - 1;
    }
    (a, z)
}

/// Decimal digits of `n`.
pub open spec fn decimal(n: nat) -> Seq<char>
    decreases n,
{
    if n < 10 {
        seq![(n + 48) as char]
    } else {
        decimal(n / 10).push(((n % 10) + 48) as char)
    }
}

/// Appends the decimal digits of `n`.
pub fn push_decimal(s: &mut String, n: usize)
    ensures
        final(s)@ == old(s)@ + decimal(n as nat),
    decreases n,
{
    if n >= 10 {
        push_decimal(s, n / 10);
    }
    let d = (n % 10) as u8;
    let c = (d + 48) as char;
    push_char(s, c);
    assert(final(s)@ =~= old(s)@ + decimal(n as nat));
}

/// `hay` holds `needle` somewhere.
pub open spec fn contains_bytes(hay: Seq<u8>, needle: Seq<u8>) -> bool {
    exists|i: int| 0 <= i && i + needle.len() <= hay.len() && #[trigger] hay.subrange(i, i + needle.len()) == needle
}

/// Whether `hay` holds `needle` somewhere.
pub fn find_bytes(hay: &[u8], needle: &[u8]) -> (r: bool)
    ensures
        r == contains_bytes(hay@, needle@),
{
    if needle.len() > hay.len() {
        return false;
    }
    let last = hay.len() - needle.len();
    let hl = hay.len();
    let mut i: usize = 0;
    while i <= last
        invariant
            last == hay@.len() - needle@.len(),
            hl == hay@.len(),
            i <= last + 1,
            forall|j: int| 0 <= j < i ==> #[trigger] hay@.subrange(j, j + needle@.len()) != needle@,
        decreases last + 1 - i,
    {
        let mut k: usize = 0;
        let mut same = true;
        while k < needle.len()
            invariant
                i <= last,
                last == hay@.len() - needle@.len(),
                hl == hay@.len(),
                k <= needle@.len(),
                same == (forall|m: int| 0 <= m < k ==> hay@[i + m] == needle@[m]),
            decreases needle@.len() - k,
        {
            if hay[i + k] != needle[k] {
                same = false;
            }
            k = k + 1;
        }
        if same {
            assert(hay@.subrange(i as int, i + needle@.len()) =~= needle@);
            return true;
        }
        proof {
            if hay@.subrange(i as int, i + needle@.len()) == needle@ {
                assert forall|m: int| 0 <= m < needle@.len() implies hay@[i + m] == needle@[m] by {
                    assert(hay@.subrange(i as int, i + needle@.len())[m] == hay@[i + m]);
                }
            }
        }
        if i == last {
            proof {
                assert forall|j: int| 0 <= j && j + needle@.len() <= hay@.len() implies #[trigger] hay@.subrange(j, j + needle@.len()) != needle@ by {
                    assert(j <= i);
                }
            }
            return false;
        }
        i = i + 1;
    }
    proof {
        assert forall|j: int| 0 <= j && j + needle@.len() <= hay@.len() implies #[trigger] hay@.subrange(j, j + needle@.len()) != needle@ by {
            assert(j < i);
        }
    }
    false
}

} // verus!
