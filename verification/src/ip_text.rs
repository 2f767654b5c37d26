//! Textual forms of IP addresses: parsing dotted-quad IPv4 and
//! colon-separated IPv6 literals from bytes, and formatting addresses back
//! to text. The grammars follow the usual literal syntax: four decimal
//! octets without leading zeros for IPv4; up to eight hexadecimal groups
//! with at most one `::` compression for IPv6.

use vstd::prelude::*;

use crate::addr::{AddressKind, IpAddress};

verus! {

/// ASCII '.', the IPv4 octet separator.
pub const DOT: u8 = 46;

/// ASCII ':', the IPv6 group separator.
pub const COLON: u8 = 58;

/// Whether a byte is an ASCII decimal digit.
pub open spec fn is_digit(b: u8) -> bool {
    48 <= b <= 57
}

/// The value of an ASCII decimal digit.
pub open spec fn digit_val(b: u8) -> int {
    b as int - 48
}

/// Where the run of decimal digits starting at `from` ends.
pub open spec fn digit_run_end(s: Seq<u8>, from: int) -> int
    decreases s.len() - from,
    when 0 <= from <= s.len()
{
    if from < s.len() && is_digit(s[from]) {
        digit_run_end(s, from + 1)
    } else {
        from
    }
}

/// The number denoted by the decimal digits in `s[from..to]`.
pub open spec fn digits_val(s: Seq<u8>, from: int, to: int) -> int
    decreases to - from,
    when from <= to
{
    if from >= to {
        0
    } else {
        digits_val(s, from, to - 1) * 10 + digit_val(s[to - 1])
    }
}

/// Whether `s[from..end]` is a well-formed IPv4 octet: the full digit run,
/// one to three digits, no leading zero, value at most 255.
pub open spec fn octet_text_ok(s: Seq<u8>, from: int, end: int) -> bool {
    &&& from < end <= s.len()
    &&& end == digit_run_end(s, from)
    &&& end - from <= 3
    &&& (end - from > 1 ==> s[from] != 48)
    &&& digits_val(s, from, end) <= 255
}

/// The IPv4 address denoted by `s`, if `s` is a well-formed dotted-quad
/// literal: four octets joined by single dots, nothing more.
pub open spec fn spec_parse_ipv4(s: Seq<u8>) -> Option<u32> {
    let e0 = digit_run_end(s, 0);
    if !(octet_text_ok(s, 0, e0) && e0 < s.len() && s[e0] == DOT) {
        None
    } else {
        let e1 = digit_run_end(s, e0 + 1);
        if !(octet_text_ok(s, e0 + 1, e1) && e1 < s.len() && s[e1] == DOT) {
            None
        } else {
            let e2 = digit_run_end(s, e1 + 1);
            if !(octet_text_ok(s, e1 + 1, e2) && e2 < s.len() && s[e2] == DOT) {
                None
            } else {
                let e3 = digit_run_end(s, e2 + 1);
                if !(octet_text_ok(s, e2 + 1, e3) && e3 == s.len()) {
                    None
                } else {
                    Some(
                        (digits_val(s, 0, e0) * 0x100_0000 + digits_val(s, e0 + 1, e1) * 0x1_0000
                            + digits_val(s, e1 + 1, e2) * 0x100 + digits_val(
                            s,
                            e2 + 1,
                            e3,
                        )) as u32,
                    )
                }
            }
        }
    }
}

/// A digit run never ends before it starts.
proof fn lemma_digit_run_end_ge(s: Seq<u8>, from: int)
    requires
        0 <= from <= s.len(),
    ensures
        from <= digit_run_end(s, from) <= s.len(),
    decreases s.len() - from,
{
    if from < s.len() && is_digit(s[from]) {
        lemma_digit_run_end_ge(s, from + 1);
    }
}

/// Bounds on the value of short digit runs.
proof fn lemma_digits_val_bound(s: Seq<u8>, from: int, to: int)
    requires
        0 <= from <= to <= s.len(),
        to - from <= 3,
        forall|i: int| from <= i < to ==> is_digit(#[trigger] s[i]),
    ensures
        0 <= digits_val(s, from, to),
        to - from <= 1 ==> digits_val(s, from, to) <= 9,
        to - from <= 2 ==> digits_val(s, from, to) <= 99,
        digits_val(s, from, to) <= 999,
    decreases to - from,
{
    if to > from {
        lemma_digits_val_bound(s, from, to - 1);
    }
}

/// Scans one IPv4 octet starting at `from`: the digit run, provided it is a
/// well-formed octet.
fn scan_octet(s: &[u8], from: usize) -> (r: Option<(u8, usize)>)
    requires
        from <= s@.len(),
    ensures
        r matches Some((v, end)) ==> octet_text_ok(s@, from as int, end as int) && v as int
            == digits_val(s@, from as int, end as int) && from < end <= s@.len(),
        r is None ==> !octet_text_ok(s@, from as int, digit_run_end(s@, from as int)),
{
    let n = s.len();
    let mut i: usize = from;
    let mut val: u32 = 0;
    loop
        invariant
            from <= i <= n,
            n == s@.len(),
            i - from <= 3,
            forall|j: int| from <= j < i ==> is_digit(#[trigger] s@[j]),
            val as int == digits_val(s@, from as int, i as int),
            digit_run_end(s@, from as int) == digit_run_end(s@, i as int),
        ensures
            from <= i <= n,
            i == digit_run_end(s@, from as int),
            i - from <= 3,
            val as int == digits_val(s@, from as int, i as int),
            forall|j: int| from <= j < i ==> is_digit(#[trigger] s@[j]),
        decreases n - i,
    {
        if i < n && s[i] >= 48 && s[i] <= 57 {
            if i - from == 3 {
                // a fourth digit: the run is longer than any valid octet
                proof {
                    lemma_digit_run_end_ge(s@, i as int + 1);
                    assert(digit_run_end(s@, i as int) == digit_run_end(s@, i as int + 1));
                }
                return None;
            }
            proof {
                lemma_digits_val_bound(s@, from as int, i as int);
            }
            val = val * 10 + (s[i] - 48) as u32;
            i = i + 1;
        } else {
            break;
        }
    }
    if i == from {
        return None;
    }
    if i - from > 1 && s[from] == 48 {
        return None;
    }
    if val > 255 {
        return None;
    }
    Some((val as u8, i))
}

/// Parses a dotted-quad IPv4 literal. Returns the address value exactly when
/// the whole input is a well-formed literal.
pub fn parse_ipv4(s: &[u8]) -> (r: Option<u32>)
    ensures
        r == spec_parse_ipv4(s@),
{
    let n = s.len();
    let (v0, e0) = match scan_octet(s, 0) {
        Some(p) => p,
        None => {
            return None;
        },
    };
    if e0 >= n || s[e0] != DOT {
        return None;
    }
    let (v1, e1) = match scan_octet(s, e0 + 1) {
        Some(p) => p,
        None => {
            return None;
        },
    };
    if e1 >= n || s[e1] != DOT {
        return None;
    }
    let (v2, e2) = match scan_octet(s, e1 + 1) {
        Some(p) => p,
        None => {
            return None;
        },
    };
    if e2 >= n || s[e2] != DOT {
        return None;
    }
    let (v3, e3) = match scan_octet(s, e2 + 1) {
        Some(p) => p,
        None => {
            return None;
        },
    };
    if e3 != n {
        return None;
    }
    Some(
        (v0 as u32) * 0x100_0000 + (v1 as u32) * 0x1_0000 + (v2 as u32) * 0x100 + (v3 as u32),
    )
}

/// The ASCII digit for a value below ten.
pub open spec fn dec_digit(d: int) -> u8 {
    (48 + d) as u8
}

/// The shortest decimal text of an octet value.
pub open spec fn spec_octet_text(o: int) -> Seq<u8> {
    if o < 10 {
        seq![dec_digit(o)]
    } else if o < 100 {
        seq![dec_digit(o / 10), dec_digit(o % 10)]
    } else {
        seq![dec_digit(o / 100), dec_digit((o / 10) % 10), dec_digit(o % 10)]
    }
}

/// The dotted-quad text of an IPv4 address value.
pub open spec fn spec_format_ipv4(v: u32) -> Seq<u8> {
    spec_octet_text(((v >> 24) & 0xff) as int) + seq![DOT] + spec_octet_text(
        ((v >> 16) & 0xff) as int,
    ) + seq![DOT] + spec_octet_text(((v >> 8) & 0xff) as int) + seq![DOT] + spec_octet_text(
        (v & 0xff) as int,
    )
}

/// Appends the decimal text of one octet.
fn push_octet(out: &mut Vec<u8>, o: u8)
    ensures
        final(out)@ == old(out)@ + spec_octet_text(o as int),
        forall|j: int| 0 <= j < spec_octet_text(o as int).len() ==> spec_octet_text(o as int)[j]
            < 128,
{
    if o >= 100 {
        out.push(48 + o / 100);
        out.push(48 + (o / 10) % 10);
        out.push(48 + o % 10);
        proof {
            assert(final(out)@ =~= old(out)@ + spec_octet_text(o as int));
        }
    } else if o >= 10 {
        out.push(48 + o / 10);
        out.push(48 + o % 10);
        proof {
            assert(final(out)@ =~= old(out)@ + spec_octet_text(o as int));
        }
    } else {
        out.push(48 + o);
        proof {
            assert(final(out)@ =~= old(out)@ + spec_octet_text(o as int));
        }
    }
}

/// Formats an IPv4 address value as its dotted-quad text.
pub fn format_ipv4(v: u32) -> (r: Vec<u8>)
    ensures
        r@ == spec_format_ipv4(v),
        forall|j: int| 0 <= j < r@.len() ==> r@[j] < 128,
{
    let mut out: Vec<u8> = Vec::new();
    proof {
        assert(((v >> 24) & 0xff) < 256 && ((v >> 16) & 0xff) < 256 && ((v >> 8) & 0xff) < 256 && (
        v & 0xff) < 256) by (bit_vector);
    }
    push_octet(&mut out, ((v >> 24) & 0xff) as u8);
    out.push(DOT);
    push_octet(&mut out, ((v >> 16) & 0xff) as u8);
    out.push(DOT);
    push_octet(&mut out, ((v >> 8) & 0xff) as u8);
    out.push(DOT);
    push_octet(&mut out, (v & 0xff) as u8);
    proof {
        assert(out@ =~= spec_format_ipv4(v));
    }
    out
}

/// Whether a byte is an ASCII hexadecimal digit.
pub open spec fn is_hex_digit(b: u8) -> bool {
    is_digit(b) || (97 <= b <= 102) || (65 <= b <= 70)
}

/// The value of an ASCII hexadecimal digit.
pub open spec fn hex_digit_val(b: u8) -> int {
    if is_digit(b) {
        b as int - 48
    } else if 97 <= b <= 102 {
        b as int - 87
    } else {
        b as int - 55
    }
}

/// Where the run of hexadecimal digits starting at `from` ends.
pub open spec fn hex_run_end(s: Seq<u8>, from: int) -> int
    decreases s.len() - from,
    when 0 <= from <= s.len()
{
    if from < s.len() && is_hex_digit(s[from]) {
        hex_run_end(s, from + 1)
    } else {
        from
    }
}

/// The number denoted by the hexadecimal digits in `s[from..to]`.
pub open spec fn hex_val(s: Seq<u8>, from: int, to: int) -> int
    decreases to - from,
    when from <= to
{
    if from >= to {
        0
    } else {
        hex_val(s, from, to - 1) * 16 + hex_digit_val(s[to - 1])
    }
}

/// Whether `s[from..end]` is a well-formed IPv6 group: the full hexadecimal
/// run, one to four digits.
pub open spec fn group_text_ok(s: Seq<u8>, from: int, end: int) -> bool {
    &&& from < end <= s.len()
    &&& end == hex_run_end(s, from)
    &&& end - from <= 4
}

/// Where the next group separator at or after `from` stands — the input's
/// end if none is left.
pub open spec fn next_colon(s: Seq<u8>, from: int) -> int
    decreases s.len() - from,
    when 0 <= from <= s.len()
{
    if from < s.len() && s[from] != COLON {
        next_colon(s, from + 1)
    } else {
        from
    }
}

/// Parses up to `max` colon-separated IPv6 groups starting at `from`: the
/// groups read and the position where reading stopped. A trailing dotted
/// quad stands for the last two groups.
pub open spec fn parse_groups(s: Seq<u8>, from: int, max: int) -> (Seq<u16>, int)
    decreases max,
    when 0 <= from <= s.len()
{
    if max <= 0 {
        (Seq::<u16>::empty(), from)
    } else {
        let t = next_colon(s, from);
        if max >= 2 && t == s.len() && spec_parse_ipv4(s.subrange(from, t)) is Some {
            let v = spec_parse_ipv4(s.subrange(from, t))->Some_0;
            (seq![(v >> 16) as u16, (v & 0xffff) as u16], s.len() as int)
        } else {
            let he = hex_run_end(s, from);
            if he == from || he - from > 4 {
                (Seq::<u16>::empty(), from)
            } else {
                let g = hex_val(s, from, he) as u16;
                if he + 1 < s.len() && s[he] == COLON && is_hex_digit(s[he + 1]) && max > 1 {
                    let rest = parse_groups(s, he + 1, max - 1);
                    (seq![g] + rest.0, rest.1)
                } else {
                    (seq![g], he)
                }
            }
        }
    }
}

/// The numeric value of a group sequence, read in big-endian group order.
pub open spec fn groups_value(gs: Seq<u16>) -> int
    decreases gs.len(),
{
    if gs.len() == 0 {
        0
    } else {
        groups_value(gs.drop_last()) * 0x1_0000 + gs.last()
    }
}

/// The place value of `n` trailing groups: `0x10000` to the `n`th power.
pub open spec fn group_shift(n: int) -> int
    decreases n,
    when n >= 0
{
    if n <= 0 {
        1
    } else {
        group_shift(n - 1) * 0x1_0000
    }
}

/// The IPv6 address denoted by `s`, if `s` is a well-formed colon-separated
/// literal: eight hexadecimal groups, or fewer with one `::` standing for
/// the missing zero groups.
pub open spec fn spec_parse_ipv6(s: Seq<u8>) -> Option<u128> {
    let head = parse_groups(s, 0, 8);
    if head.1 == s.len() && head.0.len() == 8 {
        Some(groups_value(head.0) as u128)
    } else if head.1 + 1 < s.len() && s[head.1] == COLON && s[head.1 + 1] == COLON {
        let tail = parse_groups(s, head.1 + 2, 7 - head.0.len());
        if tail.1 == s.len() && head.0.len() + tail.0.len() <= 7 {
            Some(
                (groups_value(head.0) * group_shift(8 - head.0.len()) + groups_value(
                    tail.0,
                )) as u128,
            )
        } else {
            None
        }
    } else {
        None
    }
}

/// A hexadecimal run never ends before it starts.
proof fn lemma_hex_run_end_ge(s: Seq<u8>, from: int)
    requires
        0 <= from <= s.len(),
    ensures
        from <= hex_run_end(s, from) <= s.len(),
    decreases s.len() - from,
{
    if from < s.len() && is_hex_digit(s[from]) {
        lemma_hex_run_end_ge(s, from + 1);
    }
}

/// Bounds on the value of short hexadecimal runs.
proof fn lemma_hex_val_bound(s: Seq<u8>, from: int, to: int)
    requires
        0 <= from <= to <= s.len(),
        to - from <= 4,
        forall|i: int| from <= i < to ==> is_hex_digit(#[trigger] s[i]),
    ensures
        0 <= hex_val(s, from, to),
        to - from <= 1 ==> hex_val(s, from, to) <= 0xf,
        to - from <= 2 ==> hex_val(s, from, to) <= 0xff,
        to - from <= 3 ==> hex_val(s, from, to) <= 0xfff,
        hex_val(s, from, to) <= 0xffff,
    decreases to - from,
{
    if to > from {
        lemma_hex_val_bound(s, from, to - 1);
    }
}

/// The values of the group place values, written out.
proof fn lemma_shift_values()
    ensures
        group_shift(0) == 1,
        group_shift(1) == 0x1_0000,
        group_shift(2) == 0x1_0000_0000,
        group_shift(3) == 0x1_0000_0000_0000,
        group_shift(4) == 0x1_0000_0000_0000_0000,
        group_shift(5) == 0x1_0000_0000_0000_0000_0000,
        group_shift(6) == 0x1_0000_0000_0000_0000_0000_0000,
        group_shift(7) == 0x1_0000_0000_0000_0000_0000_0000_0000,
        group_shift(8) == 0x1_0000_0000_0000_0000_0000_0000_0000_0000,
{
    assert(group_shift(0) == 1);
    assert(group_shift(1) == 0x1_0000);
    assert(group_shift(2) == 0x1_0000_0000);
    assert(group_shift(3) == 0x1_0000_0000_0000);
    assert(group_shift(4) == 0x1_0000_0000_0000_0000);
    assert(group_shift(5) == 0x1_0000_0000_0000_0000_0000);
    assert(group_shift(6) == 0x1_0000_0000_0000_0000_0000_0000);
    assert(group_shift(7) == 0x1_0000_0000_0000_0000_0000_0000_0000);
    assert(group_shift(8) == 0x1_0000_0000_0000_0000_0000_0000_0000_0000);
}

/// Place values grow with the number of groups, and are always positive.
proof fn lemma_shift_le(a: int, b: int)
    requires
        0 <= a <= b,
    ensures
        1 <= group_shift(a) <= group_shift(b),
    decreases b,
{
    if a < b {
        lemma_shift_le(a, b - 1);
    } else {
        if a > 0 {
            lemma_shift_le(a - 1, a - 1);
        }
    }
}

/// Place values multiply: `n + m` groups shift by the product of the two
/// place values.
proof fn lemma_shift_mul(a: int, b: int)
    requires
        a >= 0,
        b >= 0,
    ensures
        group_shift(a) * group_shift(b) == group_shift(a + b),
    decreases b,
{
    if b == 0 {
        assert(group_shift(0) == 1);
    } else {
        lemma_shift_mul(a, b - 1);
        assert(group_shift(a) * (group_shift(b - 1) * 0x1_0000) == (group_shift(a) * group_shift(
            b - 1,
        )) * 0x1_0000) by (nonlinear_arith);
    }
}

/// A group sequence's value fits in its own place value.
proof fn lemma_groups_value_bound(gs: Seq<u16>)
    ensures
        0 <= groups_value(gs) < group_shift(gs.len() as int),
    decreases gs.len(),
{
    if gs.len() == 0 {
        assert(group_shift(0) == 1);
    } else {
        lemma_groups_value_bound(gs.drop_last());
    }
}

/// A head of groups, shifted past the tail's place values, plus the tail,
/// still fits in eight groups' worth of bits.
proof fn lemma_combined_fits(hl: int, hv: int, tl: int, tv: int)
    requires
        0 <= hl <= 8,
        0 <= hv < group_shift(hl),
        0 <= tl <= 8 - hl,
        0 <= tv < group_shift(tl),
    ensures
        0 <= hv * group_shift(8 - hl) + tv < group_shift(8),
{
    lemma_shift_le(tl, 8 - hl);
    lemma_shift_mul(hl, 8 - hl);
    let s8h = group_shift(8 - hl);
    let shl = group_shift(hl);
    lemma_shift_le(0, 8 - hl);
    lemma_shift_le(0, hl);
    assert(hv * s8h >= 0) by (nonlinear_arith)
        requires
            hv >= 0,
            s8h >= 0,
    ;
    assert(hv * s8h <= (shl - 1) * s8h) by (nonlinear_arith)
        requires
            hv <= shl - 1,
            s8h >= 0,
    ;
    assert((shl - 1) * s8h == shl * s8h - s8h) by (nonlinear_arith);
}

/// Whether a byte is an ASCII hexadecimal digit.
pub fn is_hex_digit_byte(b: u8) -> (r: bool)
    ensures
        r == is_hex_digit(b),
{
    (48 <= b && b <= 57) || (97 <= b && b <= 102) || (65 <= b && b <= 70)
}

/// The value of an ASCII hexadecimal digit byte.
fn hex_digit_value(b: u8) -> (r: u8)
    requires
        is_hex_digit(b),
    ensures
        r as int == hex_digit_val(b),
{
    if 48 <= b && b <= 57 {
        b - 48
    } else if 97 <= b && b <= 102 {
        b - 87
    } else {
        b - 55
    }
}

/// Scans one IPv6 group starting at `from`: the hexadecimal run, provided it
/// is one to four digits long.
fn scan_hex_group(s: &[u8], from: usize) -> (r: Option<(u16, usize)>)
    requires
        from <= s@.len(),
    ensures
        r matches Some((g, end)) ==> group_text_ok(s@, from as int, end as int) && g as int
            == hex_val(s@, from as int, end as int) && from < end <= s@.len(),
        r is None ==> (hex_run_end(s@, from as int) == from as int || hex_run_end(
            s@,
            from as int,
        ) - from > 4),
{
    let n = s.len();
    let mut i: usize = from;
    let mut val: u16 = 0;
    loop
        invariant
            from <= i <= n,
            n == s@.len(),
            i - from <= 4,
            forall|j: int| from <= j < i ==> is_hex_digit(#[trigger] s@[j]),
            val as int == hex_val(s@, from as int, i as int),
            hex_run_end(s@, from as int) == hex_run_end(s@, i as int),
        ensures
            from <= i <= n,
            i == hex_run_end(s@, from as int),
            i - from <= 4,
            val as int == hex_val(s@, from as int, i as int),
        decreases n - i,
    {
        if i < n && is_hex_digit_byte(s[i]) {
            if i - from == 4 {
                // a fifth digit: the run is longer than any valid group
                proof {
                    lemma_hex_run_end_ge(s@, i as int + 1);
                    assert(hex_run_end(s@, i as int) == hex_run_end(s@, i as int + 1));
                }
                return None;
            }
            proof {
                lemma_hex_val_bound(s@, from as int, i as int);
            }
            val = val * 16 + (hex_digit_value(s[i]) as u16);
            i = i + 1;
        } else {
            break;
        }
    }
    if i == from {
        return None;
    }
    Some((val, i))
}

/// Where the next group separator at or after `from` stands.
fn next_colon_pos(s: &[u8], from: usize) -> (r: usize)
    requires
        from <= s@.len(),
    ensures
        r == next_colon(s@, from as int),
        from <= r <= s@.len(),
{
    let n = s.len();
    let mut i: usize = from;
    while i < n
        invariant
            from <= i <= n,
            n == s@.len(),
            next_colon(s@, from as int) == next_colon(s@, i as int),
        decreases n - i,
    {
        if s[i] == COLON {
            return i;
        }
        i = i + 1;
    }
    i
}

/// Parses up to `max` colon-separated groups starting at `from`, exactly as
/// the specification reads them.
fn scan_groups(s: &[u8], from: usize, max: usize) -> (r: (Vec<u16>, usize))
    requires
        from <= s@.len(),
    ensures
        (r.0@, r.1 as int) == parse_groups(s@, from as int, max as int),
        from <= r.1 <= s@.len(),
    decreases max,
{
    if max == 0 {
        return (Vec::new(), from);
    }
    let nc = next_colon_pos(s, from);
    if max >= 2 && nc == s.len() {
        match parse_ipv4(vstd::slice::slice_subrange(s, from, nc)) {
            Some(v) => {
                proof {
                    assert((v >> 16) < 0x10000 && (v & 0xffff) < 0x10000) by (bit_vector);
                }
                let gs = vec![(v >> 16) as u16, (v & 0xffff) as u16];
                proof {
                    assert(gs@ =~= seq![(v >> 16) as u16, (v & 0xffff) as u16]);
                }
                return (gs, nc);
            },
            None => {},
        }
    }
    match scan_hex_group(s, from) {
        None => (Vec::new(), from),
        Some((g, he)) => {
            if he < s.len() && s[he] == COLON && he + 1 < s.len() && is_hex_digit_byte(s[he + 1])
                && max > 1 {
                let (rest, pos) = scan_groups(s, he + 1, max - 1);
                let mut gs = rest;
                gs.insert(0, g);
                proof {
                    assert(gs@ =~= seq![g] + parse_groups(s@, he + 1 as int, max - 1).0);
                }
                (gs, pos)
            } else {
                let mut gs: Vec<u16> = Vec::new();
                gs.push(g);
                proof {
                    assert(gs@ =~= seq![g]);
                }
                (gs, he)
            }
        },
    }
}

/// The numeric value of a group list, read in big-endian group order.
fn groups_to_value(gs: &Vec<u16>) -> (r: u128)
    requires
        gs@.len() <= 8,
    ensures
        r as int == groups_value(gs@),
{
    let n = gs.len();
    let mut v: u128 = 0;
    let mut i: usize = 0;
    while i < n
        invariant
            i <= n,
            n == gs@.len() <= 8,
            v as int == groups_value(gs@.subrange(0, i as int)),
        decreases n - i,
    {
        proof {
            lemma_groups_value_bound(gs@.subrange(0, i as int));
            lemma_shift_le(i as int, 7);
            lemma_shift_values();
            assert(gs@.subrange(0, i + 1 as int).drop_last() =~= gs@.subrange(0, i as int));
            assert(gs@.subrange(0, i + 1 as int).last() == gs@[i as int]);
        }
        v = v * 0x1_0000 + (gs[i] as u128);
        i = i + 1;
    }
    proof {
        assert(gs@.subrange(0, n as int) =~= gs@);
    }
    v
}

/// The place value of `n` trailing groups, for `n` at most seven.
fn group_shift_value(n: usize) -> (r: u128)
    requires
        n <= 7,
    ensures
        r as int == group_shift(n as int),
{
    let mut r: u128 = 1;
    let mut k: usize = 0;
    while k < n
        invariant
            k <= n <= 7,
            r as int == group_shift(k as int),
        decreases n - k,
    {
        proof {
            lemma_shift_le(k as int, 6);
            lemma_shift_values();
        }
        r = r * 0x1_0000;
        k = k + 1;
    }
    r
}

/// Parses a colon-separated IPv6 literal. Returns the address value exactly
/// when the whole input is a well-formed literal.
pub fn parse_ipv6(s: &[u8]) -> (r: Option<u128>)
    ensures
        r == spec_parse_ipv6(s@),
{
    let n = s.len();
    let (head, pos) = scan_groups(s, 0, 8);
    let hl = head.len();
    if pos == n && hl == 8 {
        proof {
            lemma_groups_value_bound(head@);
            lemma_shift_values();
        }
        let v = groups_to_value(&head);
        return Some(v);
    }
    if pos < n && s[pos] == COLON && pos + 1 < n && s[pos + 1] == COLON {
        let maxt: usize = if hl <= 7 {
            7 - hl
        } else {
            0
        };
        proof {
            if hl > 7 {
                // with eight head groups no tail slot is left, in either count
                assert(parse_groups(s@, pos + 2 as int, 7 - hl as int) == (
                    Seq::<u16>::empty(),
                    pos + 2 as int,
                ));
                assert(parse_groups(s@, pos + 2 as int, 0int) == (
                    Seq::<u16>::empty(),
                    pos + 2 as int,
                ));
            }
        }
        let (tail, pos2) = scan_groups(s, pos + 2, maxt);
        let tl = tail.len();
        if pos2 == n && hl <= 7 && tl <= 7 - hl {
            let hv = groups_to_value(&head);
            let tv = groups_to_value(&tail);
            proof {
                lemma_groups_value_bound(head@);
                lemma_groups_value_bound(tail@);
                lemma_combined_fits(hl as int, hv as int, tl as int, tv as int);
                lemma_shift_values();
            }
            if hl == 0 {
                return Some(tv);
            }
            let sh = group_shift_value(8 - hl);
            return Some(hv * sh + tv);
        }
        return None;
    }
    None
}

/// The ASCII character of a hexadecimal digit value, lowercase.
pub open spec fn hex_digit_char(d: int) -> u8 {
    if d < 10 {
        (48 + d) as u8
    } else {
        (87 + d) as u8
    }
}

/// The shortest lowercase hexadecimal text of a group value.
pub open spec fn spec_group_text(g: int) -> Seq<u8> {
    if g < 0x10 {
        seq![hex_digit_char(g)]
    } else if g < 0x100 {
        seq![hex_digit_char(g / 0x10), hex_digit_char(g % 0x10)]
    } else if g < 0x1000 {
        seq![hex_digit_char(g / 0x100), hex_digit_char((g / 0x10) % 0x10), hex_digit_char(g % 0x10)]
    } else {
        seq![
            hex_digit_char(g / 0x1000),
            hex_digit_char((g / 0x100) % 0x10),
            hex_digit_char((g / 0x10) % 0x10),
            hex_digit_char(g % 0x10),
        ]
    }
}

/// The `i`th 16-bit group of an IPv6 address value, counted from the top.
pub open spec fn spec_group_of(v: u128, i: int) -> int {
    ((v >> ((16 * (7 - i)) as u128)) & 0xffff) as int
}

/// How many consecutive zero groups start at position `i`.
pub open spec fn zero_run_len(v: u128, i: int) -> int
    decreases 8 - i,
    when 0 <= i <= 8
{
    if i < 8 && spec_group_of(v, i) == 0 {
        1 + zero_run_len(v, i + 1)
    } else {
        0
    }
}

/// The leftmost longest run of zero groups at or after position `i`: its
/// start and its length.
pub open spec fn best_zero_run_from(v: u128, i: int) -> (int, int)
    decreases 8 - i,
    when 0 <= i <= 8
{
    if i >= 8 {
        (8, 0)
    } else {
        let here = zero_run_len(v, i);
        let rest = best_zero_run_from(v, i + 1);
        if here >= rest.1 {
            (i, here)
        } else {
            rest
        }
    }
}

/// The groups `from..to`, each in its shortest lowercase hexadecimal form,
/// joined by single colons.
pub open spec fn spec_groups_text(v: u128, from: int, to: int) -> Seq<u8>
    decreases to - from,
    when from <= to
{
    if from >= to {
        Seq::<u8>::empty()
    } else if from + 1 == to {
        spec_group_text(spec_group_of(v, from))
    } else {
        spec_group_text(spec_group_of(v, from)) + seq![COLON] + spec_groups_text(v, from + 1, to)
    }
}

/// Whether the address is an IPv4-mapped IPv6 address: the top 96 bits are
/// `::ffff`.
pub open spec fn is_ipv4_mapped(v: u128) -> bool {
    v >> 32 == 0xffff
}

/// The canonical text of an IPv6 address value: an IPv4-mapped address is
/// written in mixed notation; otherwise the leftmost longest run of two or
/// more zero groups is compressed to `::`, and every other group is written
/// in its shortest lowercase hexadecimal form.
pub open spec fn spec_format_ipv6(v: u128) -> Seq<u8> {
    if is_ipv4_mapped(v) {
        seq![COLON, COLON, 102u8, 102u8, 102u8, 102u8, COLON] + spec_format_ipv4(
            (v & 0xffff_ffff) as u32,
        )
    } else {
        let best = best_zero_run_from(v, 0);
        if best.1 >= 2 {
            spec_groups_text(v, 0, best.0) + seq![COLON, COLON] + spec_groups_text(
                v,
                best.0 + best.1,
                8,
            )
        } else {
            spec_groups_text(v, 0, 8)
        }
    }
}

/// The ASCII character of a hexadecimal digit value.
fn hex_digit_byte(d: u16) -> (r: u8)
    requires
        d < 16,
    ensures
        r == hex_digit_char(d as int),
        r < 128,
{
    if d < 10 {
        48 + (d as u8)
    } else {
        87 + (d as u8)
    }
}

/// Appends the shortest hexadecimal text of one group.
fn push_group(out: &mut Vec<u8>, g: u16)
    ensures
        final(out)@ == old(out)@ + spec_group_text(g as int),
        forall|j: int| 0 <= j < spec_group_text(g as int).len() ==> spec_group_text(g as int)[j]
            < 128,
{
    if g < 0x10 {
        out.push(hex_digit_byte(g));
        proof {
            assert(final(out)@ =~= old(out)@ + spec_group_text(g as int));
        }
    } else if g < 0x100 {
        out.push(hex_digit_byte(g / 0x10));
        out.push(hex_digit_byte(g % 0x10));
        proof {
            assert(final(out)@ =~= old(out)@ + spec_group_text(g as int));
        }
    } else if g < 0x1000 {
        out.push(hex_digit_byte(g / 0x100));
        out.push(hex_digit_byte((g / 0x10) % 0x10));
        out.push(hex_digit_byte(g % 0x10));
        proof {
            assert(final(out)@ =~= old(out)@ + spec_group_text(g as int));
        }
    } else {
        out.push(hex_digit_byte(g / 0x1000));
        out.push(hex_digit_byte((g / 0x100) % 0x10));
        out.push(hex_digit_byte((g / 0x10) % 0x10));
        out.push(hex_digit_byte(g % 0x10));
        proof {
            assert(final(out)@ =~= old(out)@ + spec_group_text(g as int));
        }
    }
}

/// One 16-bit group of an IPv6 address value, counted from the top.
fn group_of(v: u128, i: usize) -> (r: u16)
    requires
        i < 8,
    ensures
        r as int == spec_group_of(v, i as int),
{
    let sh: u128 = 16 * ((7 - i) as u128);
    let w: u128 = v >> sh;
    proof {
        assert((w & 0xffff) < 0x10000) by (bit_vector);
    }
    (w & 0xffff) as u16
}

/// A zero run fits between its start and the eighth group.
proof fn lemma_zero_run_bounds(v: u128, i: int)
    requires
        0 <= i <= 8,
    ensures
        0 <= zero_run_len(v, i) <= 8 - i,
    decreases 8 - i,
{
    if i < 8 {
        lemma_zero_run_bounds(v, i + 1);
    }
}

/// The chosen zero run lies within the eight groups.
proof fn lemma_best_zero_run_bounds(v: u128, i: int)
    requires
        0 <= i <= 8,
    ensures
        i <= best_zero_run_from(v, i).0 <= 8,
        0 <= best_zero_run_from(v, i).1,
        best_zero_run_from(v, i).0 + best_zero_run_from(v, i).1 <= 8,
    decreases 8 - i,
{
    if i < 8 {
        lemma_best_zero_run_bounds(v, i + 1);
        lemma_zero_run_bounds(v, i);
    }
}

/// Extending a joined group range by one more group appends a separator
/// (unless the range was empty) and the group's text.
proof fn lemma_groups_text_snoc(v: u128, from: int, to: int)
    requires
        0 <= from <= to < 8,
    ensures
        spec_groups_text(v, from, to + 1) == if from == to {
            spec_group_text(spec_group_of(v, to))
        } else {
            spec_groups_text(v, from, to) + seq![COLON] + spec_group_text(spec_group_of(v, to))
        },
    decreases to - from,
{
    if from < to {
        lemma_groups_text_snoc(v, from + 1, to);
        if from + 1 == to {
            assert(spec_groups_text(v, from, to + 1) =~= spec_groups_text(v, from, to) + seq![
                COLON,
            ] + spec_group_text(spec_group_of(v, to)));
        } else {
            assert(spec_groups_text(v, from, to + 1) =~= spec_groups_text(v, from, to) + seq![
                COLON,
            ] + spec_group_text(spec_group_of(v, to)));
        }
    }
}

/// Appends the groups `from..to`, joined by single colons.
fn push_groups(out: &mut Vec<u8>, v: u128, from: usize, to: usize)
    requires
        from <= to <= 8,
    ensures
        final(out)@ == old(out)@ + spec_groups_text(v, from as int, to as int),
        forall|j: int|
            0 <= j < spec_groups_text(v, from as int, to as int).len() ==> spec_groups_text(
                v,
                from as int,
                to as int,
            )[j] < 128,
{
    let ghost base = out@;
    let mut i: usize = from;
    while i < to
        invariant
            from <= i <= to <= 8,
            out@ == base + spec_groups_text(v, from as int, i as int),
            forall|j: int|
                0 <= j < spec_groups_text(v, from as int, i as int).len() ==> spec_groups_text(
                    v,
                    from as int,
                    i as int,
                )[j] < 128,
        decreases to - i,
    {
        proof {
            lemma_groups_text_snoc(v, from as int, i as int);
        }
        if i > from {
            out.push(COLON);
        }
        push_group(out, group_of(v, i));
        proof {
            assert(out@ =~= base + spec_groups_text(v, from as int, i + 1 as int));
        }
        i = i + 1;
    }
}

/// Formats an IPv6 address value as its canonical text: the leftmost longest
/// run of two or more zero groups becomes `::`.
pub fn format_ipv6(v: u128) -> (r: Vec<u8>)
    ensures
        r@ == spec_format_ipv6(v),
        forall|j: int| 0 <= j < r@.len() ==> r@[j] < 128,
{
    // find the leftmost longest zero run, walking from the right so the
    // running values mirror the specification's recursion
    let mut best_start: usize = 8;
    let mut best_len: usize = 0;
    let mut run_next: usize = 0;
    let mut i: usize = 8;
    while i > 0
        invariant
            i <= 8,
            run_next as int == zero_run_len(v, i as int),
            (best_start as int, best_len as int) == best_zero_run_from(v, i as int),
        decreases i,
    {
        let g = group_of(v, i - 1);
        proof {
            lemma_zero_run_bounds(v, i as int);
        }
        let here: usize = if g == 0 {
            1 + run_next
        } else {
            0
        };
        proof {
            assert(zero_run_len(v, i - 1 as int) == here as int);
        }
        if here >= best_len {
            best_start = i - 1;
            best_len = here;
        }
        run_next = here;
        i = i - 1;
    }
    proof {
        lemma_best_zero_run_bounds(v, 0);
    }
    let mut out: Vec<u8> = Vec::new();
    if v >> 32 == 0xffff {
        out.push(COLON);
        out.push(COLON);
        out.push(102);
        out.push(102);
        out.push(102);
        out.push(102);
        out.push(COLON);
        proof {
            assert((v & 0xffff_ffff) < 0x1_0000_0000) by (bit_vector);
        }
        let quad = format_ipv4((v & 0xffff_ffff) as u32);
        let n = quad.len();
        let mut k: usize = 0;
        while k < n
            invariant
                k <= n,
                n == quad@.len(),
                quad@ == spec_format_ipv4((v & 0xffff_ffff) as u32),
                forall|j: int| 0 <= j < quad@.len() ==> quad@[j] < 128,
                out@ == seq![COLON, COLON, 102u8, 102u8, 102u8, 102u8, COLON] + quad@.subrange(
                    0,
                    k as int,
                ),
            decreases n - k,
        {
            proof {
                assert(out@.push(quad@[k as int]) =~= seq![
                    COLON,
                    COLON,
                    102u8,
                    102u8,
                    102u8,
                    102u8,
                    COLON,
                ] + quad@.subrange(0, k + 1 as int));
            }
            out.push(quad[k]);
            k = k + 1;
        }
        proof {
            assert(quad@.subrange(0, n as int) =~= quad@);
        }
        return out;
    }
    if best_len >= 2 {
        push_groups(&mut out, v, 0, best_start);
        out.push(COLON);
        out.push(COLON);
        push_groups(&mut out, v, best_start + best_len, 8);
        proof {
            assert(out@ =~= spec_format_ipv6(v));
        }
    } else {
        push_groups(&mut out, v, 0, 8);
    }
    out
}

/// The address denoted by `s` in either family: a dotted-quad literal is an
/// IPv4 address, a colon-separated literal an IPv6 address.
pub open spec fn spec_parse_ip(s: Seq<u8>) -> Option<IpAddress> {
    match spec_parse_ipv4(s) {
        Some(v) => Some(IpAddress::V4(v)),
        None => match spec_parse_ipv6(s) {
            Some(w) => Some(IpAddress::V6(w)),
            None => None,
        },
    }
}

/// Parses an IP address literal of either family.
pub fn parse_ip(s: &[u8]) -> (r: Option<IpAddress>)
    ensures
        r == spec_parse_ip(s@),
{
    match parse_ipv4(s) {
        Some(v) => Some(IpAddress::V4(v)),
        None => match parse_ipv6(s) {
            Some(w) => Some(IpAddress::V6(w)),
            None => None,
        },
    }
}

/// The address denoted by `s` in the requested family alone: a dotted-quad
/// literal for IPv4, a colon-separated literal for IPv6.
pub open spec fn spec_parse_ip_of_family(s: Seq<u8>, kind: AddressKind) -> Option<IpAddress> {
    match kind {
        AddressKind::IPv4 => match spec_parse_ipv4(s) {
            Some(v) => Some(IpAddress::V4(v)),
            None => None,
        },
        AddressKind::IPv6 => match spec_parse_ipv6(s) {
            Some(v) => Some(IpAddress::V6(v)),
            None => None,
        },
    }
}

/// Parses an IP address literal of the requested family.
pub fn parse_ip_of_family(s: &[u8], kind: AddressKind) -> (r: Option<IpAddress>)
    ensures
        r == spec_parse_ip_of_family(s@, kind),
{
    match kind {
        AddressKind::IPv4 => match parse_ipv4(s) {
            Some(v) => Some(IpAddress::V4(v)),
            None => None,
        },
        AddressKind::IPv6 => match parse_ipv6(s) {
            Some(v) => Some(IpAddress::V6(v)),
            None => None,
        },
    }
}

/// The text of an address: dotted-quad for IPv4, canonical compressed form
/// for IPv6.
pub open spec fn spec_format_ip(a: IpAddress) -> Seq<u8> {
    match a {
        IpAddress::V4(v) => spec_format_ipv4(v),
        IpAddress::V6(v) => spec_format_ipv6(v),
    }
}

/// Formats an address as its text, in bytes.
pub fn format_ip_bytes(a: &IpAddress) -> (r: Vec<u8>)
    ensures
        r@ == spec_format_ip(*a),
        forall|j: int| 0 <= j < r@.len() ==> r@[j] < 128,
{
    match a {
        IpAddress::V4(v) => format_ipv4(*v),
        IpAddress::V6(v) => format_ipv6(*v),
    }
}

/// Relies on String::from_utf8: a vector of ASCII bytes is valid UTF-8 and
/// becomes the string whose characters are exactly those bytes.
#[verifier::external_body]
fn string_from_ascii(bytes: Vec<u8>) -> (r: String)
    requires
        forall|i: int| 0 <= i < bytes@.len() ==> bytes@[i] < 128,
    ensures
        r@ == bytes@.map_values(|b: u8| b as char),
{
    match String::from_utf8(bytes) {
        Ok(s) => s,
        Err(_) => String::new(),
    }
}

/// Formats an address as its text.
pub fn format_ip(a: &IpAddress) -> (r: String)
    ensures
        r@ == spec_format_ip(*a).map_values(|b: u8| b as char),
{
    string_from_ascii(format_ip_bytes(a))
}

} // verus!
