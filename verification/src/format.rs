//! Value formatting and parsing for a [`FieldKind`] over raw bytes, for the
//! integer, boolean, hex and pointer kinds. (The float-bearing kinds are
//! rendered and read by the host.)

use vstd::prelude::*;
use vstd::string::*;
use crate::compare::{byte_range, le_nat, lemma_byte_range_mono, lemma_le_nat_fits};
use crate::text::{
    all_dec, all_hex, chars_without, dec, dec_value, hex_upper, hex_value_of, parse_hex, parse_hex_chars,
    parse_unsigned, parse_unsigned_chars, push_char, push_dec, push_hex_upper, push_padded, str_chars, string_of,
    trim_chars, trim_spec, zero_pad,
};
use crate::types::FieldKind;

verus! {

/// Whether a kind holds floating-point values.
pub open spec fn has_floats(k: FieldKind) -> bool {
    k is F32 || k is F64 || k is Vector || k is Matrix
}

/// Whether values of `kind` hold floating-point numbers.
pub fn floats_in(kind: FieldKind) -> (r: bool)
    ensures
        r == has_floats(kind),
{
    match kind {
        FieldKind::F32 | FieldKind::F64 | FieldKind::Vector { .. } | FieldKind::Matrix { .. } => true,
        _ => false,
    }
}

/// The decimal text of an integer, with a leading `-` when negative.
pub open spec fn int_text(i: int) -> Seq<char> {
    if i < 0 {
        seq!['-'] + dec((-i) as nat)
    } else {
        dec(i as nat)
    }
}

/// An `n`-byte unsigned value read as two's complement.
pub open spec fn signed_of(v: nat, n: nat) -> int {
    if v >= byte_range(n) / 2 {
        v - byte_range(n)
    } else {
        v as int
    }
}

/// How many bytes a pointer value is read from: the pointer width, at most
/// 8, and at most what is there.
pub open spec fn ptr_take(ptr: nat, len: nat) -> nat {
    let p: nat = if ptr < 8 { ptr } else { 8 };
    if p < len {
        p
    } else {
        len
    }
}

/// The text a value of `kind` stored in `b` is shown as (little-endian;
/// `ptr` is the target's pointer width), or `??` when `b` is too short.
pub open spec fn format_spec(kind: FieldKind, b: Seq<u8>, ptr: nat) -> Seq<char> {
    if b.len() < kind.byte_size(ptr) {
        "??"@
    } else {
        match kind {
            FieldKind::I8 => int_text(signed_of(le_nat(b.take(1)), 1)),
            FieldKind::I16 => int_text(signed_of(le_nat(b.take(2)), 2)),
            FieldKind::I32 => int_text(signed_of(le_nat(b.take(4)), 4)),
            FieldKind::I64 => int_text(signed_of(le_nat(b.take(8)), 8)),
            FieldKind::U8 => dec(le_nat(b.take(1))),
            FieldKind::U16 => dec(le_nat(b.take(2))),
            FieldKind::U32 => dec(le_nat(b.take(4))),
            FieldKind::U64 => dec(le_nat(b.take(8))),
            FieldKind::Bool => if b[0] != 0 {
                "true"@
            } else {
                "false"@
            },
            FieldKind::Unk8 => "0x"@ + zero_pad(hex_upper(le_nat(b.take(1))), 2),
            FieldKind::Unk16 => "0x"@ + zero_pad(hex_upper(le_nat(b.take(2))), 4),
            FieldKind::Unk32 => "0x"@ + zero_pad(hex_upper(le_nat(b.take(4))), 8),
            FieldKind::Unk64 => "0x"@ + zero_pad(hex_upper(le_nat(b.take(8))), 16),
            FieldKind::Ptr | FieldKind::StrPtr => "0x"@ + hex_upper(le_nat(b.take(ptr_take(ptr, b.len()) as int))),
            _ => seq![],
        }
    }
}

/// The little-endian value of the first `n` bytes of `b`.
pub fn le_u64(b: &[u8], n: usize) -> (r: u64)
    requires
        n <= 8,
        n <= b@.len(),
    ensures
        r as nat == le_nat(b@.take(n as int)),
{
    let mut acc: u64 = 0;
    let mut i: usize = n;
    proof {
        lemma_le_nat_fits(Seq::<u8>::empty());
    }
    while i > 0
        invariant
            n <= 8,
            i <= n <= b@.len(),
            acc as nat == le_nat(b@.subrange(i as int, n as int)),
            acc < byte_range((n - i) as nat),
            byte_range(7) <= byte_range(8),
            byte_range(8) == 0x1_0000_0000_0000_0000,
        decreases i,
    {
        proof {
            let s = b@.subrange(i - 1, n as int);
            assert(s.drop_first() =~= b@.subrange(i as int, n as int));
            lemma_byte_range_mono((n - i) as nat, 7);
            assert(byte_range((n - i + 1) as nat) == 256 * byte_range((n - i) as nat));
        }
        acc = acc * 256 + b[i - 1] as u64;
        i = i - 1;
    }
    assert(b@.subrange(0, n as int) =~= b@.take(n as int));
    acc
}

fn push_int(s: &mut String, neg: bool, mag: u64)
    ensures
        final(s)@ == old(s)@ + int_text(if neg && mag > 0 { -(mag as int) } else { mag as int }),
{
    if neg && mag > 0 {
        push_char(s, '-');
        push_dec(s, mag as u128);
        assert(final(s)@ =~= old(s)@ + (seq!['-'] + dec(mag as nat)));
    } else {
        push_dec(s, mag as u128);
    }
}

fn format_signed(b: &[u8], n: usize) -> (s: String)
    requires
        n == 1 || n == 2 || n == 4 || n == 8,
        n <= b@.len(),
    ensures
        s@ == int_text(signed_of(le_nat(b@.take(n as int)), n as nat)),
{
    let v = le_u64(b, n);
    proof {
        lemma_le_nat_fits(Seq::<u8>::empty());
        lemma_le_nat_fits(b@.take(n as int));
    }
    let half: u64 = if n == 1 { 0x80 } else if n == 2 { 0x8000 } else if n == 4 { 0x8000_0000 } else { 0x8000_0000_0000_0000 };
    assert(half as nat == byte_range(n as nat) / 2);
    let mut s = String::new();
    if v >= half {
        let mag: u64 = if n == 8 { (0u64.wrapping_sub(v)) } else { half * 2 - v };
        assert(mag as int == byte_range(n as nat) - v) by {
            if n == 8 {
                assert(0u64.wrapping_sub(v) == 0x1_0000_0000_0000_0000 - v);
            }
        }
        push_int(&mut s, true, mag);
    } else {
        push_int(&mut s, false, v);
    }
    s
}

fn format_hex_padded(b: &[u8], n: usize, w: usize) -> (s: String)
    requires
        n <= 8,
        n <= b@.len(),
    ensures
        s@ == "0x"@ + zero_pad(hex_upper(le_nat(b@.take(n as int))), w as nat),
{
    let v = le_u64(b, n);
    let mut h = String::new();
    push_hex_upper(&mut h, v as u128);
    let hc = str_chars(h.as_str());
    let mut s = String::from_str("0x");
    push_padded(&mut s, hc.as_slice(), w);
    s
}

/// Formats the value of `kind` stored in `b` (little-endian; `ptr` is the
/// target's pointer width), or `??` when `b` is too short.
pub fn format_bytes(kind: FieldKind, b: &[u8], ptr: usize) -> (s: String)
    requires
        !has_floats(kind),
    ensures
        s@ == format_spec(kind, b@, ptr as nat),
{
    let need = kind.size_with_ptr(ptr);
    if b.len() < need {
        return String::from_str("??");
    }
    match kind {
        FieldKind::I8 => format_signed(b, 1),
        FieldKind::I16 => format_signed(b, 2),
        FieldKind::I32 => format_signed(b, 4),
        FieldKind::I64 => format_signed(b, 8),
        FieldKind::U8 | FieldKind::U16 | FieldKind::U32 | FieldKind::U64 => {
            let n: usize = match kind {
                FieldKind::U8 => 1,
                FieldKind::U16 => 2,
                FieldKind::U32 => 4,
                _ => 8,
            };
            let v = le_u64(b, n);
            let mut s = String::new();
            push_dec(&mut s, v as u128);
            s
        },
        FieldKind::Bool => {
            if b[0] != 0 {
                String::from_str("true")
            } else {
                String::from_str("false")
            }
        },
        FieldKind::Unk8 => format_hex_padded(b, 1, 2),
        FieldKind::Unk16 => format_hex_padded(b, 2, 4),
        FieldKind::Unk32 => format_hex_padded(b, 4, 8),
        FieldKind::Unk64 => format_hex_padded(b, 8, 16),
        _ => {
            let p = if ptr < 8 { ptr } else { 8 };
            let n = if p < b.len() { p } else { b.len() };
            let v = le_u64(b, n);
            let mut s = String::from_str("0x");
            push_hex_upper(&mut s, v as u128);
            s
        },
    }
}


/// The value of a non-empty digit string in base 16 (`hex`) or 10.
pub open spec fn radix_value(d: Seq<char>, hex: bool) -> Option<nat> {
    if d.len() == 0 {
        None
    } else if hex {
        if all_hex(d) {
            Some(hex_value_of(d))
        } else {
            None
        }
    } else if all_dec(d) {
        Some(dec_value(d))
    } else {
        None
    }
}

/// `2^127`, the magnitude of `i128::MIN`.
pub open spec fn i128_span() -> nat {
    0x8000_0000_0000_0000_0000_0000_0000_0000nat
}

/// How `i128`'s `FromStr` (or `from_str_radix(_, 16)` when `hex`) reads
/// `s`: an optional sign, then digits, within `i128`'s range.
pub open spec fn parse_i128(s: Seq<char>, hex: bool) -> Option<int> {
    if s.len() == 0 {
        None
    } else if (s[0] == '+' || s[0] == '-') && s.len() == 1 {
        None
    } else if s[0] == '-' {
        match radix_value(s.drop_first(), hex) {
            Some(v) => if v <= i128_span() {
                Some(-v)
            } else {
                None
            },
            None => None,
        }
    } else {
        let d = if s[0] == '+' {
            s.drop_first()
        } else {
            s
        };
        match radix_value(d, hex) {
            Some(v) => if v < i128_span() {
                Some(v as int)
            } else {
                None
            },
            None => None,
        }
    }
}

/// Whether `s` starts with `0x` or `0X`.
pub open spec fn has_hex_prefix(s: Seq<char>) -> bool {
    s.len() >= 2 && s[0] == '0' && (s[1] == 'x' || s[1] == 'X')
}

/// A signed integer entry: underscores are ignored; an optional `-`, then a
/// number in `0x`/`0X` hex or decimal (which may carry its own sign).
pub open spec fn parse_signed_text(s: Seq<char>) -> Option<int> {
    let t = s.filter(|c: char| c != '_');
    let neg = t.len() > 0 && t[0] == '-';
    let body = if neg {
        t.drop_first()
    } else {
        t
    };
    let v = if has_hex_prefix(body) {
        parse_i128(body.skip(2), true)
    } else {
        parse_i128(body, false)
    };
    match v {
        Some(x) => Some(if neg {
            -x
        } else {
            x
        }),
        None => None,
    }
}

/// An unsigned integer entry: underscores are ignored; a number in
/// `0x`/`0X` hex or decimal that fits in `u128`.
pub open spec fn parse_unsigned_text(s: Seq<char>) -> Option<int> {
    let t = s.filter(|c: char| c != '_');
    let v = if has_hex_prefix(t) {
        parse_hex(t.skip(2), u128::MAX as nat)
    } else {
        parse_unsigned(t, u128::MAX as nat)
    };
    match v {
        Some(x) => Some(x as int),
        None => None,
    }
}

/// The low `n` little-endian bytes of `x`.
pub open spec fn le_bytes(x: nat, n: nat) -> Seq<u8>
    decreases n,
{
    if n == 0 {
        seq![]
    } else {
        seq![(x % 256) as u8] + le_bytes(x / 256, (n - 1) as nat)
    }
}

/// `x` as a 64-bit two's-complement bit pattern.
pub open spec fn wrap64(x: int) -> nat {
    (x % 0x1_0000_0000_0000_0000int) as nat
}

/// An ASCII letter in lower case; any other character unchanged.
pub open spec fn ascii_lower(c: char) -> char {
    if 'A' <= c <= 'Z' {
        ((c as u32) + 32) as char
    } else {
        c
    }
}

/// How an entry `text` for a value of `kind` is written, as little-endian
/// bytes (`ptr` is the target's pointer width): surrounding whitespace is
/// ignored; integers keep their low bytes; booleans read
/// `true`/`1`/`yes` and `false`/`0`/`no` in any case.
pub open spec fn parse_value_spec(kind: FieldKind, text: Seq<char>, ptr: nat) -> Option<Seq<u8>> {
    let s = trim_spec(text);
    let l = s.map_values(|c: char| ascii_lower(c));
    let signed = |n: nat| match parse_signed_text(s) {
        Some(v) => Some(le_bytes(wrap64(v), n)),
        None => None,
    };
    let unsigned = |n: nat| match parse_unsigned_text(s) {
        Some(v) => Some(le_bytes(wrap64(v), n)),
        None => None,
    };
    match kind {
        FieldKind::I8 => signed(1),
        FieldKind::I16 => signed(2),
        FieldKind::I32 => signed(4),
        FieldKind::I64 => signed(8),
        FieldKind::U8 | FieldKind::Unk8 => unsigned(1),
        FieldKind::U16 | FieldKind::Unk16 => unsigned(2),
        FieldKind::U32 | FieldKind::Unk32 => unsigned(4),
        FieldKind::U64 | FieldKind::Unk64 => unsigned(8),
        FieldKind::Bool => if l == "true"@ || l == "1"@ || l == "yes"@ {
            Some(seq![1u8])
        } else if l == "false"@ || l == "0"@ || l == "no"@ {
            Some(seq![0u8])
        } else {
            None
        },
        FieldKind::Ptr | FieldKind::StrPtr => unsigned(if ptr < 8 { ptr } else { 8 }),
        _ => None,
    }
}

/// The low `n` little-endian bytes of `x`.
fn to_le(x: u64, n: usize) -> (v: Vec<u8>)
    requires
        n <= 8,
    ensures
        v@ == le_bytes(x as nat, n as nat),
{
    let mut out: Vec<u8> = Vec::new();
    let mut y = x;
    let mut i: usize = 0;
    while i < n
        invariant
            i <= n,
            out@ + le_bytes(y as nat, (n - i) as nat) == le_bytes(x as nat, n as nat),
        decreases n - i,
    {
        let ghost y0 = y;
        out.push((y % 256) as u8);
        y = y / 256;
        i = i + 1;
        proof {
            assert(le_bytes(y0 as nat, (n - i + 1) as nat) == seq![(y0 % 256) as u8] + le_bytes(y as nat, (n - i) as nat));
            assert(out@ + le_bytes(y as nat, (n - i) as nat) =~= out@.drop_last() + le_bytes(y0 as nat, (n - i + 1) as nat));
        }
    }
    assert(out@ + le_bytes(y as nat, 0) =~= out@);
    out
}

/// Reads a number with `i128`'s `FromStr` (or `from_str_radix(_, 16)`):
/// `Some((negative, magnitude))`.
pub fn parse_i128_chars(s: &[char], hex: bool) -> (r: Option<(bool, u128)>)
    ensures
        match r {
            Some((neg, m)) => parse_i128(s@, hex) == Some(if neg { -(m as int) } else { m as int }) && m <= i128_span(),
            None => parse_i128(s@, hex) is None,
        },
{
    let n = s.len();
    if n == 0 {
        return None;
    }
    if (s[0] == '+' || s[0] == '-') && n == 1 {
        return None;
    }
    if s[0] == '-' {
        if s[1] == '+' || s[1] == '-' {
            assert(radix_value(s@.drop_first(), hex) is None) by {
                let d = s@.drop_first();
                assert(d[0] == s@[1]);
                assert(crate::text::hex_nibble_spec(d[0]) is None);
                assert(!crate::text::is_dec_digit(d[0]));
                assert(!all_hex(d));
                assert(!all_dec(d));
            }
            return None;
        }
        let rest = crate::text::sub_chars(s, 1, n);
        assert(rest@ =~= s@.drop_first());
        let v = if hex {
            parse_hex_chars(rest.as_slice(), 0x8000_0000_0000_0000_0000_0000_0000_0000)
        } else {
            parse_unsigned_chars(rest.as_slice(), 0x8000_0000_0000_0000_0000_0000_0000_0000)
        };
        return match v {
            Some(m) => Some((true, m)),
            None => None,
        };
    }
    let v = if hex {
        parse_hex_chars(s, 0x7fff_ffff_ffff_ffff_ffff_ffff_ffff_ffff)
    } else {
        parse_unsigned_chars(s, 0x7fff_ffff_ffff_ffff_ffff_ffff_ffff_ffff)
    };
    match v {
        Some(m) => Some((false, m)),
        None => None,
    }
}

fn has_hex_prefix_exec(s: &[char]) -> (r: bool)
    ensures
        r == has_hex_prefix(s@),
{
    s.len() >= 2 && s[0] == '0' && (s[1] == 'x' || s[1] == 'X')
}

/// The 64-bit two's-complement pattern of `neg ? -m : m`.
fn wrap_signed(neg: bool, m: u128) -> (r: u64)
    ensures
        r as nat == wrap64(if neg { -(m as int) } else { m as int }),
{
    let low = (m % 0x1_0000_0000_0000_0000) as u64;
    if neg {
        let r = 0u64.wrapping_sub(low);
        proof {
            let mi = m as int;
            let l = low as int;
            assert(l == mi % 0x1_0000_0000_0000_0000int);
            assert((-mi) % 0x1_0000_0000_0000_0000int == (if l == 0 { 0 } else { 0x1_0000_0000_0000_0000int - l })) by (nonlinear_arith)
                requires
                    l == mi % 0x1_0000_0000_0000_0000int,
                    mi >= 0,
            ;
        }
        r
    } else {
        low
    }
}

/// Reads `text` as a value of `kind` (not a float-bearing kind) and gives
/// its little-endian bytes for writing; `None` when it does not read.
pub fn parse_value(kind: FieldKind, text: &str, ptr: usize) -> (r: Option<Vec<u8>>)
    requires
        !has_floats(kind),
    ensures
        match r {
            Some(v) => parse_value_spec(kind, text@, ptr as nat) == Some(v@),
            None => parse_value_spec(kind, text@, ptr as nat) is None,
        },
{
    let chars = str_chars(text);
    let s = trim_chars(chars.as_slice());
    let t = chars_without(s.as_slice(), '_');
    let n: usize = match kind {
        FieldKind::I8 | FieldKind::U8 | FieldKind::Unk8 => 1,
        FieldKind::I16 | FieldKind::U16 | FieldKind::Unk16 => 2,
        FieldKind::I32 | FieldKind::U32 | FieldKind::Unk32 => 4,
        FieldKind::Ptr | FieldKind::StrPtr => if ptr < 8 { ptr } else { 8 },
        _ => 8,
    };
    match kind {
        FieldKind::I8 | FieldKind::I16 | FieldKind::I32 | FieldKind::I64 => {
            let neg = t.len() > 0 && t[0] == '-';
            let body = if neg {
                crate::text::sub_chars(t.as_slice(), 1, t.len())
            } else {
                crate::text::sub_chars(t.as_slice(), 0, t.len())
            };
            assert(body@ =~= (if neg { t@.drop_first() } else { t@ }));
            let v = if has_hex_prefix_exec(body.as_slice()) {
                let h = crate::text::sub_chars(body.as_slice(), 2, body.len());
                assert(h@ =~= body@.skip(2));
                parse_i128_chars(h.as_slice(), true)
            } else {
                parse_i128_chars(body.as_slice(), false)
            };
            match v {
                Some((inner, m)) => {
                    let total = if neg { !inner } else { inner };
                    let x = wrap_signed(total, m);
                    proof {
                        let iv: int = if inner { -(m as int) } else { m as int };
                        assert((if neg { -iv } else { iv }) == (if total { -(m as int) } else { m as int }));
                    }
                    Some(to_le(x, n))
                },
                None => None,
            }
        },
        FieldKind::Bool => {
            let mut l: Vec<char> = Vec::new();
            let mut i: usize = 0;
            while i < s.len()
                invariant
                    i <= s@.len(),
                    l@ == s@.take(i as int).map_values(|c: char| ascii_lower(c)),
                decreases s.len() - i,
            {
                let c = s[i];
                let lc = if 'A' <= c && c <= 'Z' { ((c as u32) + 32) as u8 as char } else { c };
                assert(lc == ascii_lower(c));
                l.push(lc);
                i = i + 1;
                assert(l@ =~= s@.take(i as int).map_values(|c: char| ascii_lower(c)));
            }
            assert(s@.take(s@.len() as int) =~= s@);
            let lv = l.as_slice();
            let t_true = str_chars("true");
            let t_one = str_chars("1");
            let t_yes = str_chars("yes");
            let t_false = str_chars("false");
            let t_zero = str_chars("0");
            let t_no = str_chars("no");
            if crate::text::chars_eq(lv, t_true.as_slice()) || crate::text::chars_eq(lv, t_one.as_slice())
                || crate::text::chars_eq(lv, t_yes.as_slice()) {
                let mut v: Vec<u8> = Vec::new();
                v.push(1);
                assert(v@ =~= seq![1u8]);
                Some(v)
            } else if crate::text::chars_eq(lv, t_false.as_slice()) || crate::text::chars_eq(lv, t_zero.as_slice())
                || crate::text::chars_eq(lv, t_no.as_slice()) {
                let mut v: Vec<u8> = Vec::new();
                v.push(0);
                assert(v@ =~= seq![0u8]);
                Some(v)
            } else {
                None
            }
        },
        _ => {
            let v = if has_hex_prefix_exec(t.as_slice()) {
                let h = crate::text::sub_chars(t.as_slice(), 2, t.len());
                assert(h@ =~= t@.skip(2));
                parse_hex_chars(h.as_slice(), u128::MAX)
            } else {
                parse_unsigned_chars(t.as_slice(), u128::MAX)
            };
            match v {
                Some(m) => Some(to_le(wrap_signed(false, m), n)),
                None => None,
            }
        },
    }
}
/// A bracket that may surround the components of a vector or matrix.
pub open spec fn is_bracket(c: char) -> bool {
    c == '(' || c == ')' || c == '[' || c == ']'
}

/// The first index at or after `i` that is not a bracket.
pub open spec fn brackets_from(s: Seq<char>, i: int) -> int
    decreases s.len() - i,
{
    if 0 <= i < s.len() && is_bracket(s[i]) {
        brackets_from(s, i + 1)
    } else {
        i
    }
}

/// The index just past the last non-bracket before `j`.
pub open spec fn brackets_before(s: Seq<char>, j: int) -> int
    decreases j,
{
    if 0 < j <= s.len() && is_bracket(s[j - 1]) {
        brackets_before(s, j - 1)
    } else {
        j
    }
}

/// `s` without the brackets at either end.
pub open spec fn strip_brackets(s: Seq<char>) -> Seq<char> {
    let a = brackets_from(s, 0);
    let b = brackets_before(s, s.len() as int);
    if a < b {
        s.subrange(a, b)
    } else {
        seq![]
    }
}

/// The comma-separated pieces of the first `n` characters of `t`; the last
/// piece is the one still being read.
pub open spec fn comma_pieces(t: Seq<char>, n: int) -> Seq<Seq<char>>
    decreases n,
{
    if n <= 0 {
        seq![seq![]]
    } else {
        let ps = comma_pieces(t, n - 1);
        if t[n - 1] == ',' {
            ps.push(seq![])
        } else {
            ps.update(ps.len() - 1, ps.last().push(t[n - 1]))
        }
    }
}

proof fn lemma_comma_pieces_nonempty(t: Seq<char>, n: int)
    ensures
        comma_pieces(t, n).len() >= 1,
    decreases n,
{
    if n > 0 {
        lemma_comma_pieces_nonempty(t, n - 1);
    }
}

/// The component texts of a vector or matrix value: brackets at either end
/// dropped, split at commas, each piece trimmed of whitespace.
pub open spec fn component_texts_spec(s: Seq<char>) -> Seq<Seq<char>> {
    let t = strip_brackets(s);
    comma_pieces(t, t.len() as int).map_values(|p: Seq<char>| trim_spec(p))
}

fn strip_bracket_chars(s: &[char]) -> (v: Vec<char>)
    ensures
        v@ == strip_brackets(s@),
{
    let mut a: usize = 0;
    while a < s.len() && (s[a] == '(' || s[a] == ')' || s[a] == '[' || s[a] == ']')
        invariant
            a <= s@.len(),
            brackets_from(s@, 0) == brackets_from(s@, a as int),
        decreases s.len() - a,
    {
        a = a + 1;
    }
    let mut b: usize = s.len();
    while b > 0 && (s[b - 1] == '(' || s[b - 1] == ')' || s[b - 1] == '[' || s[b - 1] == ']')
        invariant
            b <= s@.len(),
            brackets_before(s@, s@.len() as int) == brackets_before(s@, b as int),
        decreases b,
    {
        b = b - 1;
    }
    let mut v: Vec<char> = Vec::new();
    if a < b {
        let mut k: usize = a;
        while k < b
            invariant
                a <= k <= b,
                b <= s@.len(),
                v@ == s@.subrange(a as int, k as int),
            decreases b - k,
        {
            v.push(s[k]);
            k = k + 1;
            assert(v@ =~= s@.subrange(a as int, k as int));
        }
    }
    v
}

/// The component texts of a vector or matrix value written as `text`
/// (brackets at either end dropped, split at commas, each piece trimmed),
/// or `None` when there are not exactly `count` of them.
pub fn component_texts(text: &str, count: usize) -> (r: Option<Vec<String>>)
    ensures
        match r {
            None => component_texts_spec(text@).len() != count,
            Some(v) => {
                &&& component_texts_spec(text@).len() == count
                &&& v@.len() == count
                &&& forall|k: int| 0 <= k < count ==> (#[trigger] v@[k])@ == component_texts_spec(text@)[k]
            },
        },
{
    let cs = str_chars(text);
    let t = strip_bracket_chars(cs.as_slice());
    let mut parts: Vec<Vec<char>> = Vec::new();
    let mut cur: Vec<char> = Vec::new();
    let mut i: usize = 0;
    while i < t.len()
        invariant
            i <= t@.len(),
            parts@.len() + 1 == comma_pieces(t@, i as int).len(),
            forall|k: int| 0 <= k < parts@.len() ==> (#[trigger] parts@[k])@ == comma_pieces(t@, i as int)[k],
            cur@ == comma_pieces(t@, i as int).last(),
        decreases t.len() - i,
    {
        proof {
            lemma_comma_pieces_nonempty(t@, i as int);
        }
        if t[i] == ',' {
            let done = cur;
            parts.push(done);
            cur = Vec::new();
            proof {
                assert(cur@ =~= seq![]);
            }
        } else {
            cur.push(t[i]);
        }
        i = i + 1;
    }
    parts.push(cur);
    let ghost pieces = comma_pieces(t@, t@.len() as int);
    assert(forall|k: int| 0 <= k < parts@.len() ==> (#[trigger] parts@[k])@ == pieces[k]);
    if parts.len() != count {
        return None;
    }
    let mut out: Vec<String> = Vec::new();
    let mut k: usize = 0;
    while k < parts.len()
        invariant
            k <= parts@.len(),
            parts@.len() == count,
            pieces.len() == count,
            pieces == comma_pieces(t@, t@.len() as int),
            t@ == strip_brackets(text@),
            forall|j: int| 0 <= j < parts@.len() ==> (#[trigger] parts@[j])@ == pieces[j],
            out@.len() == k,
            forall|j: int| 0 <= j < k ==> (#[trigger] out@[j])@ == trim_spec(pieces[j]),
        decreases parts.len() - k,
    {
        let tr = trim_chars(parts[k].as_slice());
        out.push(string_of(tr.as_slice()));
        k = k + 1;
    }
    Some(out)
}

} // verus!
