//! The inspector's text round trip: the text a value is shown as, entered
//! back for the same kind, writes the very bytes it was read from.

use vstd::prelude::*;
use crate::compare::{byte_range, le_nat, lemma_le_nat_fits};
use crate::format::{
    format_spec, has_hex_prefix, int_text, le_bytes, parse_i128, parse_signed_text, parse_unsigned_text,
    parse_value_spec, ptr_take, signed_of, wrap64,
};
use crate::text::{
    all_dec, all_hex, dec, dec_value, hex_char_upper, hex_nibble_spec, hex_upper, hex_value_of, is_dec_digit,
    is_space, lemma_dec_roundtrip, lemma_parse_dec, next_where, parse_hex, parse_unsigned, trim_end_at,
    trim_spec, zero_pad,
};
use crate::types::FieldKind;

verus! {

/// Reading `n` little-endian bytes as a number and writing the number back
/// as `n` little-endian bytes gives the bytes again.
proof fn lemma_le_bytes_of_le_nat(s: Seq<u8>)
    ensures
        le_bytes(le_nat(s), s.len()) == s,
    decreases s.len(),
{
    if s.len() > 0 {
        let r = le_nat(s.drop_first());
        let a = s[0] as nat;
        let x = le_nat(s);
        assert(x == a + 256 * r);
        assert(x % 256 == a && x / 256 == r) by (nonlinear_arith)
            requires
                x == a + 256 * r,
                a < 256,
        ;
        lemma_le_bytes_of_le_nat(s.drop_first());
        assert(le_bytes(x, s.len()) == seq![(x % 256) as u8] + le_bytes(x / 256, (s.len() - 1) as nat));
        assert(le_bytes(x, s.len()) =~= s);
    }
}

/// Adding a multiple of `256^n` does not change the low `n` bytes.
proof fn lemma_le_bytes_shift(x: nat, k: nat, n: nat)
    ensures
        le_bytes(x + k * byte_range(n), n) == le_bytes(x, n),
    decreases n,
{
    if n > 0 {
        let m = k * byte_range((n - 1) as nat);
        assert(k * byte_range(n) == 256 * m) by (nonlinear_arith)
            requires
                byte_range(n) == 256 * byte_range((n - 1) as nat),
                m == k * byte_range((n - 1) as nat),
        ;
        let y = x + 256 * m;
        assert(y % 256 == x % 256 && y / 256 == x / 256 + m) by (nonlinear_arith)
            requires
                y == x + 256 * m,
                m >= 0,
        ;
        lemma_le_bytes_shift(x / 256, k, (n - 1) as nat);
    }
}

/// A string whose first and last characters are not whitespace is its own
/// trim.
proof fn lemma_trim_keeps(s: Seq<char>)
    requires
        s.len() > 0,
        !is_space(s[0]),
        !is_space(s.last()),
    ensures
        trim_spec(s) == s,
{
    assert(next_where(s, 0, false) == 0);
    assert(trim_end_at(s, s.len() as int) == s.len());
    assert(s.subrange(0, s.len() as int) =~= s);
}

/// Dropping the underscores of a string without any changes nothing.
proof fn lemma_no_underscores(s: Seq<char>)
    requires
        forall|i: int| 0 <= i < s.len() ==> s[i] != '_',
    ensures
        s.filter(|c: char| c != '_') == s,
    decreases s.len(),
{
    reveal(Seq::filter);
    if s.len() > 0 {
        lemma_no_underscores(s.drop_last());
        assert(s.drop_last().push(s.last()) =~= s);
    }
}

/// A digit character is neither whitespace, nor `_`, nor a sign, nor `x`.
proof fn lemma_digit_plain(c: char)
    requires
        is_dec_digit(c),
    ensures
        !is_space(c),
        c != '_' && c != '+' && c != '-' && c != 'x' && c != 'X',
{
}

/// An upper-case hex digit character reads back as its value.
proof fn lemma_hex_char(d: nat)
    requires
        d < 16,
    ensures
        hex_nibble_spec(hex_char_upper(d)) == Some(d as u8),
        !is_space(hex_char_upper(d)),
        hex_char_upper(d) != '_' && hex_char_upper(d) != '+' && hex_char_upper(d) != '-',
{
}

/// `hex_upper(n)` is a hex digit string that reads back as `n`.
proof fn lemma_hex_roundtrip(n: nat)
    ensures
        all_hex(hex_upper(n)),
        hex_value_of(hex_upper(n)) == n,
        hex_upper(n).len() >= 1,
        forall|i: int| 0 <= i < hex_upper(n).len() ==> !is_space(#[trigger] hex_upper(n)[i]) && hex_upper(n)[i]
            != '_',
        hex_upper(n)[0] != '+' && hex_upper(n)[0] != '-',
    decreases n,
{
    if n < 16 {
        lemma_hex_char(n);
        assert(hex_upper(n).drop_last() =~= Seq::<char>::empty());
        assert(hex_upper(n).last() == hex_char_upper(n));
        assert(hex_value_of(Seq::<char>::empty()) == 0);
        assert(hex_value_of(hex_upper(n)) == hex_value_of(hex_upper(n).drop_last()) * 16 + n);
    } else {
        lemma_hex_roundtrip(n / 16);
        lemma_hex_char(n % 16);
        let h = hex_upper(n / 16);
        assert(hex_upper(n).drop_last() =~= h);
        assert(hex_upper(n).last() == hex_char_upper(n % 16));
        assert((n / 16) * 16 + n % 16 == n);
        assert(hex_value_of(hex_upper(n)) == hex_value_of(h) * 16 + (n % 16));
        assert forall|i: int| 0 <= i < hex_upper(n).len() implies (#[trigger] hex_nibble_spec(hex_upper(n)[i])) is Some
            && !is_space(hex_upper(n)[i]) && hex_upper(n)[i] != '_' by {
            if i < h.len() {
                assert(hex_upper(n)[i] == h[i]);
            }
        }
        assert(hex_upper(n)[0] == h[0]);
    }
}

/// Leading zeros change neither the digits' validity nor their value.
proof fn lemma_zero_pad_hex(s: Seq<char>, w: nat)
    requires
        all_hex(s),
        s.len() >= 1,
    ensures
        all_hex(zero_pad(s, w)),
        hex_value_of(zero_pad(s, w)) == hex_value_of(s),
        zero_pad(s, w).len() >= 1,
        zero_pad(s, w).last() == s.last(),
{
    if s.len() < w {
        let z = Seq::new((w - s.len()) as nat, |i: int| '0');
        assert(hex_nibble_spec('0') == Some(0u8));
        lemma_zeros_then(z, s);
        assert forall|i: int| 0 <= i < zero_pad(s, w).len() implies (#[trigger] hex_nibble_spec(zero_pad(s, w)[i])) is Some by {
            if i < z.len() {
                assert(zero_pad(s, w)[i] == '0');
            } else {
                assert(zero_pad(s, w)[i] == s[i - z.len()]);
            }
        }
    }
}

/// `hex_value_of(z + s) == hex_value_of(s)` for a run `z` of zeros.
proof fn lemma_zeros_then(z: Seq<char>, s: Seq<char>)
    requires
        forall|i: int| 0 <= i < z.len() ==> z[i] == '0',
    ensures
        hex_value_of(z + s) == hex_value_of(s),
    decreases s.len(),
{
    if s.len() == 0 {
        assert(z + s =~= z);
        lemma_zeros_value(z);
    } else {
        lemma_zeros_then(z, s.drop_last());
        assert((z + s).drop_last() =~= z + s.drop_last());
        assert((z + s).last() == s.last());
    }
}

proof fn lemma_zeros_value(z: Seq<char>)
    requires
        forall|i: int| 0 <= i < z.len() ==> z[i] == '0',
    ensures
        hex_value_of(z) == 0,
    decreases z.len(),
{
    if z.len() > 0 {
        lemma_zeros_value(z.drop_last());
        assert(hex_nibble_spec(z.last()) == Some(0u8));
    }
}

/// The kinds whose shown text writes back exactly: the integer and hex
/// kinds always; a boolean when its byte is 0 or 1 (any other byte shows as
/// `true`, which writes 1); a pointer when the pointer width is at most 8
/// (only 8 bytes are ever written).
pub open spec fn writes_back(kind: FieldKind, b: Seq<u8>, ptr: nat) -> bool {
    match kind {
        FieldKind::I8 | FieldKind::I16 | FieldKind::I32 | FieldKind::I64 | FieldKind::U8
        | FieldKind::U16 | FieldKind::U32 | FieldKind::U64 | FieldKind::Unk8 | FieldKind::Unk16
        | FieldKind::Unk32 | FieldKind::Unk64 => true,
        FieldKind::Bool => b.len() > 0 && b[0] <= 1,
        FieldKind::Ptr | FieldKind::StrPtr => ptr <= 8,
        _ => false,
    }
}

/// An unsigned decimal text reads back as its value.
proof fn lemma_unsigned_text(v: nat)
    requires
        v < 0x1_0000_0000_0000_0000,
    ensures
        parse_unsigned_text(trim_spec(dec(v))) == Some(v as int),
        trim_spec(dec(v)) == dec(v),
{
    lemma_dec_roundtrip(v);
    let s = dec(v);
    lemma_digit_plain(s[0]);
    lemma_digit_plain(s.last());
    lemma_trim_keeps(s);
    assert forall|i: int| 0 <= i < s.len() implies s[i] != '_' by {
        lemma_digit_plain(s[i]);
    }
    lemma_no_underscores(s);
    if s.len() >= 2 {
        lemma_digit_plain(s[1]);
    }
    assert(!has_hex_prefix(s));
    lemma_parse_dec(v, u128::MAX as nat);
}

/// The zero-padded hex digits of `v`: hex digits reading back as `v`, with
/// no whitespace, underscore or sign among them.
proof fn lemma_padded_hex(v: nat, w: nat)
    ensures
        all_hex(zero_pad(hex_upper(v), w)),
        hex_value_of(zero_pad(hex_upper(v), w)) == v,
        zero_pad(hex_upper(v), w).len() >= 1,
        !is_space(zero_pad(hex_upper(v), w).last()),
        forall|i: int| 0 <= i < zero_pad(hex_upper(v), w).len() ==> #[trigger] zero_pad(hex_upper(v), w)[i] != '_',
        zero_pad(hex_upper(v), w)[0] != '+' && zero_pad(hex_upper(v), w)[0] != '-',
{
    lemma_hex_roundtrip(v);
    let h = hex_upper(v);
    lemma_zero_pad_hex(h, w);
    let z = zero_pad(h, w);
    assert(z.last() == h.last());
    assert(h.last() == h[h.len() - 1]);
    assert forall|i: int| 0 <= i < z.len() implies #[trigger] z[i] != '_' by {
        if z.len() > h.len() && i < z.len() - h.len() {
            assert(z[i] == '0');
        } else {
            let k = i - (z.len() - h.len());
            assert(z[i] == h[k]);
        }
    }
    if z.len() > h.len() {
        assert(z[0] == '0');
    } else {
        assert(z == h);
    }
}

/// A hex text `0x..` with zero padding reads back as its value.
proof fn lemma_hex_text(v: nat, w: nat)
    requires
        v < 0x1_0000_0000_0000_0000,
    ensures
        parse_unsigned_text(trim_spec(seq!['0', 'x'] + zero_pad(hex_upper(v), w))) == Some(v as int),
{
    lemma_padded_hex(v, w);
    let z = zero_pad(hex_upper(v), w);
    let s = seq!['0', 'x'] + z;
    assert(s.last() == z.last());
    lemma_trim_keeps(s);
    assert forall|i: int| 0 <= i < s.len() implies s[i] != '_' by {
        if i >= 2 {
            assert(s[i] == z[i - 2]);
        }
    }
    lemma_no_underscores(s);
    assert(has_hex_prefix(s));
    assert(s.skip(2) =~= z);
    assert(parse_hex(z, u128::MAX as nat) == Some(v));
}

/// A signed decimal text reads back as its value.
proof fn lemma_signed_text(x: int)
    requires
        -0x8000_0000_0000_0000 <= x < 0x8000_0000_0000_0000,
    ensures
        parse_signed_text(trim_spec(int_text(x))) == Some(x),
{
    if x >= 0 {
        let v = x as nat;
        lemma_dec_roundtrip(v);
        let s = dec(v);
        lemma_digit_plain(s[0]);
        lemma_digit_plain(s.last());
        lemma_trim_keeps(s);
        assert forall|i: int| 0 <= i < s.len() implies s[i] != '_' by {
            lemma_digit_plain(s[i]);
        }
        lemma_no_underscores(s);
        if s.len() >= 2 {
            lemma_digit_plain(s[1]);
        }
        assert(parse_i128(s, false) == Some(x));
    } else {
        let m = (-x) as nat;
        lemma_dec_roundtrip(m);
        let d = dec(m);
        let s = seq!['-'] + d;
        assert(s.last() == d.last());
        lemma_digit_plain(d.last());
        lemma_trim_keeps(s);
        assert forall|i: int| 0 <= i < s.len() implies s[i] != '_' by {
            if i > 0 {
                assert(s[i] == d[i - 1]);
                lemma_digit_plain(d[i - 1]);
            }
        }
        lemma_no_underscores(s);
        assert(s.drop_first() =~= d);
        lemma_digit_plain(d[0]);
        if d.len() >= 2 {
            lemma_digit_plain(d[1]);
        }
        assert(parse_i128(d, false) == Some(m as int));
    }
}

/// The signed reading of `n` bytes, written back as `n` two's-complement
/// bytes, gives the bytes again.
proof fn lemma_signed_bytes(s: Seq<u8>)
    requires
        s.len() == 1 || s.len() == 2 || s.len() == 4 || s.len() == 8,
    ensures
        le_bytes(wrap64(signed_of(le_nat(s), s.len())), s.len()) == s,
        -0x8000_0000_0000_0000 <= signed_of(le_nat(s), s.len()) < 0x8000_0000_0000_0000,
{
    let n = s.len();
    let v = le_nat(s);
    lemma_le_nat_fits(s);
    lemma_le_bytes_of_le_nat(s);
    if v >= byte_range(n) / 2 {
        let k: nat = (0x1_0000_0000_0000_0000nat / byte_range(n) - 1) as nat;
        assert(0x1_0000_0000_0000_0000int == (k + 1) * byte_range(n));
        assert(wrap64(v - byte_range(n)) == v + k * byte_range(n)) by (nonlinear_arith)
            requires
                0x1_0000_0000_0000_0000int == (k + 1) * byte_range(n),
                v < byte_range(n),
                v >= byte_range(n) / 2,
                wrap64(v - byte_range(n)) == ((v - byte_range(n)) % 0x1_0000_0000_0000_0000int) as nat,
                byte_range(n) > 0,
        ;
        lemma_le_bytes_shift(v, k, n);
    } else {
        assert(wrap64(v as int) == v);
    }
}

proof fn lemma_signed_writes_back(kind: FieldKind, b: Seq<u8>, ptr: nat)
    requires
        kind is I8 || kind is I16 || kind is I32 || kind is I64,
        b.len() >= kind.byte_size(ptr),
    ensures
        parse_value_spec(kind, format_spec(kind, b, ptr), ptr) == Some(b.take(kind.byte_size(ptr) as int)),
{
    let n = kind.byte_size(ptr);
    let t = b.take(n as int);
    lemma_signed_bytes(t);
    let x = signed_of(le_nat(t), n);
    lemma_signed_text(x);
    assert(format_spec(kind, b, ptr) == int_text(x));
}

proof fn lemma_unsigned_writes_back(kind: FieldKind, b: Seq<u8>, ptr: nat)
    requires
        kind is U8 || kind is U16 || kind is U32 || kind is U64,
        b.len() >= kind.byte_size(ptr),
    ensures
        parse_value_spec(kind, format_spec(kind, b, ptr), ptr) == Some(b.take(kind.byte_size(ptr) as int)),
{
    let n = kind.byte_size(ptr);
    let t = b.take(n as int);
    lemma_le_nat_fits(t);
    lemma_unsigned_text(le_nat(t));
    lemma_le_bytes_of_le_nat(t);
    assert(wrap64(le_nat(t) as int) == le_nat(t));
}

proof fn lemma_hex_writes_back(kind: FieldKind, b: Seq<u8>, ptr: nat)
    requires
        kind is Unk8 || kind is Unk16 || kind is Unk32 || kind is Unk64,
        b.len() >= kind.byte_size(ptr),
    ensures
        parse_value_spec(kind, format_spec(kind, b, ptr), ptr) == Some(b.take(kind.byte_size(ptr) as int)),
{
    let n = kind.byte_size(ptr);
    let t = b.take(n as int);
    lemma_le_nat_fits(t);
    let w: nat = 2 * n;
    lemma_hex_text(le_nat(t), w);
    lemma_le_bytes_of_le_nat(t);
    assert(wrap64(le_nat(t) as int) == le_nat(t));
    assert("0x"@ == seq!['0', 'x']) by {
        reveal_strlit("0x");
    }
}

proof fn lemma_ptr_writes_back(kind: FieldKind, b: Seq<u8>, ptr: nat)
    requires
        kind is Ptr || kind is StrPtr,
        b.len() >= kind.byte_size(ptr),
        ptr <= 8,
    ensures
        parse_value_spec(kind, format_spec(kind, b, ptr), ptr) == Some(b.take(kind.byte_size(ptr) as int)),
{
    let n = kind.byte_size(ptr);
    let t = b.take(n as int);
    assert(ptr_take(ptr, b.len()) == n);
    lemma_le_nat_fits(t);
    assert(le_nat(t) < 0x1_0000_0000_0000_0000) by {
        crate::compare::lemma_byte_range_mono(n, 8);
    }
    lemma_hex_text(le_nat(t), 0);
    lemma_le_bytes_of_le_nat(t);
    assert(wrap64(le_nat(t) as int) == le_nat(t));
    assert(zero_pad(hex_upper(le_nat(t)), 0) == hex_upper(le_nat(t)));
    assert("0x"@ == seq!['0', 'x']) by {
        reveal_strlit("0x");
    }
}

proof fn lemma_bool_writes_back(b: Seq<u8>, ptr: nat)
    requires
        b.len() >= 1,
        b[0] <= 1,
    ensures
        parse_value_spec(FieldKind::Bool, format_spec(FieldKind::Bool, b, ptr), ptr) == Some(b.take(1)),
{
    reveal_strlit("true");
    reveal_strlit("false");
    reveal_strlit("1");
    reveal_strlit("yes");
    reveal_strlit("0");
    reveal_strlit("no");
    let s = if b[0] != 0 { "true"@ } else { "false"@ };
    lemma_trim_keeps(s);
    let l = s.map_values(|c: char| crate::format::ascii_lower(c));
    assert(l =~= s);
    assert(format_spec(FieldKind::Bool, b, ptr) == s);
    if b[0] != 0 {
        assert(l == "true"@);
        assert(b.take(1) =~= seq![1u8]);
    } else {
        assert(l != "true"@ && l != "1"@ && l != "yes"@) by {
            assert(l.len() == 5);
        }
        assert(l == "false"@);
        assert(b.take(1) =~= seq![0u8]);
    }
}

/// What the inspector shows for a value, entered back for the same kind,
/// writes the bytes the value was read from: for the integer and hex kinds
/// always, for a boolean stored as 0 or 1, and for a pointer whose width is
/// at most 8 bytes.
pub proof fn lemma_shown_value_writes_back(kind: FieldKind, b: Seq<u8>, ptr: nat)
    requires
        b.len() >= kind.byte_size(ptr),
        writes_back(kind, b, ptr),
    ensures
        parse_value_spec(kind, format_spec(kind, b, ptr), ptr) == Some(b.take(kind.byte_size(ptr) as int)),
{
    match kind {
        FieldKind::I8 | FieldKind::I16 | FieldKind::I32 | FieldKind::I64 => lemma_signed_writes_back(kind, b, ptr),
        FieldKind::U8 | FieldKind::U16 | FieldKind::U32 | FieldKind::U64 => lemma_unsigned_writes_back(kind, b, ptr),
        FieldKind::Unk8 | FieldKind::Unk16 | FieldKind::Unk32 | FieldKind::Unk64 => lemma_hex_writes_back(kind, b, ptr),
        FieldKind::Ptr | FieldKind::StrPtr => lemma_ptr_writes_back(kind, b, ptr),
        FieldKind::Bool => lemma_bool_writes_back(b, ptr),
        _ => {},
    }
}

} // verus!
