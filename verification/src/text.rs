//! Character-level helpers shared by the formatters and parsers: decimal and
//! hexadecimal digits, and small string builders.

use vstd::prelude::*;
use vstd::string::*;

verus! {

/// The character for decimal digit `d` (`0..=9`).
pub open spec fn digit_char(d: nat) -> char {
    (('0' as u32) + d) as char
}

/// Whether `c` is an ASCII decimal digit.
pub open spec fn is_dec_digit(c: char) -> bool {
    '0' <= c && c <= '9'
}

/// The value of an ASCII decimal digit.
pub open spec fn dec_digit_value(c: char) -> nat {
    ((c as u32) - ('0' as u32)) as nat
}

/// The shortest decimal representation of `n` (no sign, no leading zeros).
pub open spec fn dec(n: nat) -> Seq<char>
    decreases n,
{
    if n < 10 {
        seq![digit_char(n)]
    } else {
        dec(n / 10).push(digit_char(n % 10))
    }
}

/// Appends `c` to `s`.
#[verifier::external_body]
pub fn push_char(s: &mut String, c: char)
    ensures
        final(s)@ == old(s)@.push(c),
{
    s.push(c);
}

/// Appends the decimal representation of `n` to `s`.
pub fn push_dec(s: &mut String, n: u128)
    ensures
        final(s)@ == old(s)@ + dec(n as nat),
    decreases n,
{
    if n >= 10 {
        push_dec(s, n / 10);
    }
    let d = (n % 10) as u32;
    let c = char_of_digit(d);
    push_char(s, c);
    proof {
        assert(old(s)@ + dec(n as nat) =~= old(s)@ + (if n >= 10 { dec((n / 10) as nat) } else { seq![] }) + seq![c]);
    }
}

fn char_of_digit(d: u32) -> (c: char)
    requires
        d < 10,
    ensures
        c == digit_char(d as nat),
{
    if d == 0 { '0' } else if d == 1 { '1' } else if d == 2 { '2' } else if d == 3 { '3' }
    else if d == 4 { '4' } else if d == 5 { '5' } else if d == 6 { '6' } else if d == 7 { '7' }
    else if d == 8 { '8' } else { '9' }
}


/// The characters of `s`, in order.
pub fn str_chars(s: &str) -> (v: Vec<char>)
    ensures
        v@ == s@,
{
    let n = s.unicode_len();
    let mut v: Vec<char> = Vec::new();
    let mut i: usize = 0;
    while i < n
        invariant
            n == s@.len(),
            i <= n,
            v@ == s@.take(i as int),
        decreases n - i,
    {
        let c = s.get_char(i);
        v.push(c);
        i = i + 1;
        assert(v@ =~= s@.take(i as int));
    }
    assert(v@ =~= s@);
    v
}

/// Whether two character slices hold the same characters.
pub fn chars_eq(a: &[char], b: &[char]) -> (r: bool)
    ensures
        r == (a@ == b@),
{
    if a.len() != b.len() {
        return false;
    }
    let mut i: usize = 0;
    while i < a.len()
        invariant
            a@.len() == b@.len(),
            i <= a@.len(),
            forall|j: int| 0 <= j < i ==> a@[j] == b@[j],
        decreases a.len() - i,
    {
        if a[i] != b[i] {
            return false;
        }
        i = i + 1;
    }
    assert(a@ =~= b@);
    true
}

/// Whether two strings hold the same characters.
pub fn str_eq(a: &str, b: &str) -> (r: bool)
    ensures
        r == (a@ == b@),
{
    let x = str_chars(a);
    let y = str_chars(b);
    chars_eq(x.as_slice(), y.as_slice())
}

/// Appends every character of `t` to `s`.
pub fn push_chars(s: &mut String, t: &[char])
    ensures
        final(s)@ == old(s)@ + t@,
{
    let mut i: usize = 0;
    while i < t.len()
        invariant
            i <= t@.len(),
            s@ == old(s)@ + t@.take(i as int),
        decreases t.len() - i,
    {
        push_char(s, t[i]);
        i = i + 1;
        assert(s@ =~= old(s)@ + t@.take(i as int));
    }
    assert(t@.take(t@.len() as int) =~= t@);
}

/// A new string holding exactly the characters of `t`.
pub fn string_of(t: &[char]) -> (s: String)
    ensures
        s@ == t@,
{
    let mut s = String::new();
    push_chars(&mut s, t);
    assert(s@ =~= t@);
    s
}


/// Whether every character of `s` is an ASCII decimal digit.
pub open spec fn all_dec(s: Seq<char>) -> bool {
    forall|i: int| 0 <= i < s.len() ==> is_dec_digit(#[trigger] s[i])
}

/// The value of a string of decimal digits (0 for the empty string).
pub open spec fn dec_value(s: Seq<char>) -> nat
    decreases s.len(),
{
    if s.len() == 0 {
        0
    } else {
        dec_value(s.drop_last()) * 10 + dec_digit_value(s.last())
    }
}

/// How Rust's `FromStr` for an unsigned integer type whose largest value is
/// `max` reads `s`: an optional leading `+`, then one or more decimal digits
/// whose value does not exceed `max`. A lone sign is rejected.
pub open spec fn parse_unsigned(s: Seq<char>, max: nat) -> Option<nat> {
    if s.len() == 0 {
        None
    } else if (s[0] == '+' || s[0] == '-') && s.len() == 1 {
        None
    } else {
        let d = if s[0] == '+' { s.drop_first() } else { s };
        if all_dec(d) && dec_value(d) <= max {
            Some(dec_value(d))
        } else {
            None
        }
    }
}

/// A prefix of a digit string never has a larger value than the whole.
pub proof fn lemma_dec_value_prefix(s: Seq<char>, i: int)
    requires
        0 <= i <= s.len(),
        all_dec(s),
    ensures
        dec_value(s.take(i)) <= dec_value(s),
    decreases s.len() - i,
{
    if i < s.len() {
        lemma_dec_value_prefix(s, i + 1);
        assert(s.take(i + 1).drop_last() =~= s.take(i));
    } else {
        assert(s.take(i) =~= s);
    }
}

/// `dec(n)` is a digit string that reads back as `n`, starts with no sign,
/// and holds no character other than a digit.
pub proof fn lemma_dec_roundtrip(n: nat)
    ensures
        all_dec(dec(n)),
        dec_value(dec(n)) == n,
        dec(n).len() >= 1,
        is_dec_digit(dec(n)[0]),
    decreases n,
{
    if n < 10 {
        assert(dec_digit_value(digit_char(n)) == n);
        assert(dec(n).drop_last() =~= Seq::<char>::empty());
        assert(dec_value(Seq::<char>::empty()) == 0);
        assert(dec(n).last() == digit_char(n));
        assert(dec_value(dec(n)) == dec_value(dec(n).drop_last()) * 10 + dec_digit_value(dec(n).last()));
    } else {
        lemma_dec_roundtrip(n / 10);
        let d = dec(n / 10);
        assert(dec(n).drop_last() =~= d);
        assert(dec_digit_value(digit_char(n % 10)) == n % 10);
        assert(dec(n).last() == digit_char(n % 10));
        assert(dec_value(dec(n)) == dec_value(dec(n).drop_last()) * 10 + dec_digit_value(dec(n).last()));
        assert(dec_value(dec(n)) == dec_value(d) * 10 + dec_digit_value(digit_char(n % 10)));
        assert((n / 10) * 10 + n % 10 == n);
        assert forall|i: int| 0 <= i < dec(n).len() implies is_dec_digit(#[trigger] dec(n)[i]) by {
            if i < d.len() {
                assert(dec(n)[i] == d[i]);
            }
        }
    }
}

/// `parse_unsigned` reads `dec(n)` back as `n` whenever `n` fits.
pub proof fn lemma_parse_dec(n: nat, max: nat)
    requires
        n <= max,
    ensures
        parse_unsigned(dec(n), max) == Some(n),
{
    lemma_dec_roundtrip(n);
}

/// Reads `s` as Rust's `FromStr` does for an unsigned type whose largest
/// value is `max`.
pub fn parse_unsigned_chars(s: &[char], max: u128) -> (r: Option<u128>)
    requires
        max >= 9,
    ensures
        match r {
            Some(v) => parse_unsigned(s@, max as nat) == Some(v as nat),
            None => parse_unsigned(s@, max as nat) is None,
        },
{
    let n = s.len();
    if n == 0 {
        return None;
    }
    if (s[0] == '+' || s[0] == '-') && n == 1 {
        return None;
    }
    let start: usize = if s[0] == '+' { 1 } else { 0 };
    let ghost d = if s@[0] == '+' { s@.drop_first() } else { s@ };
    assert(d =~= s@.skip(start as int));
    let mut acc: u128 = 0;
    let mut i: usize = start;
    while i < n
        invariant
            n == s@.len(),
            start <= i <= n,
            d == s@.skip(start as int),
            d == (if s@[0] == '+' { s@.drop_first() } else { s@ }),
            s@.len() > 0,
            !((s@[0] == '+' || s@[0] == '-') && s@.len() == 1),
            all_dec(d.take(i - start)),
            acc as nat == dec_value(d.take(i - start)),
            acc <= max,
            max >= 9,
        decreases n - i,
    {
        let c = s[i];
        if !('0' <= c && c <= '9') {
            assert(!is_dec_digit(d[i - start]));
            return None;
        }
        let dv = (c as u32 - '0' as u32) as u128;
        assert(d.take(i + 1 - start).drop_last() =~= d.take(i - start));
        if acc > (max - dv) / 10 {
            proof {
                assert(dec_value(d.take(i + 1 - start)) > max as nat) by (nonlinear_arith)
                    requires
                        dec_value(d.take(i + 1 - start)) == acc as nat * 10 + dv as nat,
                        acc > (max - dv) / 10,
                        dv <= 9,
                        max >= 9,
                ;
                if all_dec(d) {
                    lemma_dec_value_prefix(d, (i + 1 - start) as int);
                }
            }
            return None;
        }
        proof {
            assert(acc * 10 + dv <= max) by (nonlinear_arith)
                requires
                    acc <= (max - dv) / 10,
                    dv <= 9,
                    max >= 9,
            ;
        }
        acc = acc * 10 + dv;
        i = i + 1;
        assert forall|j: int| 0 <= j < d.take(i - start).len() implies is_dec_digit(
            #[trigger] d.take(i - start)[j],
        ) by {
            if j < i - 1 - start {
                assert(d.take(i - start)[j] == d.take(i - 1 - start)[j]);
            }
        }
    }
    assert(d.take(n - start) =~= d);
    Some(acc)
}


/// A copy of `s[lo..hi]`.
pub fn sub_chars(s: &[char], lo: usize, hi: usize) -> (v: Vec<char>)
    requires
        lo <= hi <= s@.len(),
    ensures
        v@ == s@.subrange(lo as int, hi as int),
{
    let mut v: Vec<char> = Vec::new();
    let mut i = lo;
    while i < hi
        invariant
            lo <= i <= hi,
            hi <= s@.len(),
            v@ == s@.subrange(lo as int, i as int),
        decreases hi - i,
    {
        v.push(s[i]);
        i = i + 1;
        assert(v@ =~= s@.subrange(lo as int, i as int));
    }
    v
}

/// Whitespace as `char::is_whitespace` defines it (Unicode White_Space).
pub open spec fn is_space(c: char) -> bool {
    let u = c as u32;
    (0x09 <= u <= 0x0d) || u == 0x20 || u == 0x85 || u == 0xa0 || u == 0x1680 || (0x2000 <= u
        <= 0x200a) || u == 0x2028 || u == 0x2029 || u == 0x202f || u == 0x205f || u == 0x3000
}

/// The first position at or after `i` whose whitespace-ness is `ws`.
pub open spec fn next_where(s: Seq<char>, i: int, ws: bool) -> int
    decreases s.len() - i,
{
    if 0 <= i < s.len() && is_space(s[i]) != ws {
        next_where(s, i + 1, ws)
    } else {
        i
    }
}

/// `next_where` stays within `[i, s.len()]`.
pub proof fn lemma_next_where_bounds(s: Seq<char>, i: int, ws: bool)
    requires
        0 <= i <= s.len(),
    ensures
        i <= next_where(s, i, ws) <= s.len(),
        forall|j: int| i <= j < next_where(s, i, ws) ==> is_space(#[trigger] s[j]) != ws,
        next_where(s, i, ws) < s.len() ==> is_space(s[next_where(s, i, ws)]) == ws,
    decreases s.len() - i,
{
    if i < s.len() && is_space(s[i]) != ws {
        lemma_next_where_bounds(s, i + 1, ws);
    }
}

/// The whitespace-separated tokens of `s` from position `i` on, as
/// `str::split_whitespace` yields them.
pub open spec fn tokens_from(s: Seq<char>, i: int) -> Seq<Seq<char>>
    decreases s.len() - i,
{
    if i < 0 || i >= s.len() {
        seq![]
    } else if is_space(s[i]) {
        tokens_from(s, i + 1)
    } else {
        let k = next_where(s, i, true);
        proof {
            lemma_next_where_bounds(s, i, true);
        }
        seq![s.subrange(i, k)] + tokens_from(s, k)
    }
}

/// An ASCII hex digit character and its value.
pub open spec fn hex_nibble_spec(c: char) -> Option<u8> {
    if '0' <= c <= '9' {
        Some(((c as u32) - ('0' as u32)) as u8)
    } else if 'a' <= c <= 'f' {
        Some((10 + (c as u32) - ('a' as u32)) as u8)
    } else if 'A' <= c <= 'F' {
        Some((10 + (c as u32) - ('A' as u32)) as u8)
    } else {
        None
    }
}

/// Whether `c` is whitespace as `char::is_whitespace` defines it.
pub fn is_space_char(c: char) -> (r: bool)
    ensures
        r == is_space(c),
{
    let u = c as u32;
    (0x09 <= u && u <= 0x0d) || u == 0x20 || u == 0x85 || u == 0xa0 || u == 0x1680 || (0x2000 <= u
        && u <= 0x200a) || u == 0x2028 || u == 0x2029 || u == 0x202f || u == 0x205f || u == 0x3000
}

/// The value of `c` as an ASCII hex digit, if it is one.
pub fn hex_nibble(c: char) -> (r: Option<u8>)
    ensures
        r == hex_nibble_spec(c),
{
    if '0' <= c && c <= '9' {
        Some((c as u32 - '0' as u32) as u8)
    } else if 'a' <= c && c <= 'f' {
        Some((10 + c as u32 - 'a' as u32) as u8)
    } else if 'A' <= c && c <= 'F' {
        Some((10 + c as u32 - 'A' as u32) as u8)
    } else {
        None
    }
}


/// The whitespace-separated tokens of `s`, as `str::split_whitespace` yields
/// them.
pub fn split_ws(s: &[char]) -> (v: Vec<Vec<char>>)
    ensures
        v@.len() == tokens_from(s@, 0).len(),
        forall|i: int| 0 <= i < v@.len() ==> (#[trigger] v@[i])@ == tokens_from(s@, 0)[i],
{
    let n = s.len();
    let mut out: Vec<Vec<char>> = Vec::new();
    let mut i: usize = 0;
    let ghost mut done: Seq<Seq<char>> = seq![];
    assert(tokens_from(s@, 0) =~= done + tokens_from(s@, 0));
    while i < n
        invariant
            n == s@.len(),
            i <= n,
            tokens_from(s@, 0) == done + tokens_from(s@, i as int),
            out@.len() == done.len(),
            forall|j: int| 0 <= j < out@.len() ==> (#[trigger] out@[j])@ == done[j],
        decreases n - i,
    {
        if is_space_char(s[i]) {
            i = i + 1;
            continue;
        }
        let mut k = i;
        while k < n && !is_space_char(s[k])
            invariant
                i <= k <= n,
                n == s@.len(),
                next_where(s@, i as int, true) == next_where(s@, k as int, true),
            decreases n - k,
        {
            k = k + 1;
        }
        proof {
            lemma_next_where_bounds(s@, i as int, true);
        }
        let tok = sub_chars(s, i, k);
        let ghost rest = tokens_from(s@, k as int);
        assert(tokens_from(s@, i as int) == seq![tok@] + rest);
        assert(done + tokens_from(s@, i as int) =~= done.push(tok@) + rest);
        out.push(tok);
        proof {
            done = done.push(out@[out@.len() - 1]@);
        }
        i = k;
    }
    assert(done + tokens_from(s@, n as int) =~= done);
    out
}

/// The character for hex digit `d` (`0..=15`), lower case.
pub open spec fn hex_char(d: nat) -> char {
    if d < 10 {
        digit_char(d)
    } else {
        (('a' as u32) + (d - 10)) as char
    }
}

/// The shortest lower-case hexadecimal representation of `n` (no prefix).
pub open spec fn hex_lower(n: nat) -> Seq<char>
    decreases n,
{
    if n < 16 {
        seq![hex_char(n)]
    } else {
        hex_lower(n / 16).push(hex_char(n % 16))
    }
}

fn char_of_hex_digit(d: u32) -> (c: char)
    requires
        d < 16,
    ensures
        c == hex_char(d as nat),
{
    if d < 10 {
        char_of_digit(d)
    } else if d == 10 { 'a' } else if d == 11 { 'b' } else if d == 12 { 'c' } else if d == 13 { 'd' }
    else if d == 14 { 'e' } else { 'f' }
}

/// Appends the lower-case hexadecimal representation of `n` to `s`.
pub fn push_hex(s: &mut String, n: u128)
    ensures
        final(s)@ == old(s)@ + hex_lower(n as nat),
    decreases n,
{
    if n >= 16 {
        push_hex(s, n / 16);
    }
    let d = (n % 16) as u32;
    let c = char_of_hex_digit(d);
    push_char(s, c);
    proof {
        assert(old(s)@ + hex_lower(n as nat) =~= old(s)@ + (if n >= 16 { hex_lower((n / 16) as nat) } else { seq![] }) + seq![c]);
    }
}

/// Whether every character of `s` is an ASCII hex digit.
pub open spec fn all_hex(s: Seq<char>) -> bool {
    forall|i: int| 0 <= i < s.len() ==> (#[trigger] hex_nibble_spec(s[i])) is Some
}

/// The value of a string of hex digits (0 for the empty string).
pub open spec fn hex_value_of(s: Seq<char>) -> nat
    decreases s.len(),
{
    if s.len() == 0 {
        0
    } else {
        hex_value_of(s.drop_last()) * 16 + match hex_nibble_spec(s.last()) {
            Some(v) => v as nat,
            None => 0,
        }
    }
}

/// How Rust's `from_str_radix(s, 16)` for an unsigned integer type whose
/// largest value is `max` reads `s`: an optional leading `+`, then one or
/// more hex digits whose value does not exceed `max`. A lone sign is
/// rejected.
pub open spec fn parse_hex(s: Seq<char>, max: nat) -> Option<nat> {
    if s.len() == 0 {
        None
    } else if (s[0] == '+' || s[0] == '-') && s.len() == 1 {
        None
    } else {
        let d = if s[0] == '+' { s.drop_first() } else { s };
        if all_hex(d) && hex_value_of(d) <= max {
            Some(hex_value_of(d))
        } else {
            None
        }
    }
}

/// A prefix of a hex digit string never has a larger value than the whole.
pub proof fn lemma_hex_value_prefix(s: Seq<char>, i: int)
    requires
        0 <= i <= s.len(),
        all_hex(s),
    ensures
        hex_value_of(s.take(i)) <= hex_value_of(s),
    decreases s.len() - i,
{
    if i < s.len() {
        lemma_hex_value_prefix(s, i + 1);
        assert(s.take(i + 1).drop_last() =~= s.take(i));
    } else {
        assert(s.take(i) =~= s);
    }
}

/// Reads `s` as Rust's `from_str_radix(s, 16)` does for an unsigned type
/// whose largest value is `max`.
pub fn parse_hex_chars(s: &[char], max: u128) -> (r: Option<u128>)
    requires
        max >= 15,
    ensures
        match r {
            Some(v) => parse_hex(s@, max as nat) == Some(v as nat),
            None => parse_hex(s@, max as nat) is None,
        },
{
    let n = s.len();
    if n == 0 {
        return None;
    }
    if (s[0] == '+' || s[0] == '-') && n == 1 {
        return None;
    }
    let start: usize = if s[0] == '+' { 1 } else { 0 };
    let ghost d = if s@[0] == '+' { s@.drop_first() } else { s@ };
    assert(d =~= s@.skip(start as int));
    let mut acc: u128 = 0;
    let mut i: usize = start;
    while i < n
        invariant
            n == s@.len(),
            start <= i <= n,
            d == s@.skip(start as int),
            d == (if s@[0] == '+' { s@.drop_first() } else { s@ }),
            s@.len() > 0,
            !((s@[0] == '+' || s@[0] == '-') && s@.len() == 1),
            all_hex(d.take(i - start)),
            acc as nat == hex_value_of(d.take(i - start)),
            acc <= max,
            max >= 15,
        decreases n - i,
    {
        let c = s[i];
        let dv = match hex_nibble(c) {
            Some(v) => v as u128,
            None => {
                assert(hex_nibble_spec(d[i - start]) is None);
                return None;
            },
        };
        assert(d.take(i + 1 - start).drop_last() =~= d.take(i - start));
        assert(d.take(i + 1 - start).last() == c);
        if acc > (max - dv) / 16 {
            proof {
                assert(hex_value_of(d.take(i + 1 - start)) > max as nat) by (nonlinear_arith)
                    requires
                        hex_value_of(d.take(i + 1 - start)) == acc as nat * 16 + dv as nat,
                        acc > (max - dv) / 16,
                        dv <= 15,
                        max >= 15,
                ;
                if all_hex(d) {
                    lemma_hex_value_prefix(d, (i + 1 - start) as int);
                }
            }
            return None;
        }
        proof {
            assert(acc * 16 + dv <= max) by (nonlinear_arith)
                requires
                    acc <= (max - dv) / 16,
                    dv <= 15,
                    max >= 15,
            ;
        }
        acc = acc * 16 + dv;
        i = i + 1;
        assert forall|j: int| 0 <= j < d.take(i - start).len() implies (#[trigger] hex_nibble_spec(
            d.take(i - start)[j],
        )) is Some by {
            if j < i - 1 - start {
                assert(d.take(i - start)[j] == d.take(i - 1 - start)[j]);
            }
        }
    }
    assert(d.take(n - start) =~= d);
    Some(acc)
}

/// The character for hex digit `d` (`0..=15`), upper case.
pub open spec fn hex_char_upper(d: nat) -> char {
    if d < 10 {
        digit_char(d)
    } else {
        (('A' as u32) + (d - 10)) as char
    }
}

/// The shortest upper-case hexadecimal representation of `n` (no prefix).
pub open spec fn hex_upper(n: nat) -> Seq<char>
    decreases n,
{
    if n < 16 {
        seq![hex_char_upper(n)]
    } else {
        hex_upper(n / 16).push(hex_char_upper(n % 16))
    }
}

fn char_of_hex_digit_upper(d: u32) -> (c: char)
    requires
        d < 16,
    ensures
        c == hex_char_upper(d as nat),
{
    if d < 10 {
        char_of_digit(d)
    } else if d == 10 { 'A' } else if d == 11 { 'B' } else if d == 12 { 'C' } else if d == 13 { 'D' }
    else if d == 14 { 'E' } else { 'F' }
}

/// Appends the upper-case hexadecimal representation of `n` to `s`.
pub fn push_hex_upper(s: &mut String, n: u128)
    ensures
        final(s)@ == old(s)@ + hex_upper(n as nat),
    decreases n,
{
    if n >= 16 {
        push_hex_upper(s, n / 16);
    }
    let d = (n % 16) as u32;
    let c = char_of_hex_digit_upper(d);
    push_char(s, c);
    proof {
        assert(old(s)@ + hex_upper(n as nat) =~= old(s)@ + (if n >= 16 { hex_upper((n / 16) as nat) } else { seq![] }) + seq![c]);
    }
}

/// `s` left-padded with `0` to at least `w` characters.
pub open spec fn zero_pad(s: Seq<char>, w: nat) -> Seq<char> {
    if s.len() >= w {
        s
    } else {
        Seq::new((w - s.len()) as nat, |i: int| '0') + s
    }
}

/// Appends `t` to `s`, left-padded with `0` to at least `w` characters.
pub fn push_padded(s: &mut String, t: &[char], w: usize)
    ensures
        final(s)@ == old(s)@ + zero_pad(t@, w as nat),
{
    let mut k: usize = t.len();
    let ghost s0 = old(s)@;
    while k < w
        invariant
            t@.len() <= k <= w || (k == t@.len() && k >= w),
            s@ == s0 + Seq::new((k - t@.len()) as nat, |i: int| '0'),
        decreases w - k,
    {
        push_char(s, '0');
        k = k + 1;
        assert(s@ =~= s0 + Seq::new((k - t@.len()) as nat, |i: int| '0'));
    }
    push_chars(s, t);
    if t.len() >= w {
        assert(s@ =~= s0 + zero_pad(t@, w as nat));
    } else {
        assert(s@ =~= s0 + zero_pad(t@, w as nat));
    }
}

/// The position just past the last non-whitespace character of `s[..e]`
/// (0 when there is none).
pub open spec fn trim_end_at(s: Seq<char>, e: int) -> int
    decreases e,
{
    if e <= 0 {
        0
    } else if is_space(s[e - 1]) {
        trim_end_at(s, e - 1)
    } else {
        e
    }
}

/// `s` without leading and trailing whitespace, as `str::trim` gives it.
pub open spec fn trim_spec(s: Seq<char>) -> Seq<char> {
    let a = next_where(s, 0, false);
    if a >= s.len() {
        seq![]
    } else {
        s.subrange(a, trim_end_at(s, s.len() as int))
    }
}

proof fn lemma_trim_end_le(s: Seq<char>, e: int)
    ensures
        trim_end_at(s, e) <= (if e > 0 { e } else { 0 }),
    decreases e,
{
    if e > 0 && is_space(s[e - 1]) {
        lemma_trim_end_le(s, e - 1);
    }
}

proof fn lemma_trim_end_bounds(s: Seq<char>, e: int, a: int)
    requires
        0 <= a < e <= s.len(),
        !is_space(s[a]),
    ensures
        a < trim_end_at(s, e) <= e,
    decreases e,
{
    if is_space(s[e - 1]) {
        lemma_trim_end_bounds(s, e - 1, a);
    }
}

/// The characters of `s` without leading and trailing whitespace.
pub fn trim_chars(s: &[char]) -> (v: Vec<char>)
    ensures
        v@ == trim_spec(s@),
{
    let n = s.len();
    let mut a: usize = 0;
    while a < n && is_space_char(s[a])
        invariant
            a <= n,
            n == s@.len(),
            next_where(s@, 0, false) == next_where(s@, a as int, false),
        decreases n - a,
    {
        a = a + 1;
    }
    if a >= n {
        return Vec::new();
    }
    let mut e: usize = n;
    proof {
        lemma_trim_end_bounds(s@, n as int, a as int);
    }
    while e > a && is_space_char(s[e - 1])
        invariant
            a < n,
            a <= e <= n,
            n == s@.len(),
            !is_space(s@[a as int]),
            trim_end_at(s@, n as int) == trim_end_at(s@, e as int),
            trim_end_at(s@, n as int) > a,
            trim_end_at(s@, e as int) <= e,
        decreases e,
    {
        e = e - 1;
        proof {
            lemma_trim_end_le(s@, e as int);
        }
    }
    sub_chars(s, a, e)
}

/// `s` without any `c`, order kept.
pub fn chars_without(s: &[char], c: char) -> (v: Vec<char>)
    ensures
        v@ == s@.filter(|x: char| x != c),
{
    let mut out: Vec<char> = Vec::new();
    let mut i: usize = 0;
    while i < s.len()
        invariant
            i <= s@.len(),
            out@ == s@.take(i as int).filter(|x: char| x != c),
        decreases s.len() - i,
    {
        proof {
            reveal(Seq::filter);
            assert(s@.take(i + 1).drop_last() =~= s@.take(i as int));
        }
        if s[i] != c {
            out.push(s[i]);
        }
        i = i + 1;
    }
    assert(s@.take(s@.len() as int) =~= s@);
    out
}
} // verus!
