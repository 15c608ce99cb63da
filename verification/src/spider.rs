//! Structure spider: the geometry of a pointer-chain search and the address
//! expressions of the chains it finds.

use vstd::prelude::*;
use vstd::string::*;
use vstd::utf8::*;
use crate::error::SdkError;
use crate::table::{fresh_entry, CheatEntry};
use crate::types::FieldKind;
use crate::offset::{
    eval_spec, expect_at, expr_at, expr_rest, factor_at, follow_chain, hex_end, hex_val, hex_value, is_hex, is_ws, number_at,
    resolve_spec, skip_ws, term_at, AddrEnv, EvalErr,
};
use crate::text::{hex_char_upper, hex_upper, push_char, push_chars, push_hex_upper, str_chars};

verus! {

/// The window a search step covers from `address`: from `address` rounded
/// up to the alignment (at least 1) for `struct_size` bytes; `None` when
/// either end would overflow the address space.
pub open spec fn window_spec(address: usize, alignment: usize, struct_size: usize) -> Option<(usize, usize)> {
    let a: int = if alignment >= 1 { alignment as int } else { 1 };
    let rem = (address as int) % a;
    let start: int = if rem == 0 { address as int } else { address + (a - rem) };
    if start > usize::MAX || start + struct_size > usize::MAX {
        None
    } else {
        Some((start as usize, (start + struct_size) as usize))
    }
}

/// The window a search step covers from `address`.
pub fn search_window(address: usize, alignment: usize, struct_size: usize) -> (r: Option<(usize, usize)>)
    ensures
        r == window_spec(address, alignment, struct_size),
{
    let alignment = if alignment >= 1 { alignment } else { 1 };
    let rem = address % alignment;
    let start = if rem == 0 {
        address
    } else {
        match address.checked_add(alignment - rem) {
            Some(s) => s,
            None => return None,
        }
    };
    match start.checked_add(struct_size) {
        Some(end) => Some((start, end)),
        None => None,
    }
}

/// Whether the pointer `ptr` read at `address` is followed deeper: it sits
/// 8-aligned, is non-null, and does not point back at the structure being
/// searched (whose readability the caller checks).
pub fn follows(address: usize, ptr: usize, parent: usize) -> (r: bool)
    ensures
        r == (address % 8 == 0 && ptr != 0 && ptr != parent),
{
    address % 8 == 0 && ptr != 0 && ptr != parent
}

/// The expression for a chain of parent-pointer offsets from `root`: each
/// offset wraps the expression so far in a dereference.
pub open spec fn chain_text(root: usize, offsets: Seq<usize>) -> Seq<char>
    decreases offsets.len(),
{
    if offsets.len() == 0 {
        "0x"@ + hex_upper(root as nat)
    } else {
        "["@ + chain_text(root, offsets.drop_last()) + "+0x"@ + hex_upper(offsets.last() as nat) + "]"@
    }
}

/// The address expression of a found path, e.g. `[0x1400+0x10]+0x8`: the
/// chain of parent offsets from `root`, then the final offset.
pub open spec fn spider_expr_spec(root: usize, offsets: Seq<usize>, offset: usize) -> Seq<char> {
    chain_text(root, offsets) + "+0x"@ + hex_upper(offset as nat)
}

/// A cheat-table entry for a found path: its address expression, typed
/// `kind`, described by `description`, or by `spider` when that is empty.
pub fn spider_entry(root: usize, offsets: &[usize], offset: usize, kind: FieldKind, description: &str) -> (e: CheatEntry)
    ensures
        fresh_entry(
            e,
            if description@.len() == 0 { "spider"@ } else { description@ },
            spider_expr_spec(root, offsets@, offset),
            kind,
        ),
{
    let expr = spider_expr(root, offsets, offset);
    if description.unicode_len() == 0 {
        CheatEntry::new("spider", expr.as_str(), kind)
    } else {
        CheatEntry::new(description, expr.as_str(), kind)
    }
}

/// Builds the address expression of a found path, usable as a cheat-table
/// address.
pub fn spider_expr(root: usize, offsets: &[usize], offset: usize) -> (s: String)
    ensures
        s@ == spider_expr_spec(root, offsets@, offset),
{
    let mut e = String::from_str("0x");
    push_hex_upper(&mut e, root as u128);
    let mut k: usize = 0;
    while k < offsets.len()
        invariant
            k <= offsets@.len(),
            e@ == chain_text(root, offsets@.take(k as int)),
        decreases offsets.len() - k,
    {
        assert(offsets@.take(k + 1).drop_last() =~= offsets@.take(k as int));
        let inner = str_chars(e.as_str());
        let mut next = String::from_str("[");
        push_chars(&mut next, inner.as_slice());
        next.append("+0x");
        push_hex_upper(&mut next, offsets[k] as u128);
        next.append("]");
        e = next;
        k = k + 1;
    }
    assert(offsets@.take(offsets@.len() as int) =~= offsets@);
    e.append("+0x");
    push_hex_upper(&mut e, offset as u128);
    e
}


// --- The expression of a path evaluates to the address its chain resolves to.

/// The bytes of `hex_upper(n)`.
pub open spec fn hex_bytes(n: nat) -> Seq<u8> {
    hex_upper(n).map_values(|c: char| c as u8)
}

/// The bytes of `0x` followed by `n` in upper-case hex.
pub open spec fn num_bytes(n: nat) -> Seq<u8> {
    seq![0x30u8, 0x78u8] + hex_bytes(n)
}

/// The bytes of `spider_expr_spec(root, offsets, offset)`.
pub open spec fn expr_bytes(root: usize, offsets: Seq<usize>, offset: usize) -> Seq<u8>
    decreases offsets.len(), 1int,
{
    chain_bytes(root, offsets) + seq![0x2bu8] + num_bytes(offset as nat)
}

/// The bytes of `chain_text(root, offsets)`.
pub open spec fn chain_bytes(root: usize, offsets: Seq<usize>) -> Seq<u8>
    decreases offsets.len(), 0int,
{
    if offsets.len() == 0 {
        num_bytes(root as nat)
    } else {
        seq![0x5bu8] + expr_bytes(root, offsets.drop_last(), offsets.last()) + seq![0x5du8]
    }
}

/// Each character of `hex_upper(n)` is an upper-case hex digit.
proof fn lemma_hex_upper_chars(n: nat)
    ensures
        forall|i: int| 0 <= i < hex_upper(n).len() ==> {
            let c = #[trigger] hex_upper(n)[i];
            ('0' <= c <= '9') || ('A' <= c <= 'F')
        },
        hex_upper(n).len() >= 1,
    decreases n,
{
    if n >= 16 {
        lemma_hex_upper_chars(n / 16);
        let h = hex_upper(n / 16);
        assert forall|i: int| 0 <= i < hex_upper(n).len() implies {
            let c = #[trigger] hex_upper(n)[i];
            ('0' <= c <= '9') || ('A' <= c <= 'F')
        } by {
            if i < h.len() {
                assert(hex_upper(n)[i] == h[i]);
            }
        }
    }
}

/// The bytes of a sequence of ASCII characters are its UTF-8 encoding.
proof fn lemma_ascii_encode(cs: Seq<char>)
    requires
        is_ascii_chars(cs),
    ensures
        encode_utf8(cs) == cs.map_values(|c: char| c as u8),
{
    is_ascii_chars_encode_utf8(cs);
    assert(encode_utf8(cs) =~= cs.map_values(|c: char| c as u8));
}

/// The path expression is ASCII, and its bytes are `expr_bytes`.
proof fn lemma_expr_text_bytes(root: usize, offsets: Seq<usize>, offset: usize)
    ensures
        is_ascii_chars(spider_expr_spec(root, offsets, offset)),
        spider_expr_spec(root, offsets, offset).map_values(|c: char| c as u8) == expr_bytes(root, offsets, offset),
    decreases offsets.len(),
{
    reveal_strlit("0x");
    reveal_strlit("+0x");
    reveal_strlit("[");
    reveal_strlit("]");
    lemma_hex_upper_chars(root as nat);
    lemma_hex_upper_chars(offset as nat);
    let f = |c: char| c as u8;
    let tail = "+0x"@ + hex_upper(offset as nat);
    assert(tail.map_values(f) =~= seq![0x2bu8] + num_bytes(offset as nat));
    let ch = chain_text(root, offsets);
    if offsets.len() == 0 {
        assert(ch.map_values(f) =~= num_bytes(root as nat));
    } else {
        lemma_expr_text_bytes(root, offsets.drop_last(), offsets.last());
        let inner = spider_expr_spec(root, offsets.drop_last(), offsets.last());
        assert(ch =~= "["@ + inner + "]"@);
        assert(ch.map_values(f) =~= seq![0x5bu8] + inner.map_values(f) + seq![0x5du8]);
    }
    assert(spider_expr_spec(root, offsets, offset) =~= ch + tail);
    assert(spider_expr_spec(root, offsets, offset).map_values(f) =~= ch.map_values(f) + tail.map_values(f));
}


/// An upper-case hex digit's byte: a hex digit of that value, and no
/// whitespace, sign, star or bracket.
proof fn lemma_hex_digit_byte(d: nat)
    requires
        d < 16,
    ensures
        is_hex(hex_char_upper(d) as u8),
        hex_val(hex_char_upper(d) as u8) == d,
        (0x30 <= hex_char_upper(d) as u8 <= 0x39) || (0x41 <= hex_char_upper(d) as u8 <= 0x46),
{
}

/// The bytes of `hex_upper(n)` are hex digits, read back as `n` wherever
/// they stand.
proof fn lemma_hex_bytes_value(n: nat, s: Seq<u8>, lo: int)
    requires
        0 <= lo,
        lo + hex_bytes(n).len() <= s.len(),
        s.subrange(lo, lo + hex_bytes(n).len()) == hex_bytes(n),
    ensures
        hex_bytes(n).len() >= 1,
        hex_value(s, lo, lo + hex_bytes(n).len()) == n,
        hex_end(s, lo) >= lo + hex_bytes(n).len(),
        forall|i: int| lo <= i < lo + hex_bytes(n).len() ==> (0x30 <= #[trigger] s[i] <= 0x39) || (0x41 <= s[i] <= 0x46),
    decreases n,
{
    lemma_hex_upper_chars(n);
    let k = hex_bytes(n).len() as int;
    assert forall|i: int| lo <= i < lo + k implies (0x30 <= #[trigger] s[i] <= 0x39) || (0x41 <= s[i] <= 0x46) by {
        assert(s[i] == hex_bytes(n)[i - lo]);
        let c = hex_upper(n)[i - lo];
        assert(('0' <= c <= '9') || ('A' <= c <= 'F'));
    }
    lemma_hex_end_run(s, lo, lo + k);
    if n < 16 {
        lemma_hex_digit_byte(n);
        assert(s[lo] == s.subrange(lo, lo + k)[0]);
        assert(hex_upper(n) == seq![hex_char_upper(n)]);
        assert(hex_bytes(n)[0] == hex_upper(n)[0] as u8);
        assert(s[lo] == hex_char_upper(n) as u8);
        assert(hex_value(s, lo, lo) == 0);
    } else {
        let h = hex_bytes(n / 16);
        assert(hex_upper(n).drop_last() == hex_upper(n / 16));
        assert(h =~= hex_bytes(n).drop_last());
        assert(s.subrange(lo, lo + h.len()) =~= h);
        lemma_hex_bytes_value(n / 16, s, lo);
        lemma_hex_digit_byte(n % 16);
        assert(s[lo + k - 1] == s.subrange(lo, lo + k)[k - 1]);
        assert(hex_upper(n).last() == hex_char_upper(n % 16));
        assert(hex_bytes(n)[k - 1] == hex_upper(n)[k - 1] as u8);
        assert(s[lo + k - 1] == hex_char_upper(n % 16) as u8);
        assert((n / 16) * 16 + n % 16 == n);
    }
}

/// Hex digits from `lo` up to `hi` carry `hex_end` at least to `hi`.
proof fn lemma_hex_end_run(s: Seq<u8>, lo: int, hi: int)
    requires
        0 <= lo <= hi <= s.len(),
        forall|i: int| lo <= i < hi ==> (0x30 <= #[trigger] s[i] <= 0x39) || (0x41 <= s[i] <= 0x46),
    ensures
        hex_end(s, lo) >= hi,
    decreases hi - lo,
{
    if lo < hi {
        assert(is_hex(s[lo]));
        lemma_hex_end_run(s, lo + 1, hi);
        assert(hex_end(s, lo) == hex_end(s, lo + 1));
    } else {
        lemma_hex_end_ge(s, lo);
    }
}

/// `hex_end` never moves backwards.
proof fn lemma_hex_end_ge(s: Seq<u8>, p: int)
    ensures
        hex_end(s, p) >= p,
    decreases s.len() - p,
{
    if 0 <= p < s.len() && is_hex(s[p]) {
        lemma_hex_end_ge(s, p + 1);
    }
}

/// `0x` and the hex digits of `n`, followed by a byte that is not a hex
/// digit (or the end), read as a number factor give `n` and the position
/// after the digits.
pub(crate) proof fn lemma_number_bytes(s: Seq<u8>, r: int, n: usize)
    requires
        0 <= r,
        r + num_bytes(n as nat).len() <= s.len(),
        s.subrange(r, r + num_bytes(n as nat).len()) == num_bytes(n as nat),
        r + num_bytes(n as nat).len() == s.len() || !is_hex(s[r + num_bytes(n as nat).len()]),
    ensures
        number_at(s, r) == Ok::<(usize, int), EvalErr>((n, r + num_bytes(n as nat).len())),
        s[r] == 0x30,
{
    let k = hex_bytes(n as nat).len() as int;
    let e = r + 2 + k;
    assert(s[r] == num_bytes(n as nat)[0]);
    assert(s[r + 1] == num_bytes(n as nat)[1]);
    assert forall|i: int| 0 <= i < k implies #[trigger] s.subrange(r + 2, r + 2 + k)[i] == hex_bytes(n as nat)[i] by {
        assert(s[r + 2 + i] == s.subrange(r, r + 2 + k)[2 + i]);
    }
    assert(s.subrange(r + 2, r + 2 + k) =~= hex_bytes(n as nat));
    lemma_hex_bytes_value(n as nat, s, r + 2);
    assert(hex_end(s, e) == e);
    lemma_hex_end_exact(s, r + 2, e);
}

/// `hex_end` from `lo` is exactly `hi` when all between are hex digits and
/// `hi` is not one.
proof fn lemma_hex_end_exact(s: Seq<u8>, lo: int, hi: int)
    requires
        0 <= lo <= hi <= s.len(),
        forall|i: int| lo <= i < hi ==> (0x30 <= #[trigger] s[i] <= 0x39) || (0x41 <= s[i] <= 0x46),
        hex_end(s, hi) == hi,
    ensures
        hex_end(s, lo) == hi,
    decreases hi - lo,
{
    if lo < hi {
        assert(is_hex(s[lo]));
        lemma_hex_end_exact(s, lo + 1, hi);
    }
}


/// The value a chain of parent offsets reaches from `root`: `root` itself,
/// or the pointer stored where the shorter chain's path ends.
pub open spec fn chain_value<E: AddrEnv>(env: &E, root: usize, offsets: Seq<usize>) -> Result<usize, EvalErr>
    decreases offsets.len(), 0int,
{
    if offsets.len() == 0 {
        Ok(root)
    } else {
        match path_address(env, root, offsets.drop_last(), offsets.last()) {
            Ok(a) => match env.deref_spec(a) {
                Some(v) => Ok(v),
                None => Err(EvalErr::Exact(SdkError::Access { address: a })),
            },
            Err(e) => Err(e),
        }
    }
}

/// The address a found path names: its chain's value plus the final offset
/// (wrapping), or the failed dereference on the way.
pub open spec fn path_address<E: AddrEnv>(env: &E, root: usize, offsets: Seq<usize>, offset: usize) -> Result<
    usize,
    EvalErr,
>
    decreases offsets.len(), 1int,
{
    match chain_value(env, root, offsets) {
        Ok(v) => Ok(v.wrapping_add(offset)),
        Err(e) => Err(e),
    }
}

pub(crate) proof fn lemma_skip_ws_here(s: Seq<u8>, p: int)
    requires
        0 <= p <= s.len(),
        p == s.len() || !is_ws(s[p]),
    ensures
        skip_ws(s, p) == p,
{
}

/// The chain bytes at `i`, followed by `+`, parse as a term giving the
/// chain's value and the position of the `+`.
#[verifier::spinoff_prover]
proof fn lemma_chain_term<E: AddrEnv>(env: &E, s: Seq<u8>, i: int, root: usize, offsets: Seq<usize>)
    requires
        0 <= i,
        i + chain_bytes(root, offsets).len() < s.len(),
        s.subrange(i, i + chain_bytes(root, offsets).len()) == chain_bytes(root, offsets),
        s[i + chain_bytes(root, offsets).len()] == 0x2b,
    ensures
        term_at(env, s, i) == (match chain_value(env, root, offsets) {
            Ok(v) => Ok::<(usize, int), EvalErr>((v, i + chain_bytes(root, offsets).len())),
            Err(e) => Err(e),
        }),
    decreases offsets.len(), 0int,
{
    let c = chain_bytes(root, offsets);
    let q = i + c.len();
    assert(s[i] == c[0]);
    if offsets.len() == 0 {
        assert(c == num_bytes(root as nat));
        lemma_number_bytes(s, i, root);
        lemma_skip_ws_here(s, i);
        assert(factor_at(env, s, i) == Ok::<(usize, int), EvalErr>((root, q)));
    } else {
        let inner = expr_bytes(root, offsets.drop_last(), offsets.last());
        let li = inner.len() as int;
        assert(c =~= seq![0x5bu8] + inner + seq![0x5du8]);
        assert(s[i] == 0x5b);
        assert forall|k: int| 0 <= k < li implies #[trigger] s.subrange(i + 1, i + 1 + li)[k] == inner[k] by {
            assert(s[i + 1 + k] == s.subrange(i, q)[1 + k]);
        }
        assert(s.subrange(i + 1, i + 1 + li) =~= inner);
        assert(s[i + 1 + li] == s.subrange(i, q)[1 + li]);
        lemma_expr_bytes_eval(env, s, i + 1, root, offsets.drop_last(), offsets.last());
        lemma_skip_ws_here(s, i);
        lemma_skip_ws_here(s, i + 1 + li);
        assert(expect_at(s, i + 1 + li, 0x5d) == Ok::<int, EvalErr>(q));
    }
    lemma_skip_ws_here(s, q);
}

/// Where the parts of a path expression stand when its bytes are at `i`.
proof fn lemma_expr_parts(s: Seq<u8>, i: int, root: usize, offsets: Seq<usize>, offset: usize)
    requires
        0 <= i,
        i + expr_bytes(root, offsets, offset).len() <= s.len(),
        s.subrange(i, i + expr_bytes(root, offsets, offset).len()) == expr_bytes(root, offsets, offset),
    ensures
        ({
            let lc = chain_bytes(root, offsets).len() as int;
            let end = i + expr_bytes(root, offsets, offset).len();
            &&& s.subrange(i, i + lc) == chain_bytes(root, offsets)
            &&& s[i + lc] == 0x2b
            &&& s.subrange(i + lc + 1, end) == num_bytes(offset as nat)
            &&& end == i + lc + 1 + num_bytes(offset as nat).len()
        }),
{
    let c = chain_bytes(root, offsets);
    let n = num_bytes(offset as nat);
    let e = expr_bytes(root, offsets, offset);
    let lc = c.len() as int;
    let end = i + e.len();
    let p = i + lc + 1;
    assert(e =~= c + seq![0x2bu8] + n);
    assert forall|k: int| 0 <= k < lc implies #[trigger] s.subrange(i, i + lc)[k] == c[k] by {
        assert(s[i + k] == s.subrange(i, end)[k]);
    }
    assert(s.subrange(i, i + lc) =~= c);
    assert(s[i + lc] == s.subrange(i, end)[lc]);
    assert forall|k: int| 0 <= k < n.len() implies #[trigger] s.subrange(p, end)[k] == n[k] by {
        assert(s[p + k] == s.subrange(i, end)[lc + 1 + k]);
    }
    assert(s.subrange(p, end) =~= n);
}

/// The final `0x..` offset of a path expression at `p`, at the end of the
/// input or followed by `]`, parses as a term giving the offset.
proof fn lemma_offset_term<E: AddrEnv>(env: &E, s: Seq<u8>, p: int, offset: usize)
    requires
        0 <= p,
        p + num_bytes(offset as nat).len() <= s.len(),
        s.subrange(p, p + num_bytes(offset as nat).len()) == num_bytes(offset as nat),
        p + num_bytes(offset as nat).len() == s.len() || s[p + num_bytes(offset as nat).len()] == 0x5d,
    ensures
        term_at(env, s, p) == Ok::<(usize, int), EvalErr>((offset, p + num_bytes(offset as nat).len())),
{
    let end = p + num_bytes(offset as nat).len();
    lemma_number_bytes(s, p, offset);
    lemma_skip_ws_here(s, p);
    lemma_skip_ws_here(s, end);
    assert(factor_at(env, s, p) == Ok::<(usize, int), EvalErr>((offset, end)));
}

/// The bytes of a path expression at `i`, at the end of the input or
/// followed by `]`, parse as an expression giving the path's address and the
/// position after it.
#[verifier::spinoff_prover]
proof fn lemma_expr_bytes_eval<E: AddrEnv>(
    env: &E,
    s: Seq<u8>,
    i: int,
    root: usize,
    offsets: Seq<usize>,
    offset: usize,
)
    requires
        0 <= i,
        i + expr_bytes(root, offsets, offset).len() <= s.len(),
        s.subrange(i, i + expr_bytes(root, offsets, offset).len()) == expr_bytes(root, offsets, offset),
        i + expr_bytes(root, offsets, offset).len() == s.len() || s[i + expr_bytes(root, offsets, offset).len()]
            == 0x5d,
    ensures
        expr_at(env, s, i) == (match path_address(env, root, offsets, offset) {
            Ok(a) => Ok::<(usize, int), EvalErr>((a, i + expr_bytes(root, offsets, offset).len())),
            Err(e) => Err(e),
        }),
    decreases offsets.len(), 1int,
{
    let lc = chain_bytes(root, offsets).len() as int;
    let end = i + expr_bytes(root, offsets, offset).len();
    lemma_expr_parts(s, i, root, offsets, offset);
    lemma_chain_term(env, s, i, root, offsets);
    lemma_offset_term(env, s, i + lc + 1, offset);
    match chain_value(env, root, offsets) {
        Ok(v) => {
            let acc2 = v.wrapping_add(offset);
            assert(expr_rest(env, s, acc2, end) == Ok::<(usize, int), EvalErr>((acc2, end))) by {
                lemma_skip_ws_here(s, end);
            }
            assert(expr_rest(env, s, v, i + lc) == Ok::<(usize, int), EvalErr>((acc2, end))) by {
                lemma_skip_ws_here(s, i + lc);
            }
        },
        Err(err) => {},
    }
}

/// `follow_chain` through one more offset: the pointer at the end of the
/// shorter chain, plus the offset, dereferenced.
proof fn lemma_follow_chain_push<E: AddrEnv>(env: &E, cur: usize, a: Seq<usize>, x: usize)
    ensures
        follow_chain(env, cur, a.push(x)) == (match follow_chain(env, cur, a) {
            Some(p) => env.deref_spec(p.wrapping_add(x)),
            None => None,
        }),
    decreases a.len(),
{
    let ax = a.push(x);
    if a.len() > 0 {
        assert(ax[0] == a[0]);
        assert(ax.drop_first() =~= a.drop_first().push(x));
        match env.deref_spec(cur.wrapping_add(a[0])) {
            Some(next) => lemma_follow_chain_push(env, next, a.drop_first(), x),
            None => {},
        }
    } else {
        assert(ax[0] == x);
        assert(ax.drop_first() =~= Seq::<usize>::empty());
        match env.deref_spec(cur.wrapping_add(x)) {
            Some(next) => {
                assert(follow_chain(env, next, ax.drop_first()) == Some(next));
            },
            None => {},
        }
    }
}

/// A chain's value is what `follow_chain` reaches, and a failure is a
/// failed dereference.
proof fn lemma_chain_value_follows<E: AddrEnv>(env: &E, root: usize, offsets: Seq<usize>)
    ensures
        match chain_value(env, root, offsets) {
            Ok(v) => follow_chain(env, root, offsets) == Some(v),
            Err(e) => follow_chain(env, root, offsets) is None && e matches EvalErr::Exact(SdkError::Access { .. }),
        },
    decreases offsets.len(),
{
    if offsets.len() > 0 {
        let init = offsets.drop_last();
        lemma_chain_value_follows(env, root, init);
        lemma_follow_chain_push(env, root, init, offsets.last());
        assert(init.push(offsets.last()) =~= offsets);
    }
}

/// A found path's address expression, evaluated as an address (as a
/// cheat-table entry would be), gives the address its pointer chain leads
/// to: the same address `resolve` gives for the path's offsets followed by
/// its final offset; when a pointer on the way cannot be read, evaluation
/// fails with that access error.
pub proof fn lemma_path_expr_evaluates<E: AddrEnv>(env: &E, root: usize, offsets: Seq<usize>, offset: usize)
    ensures
        eval_spec(env, encode_utf8(spider_expr_spec(root, offsets, offset))) == path_address(
            env,
            root,
            offsets,
            offset,
        ),
        match path_address(env, root, offsets, offset) {
            Ok(a) => resolve_spec(env, root, offsets.push(offset)) == Some(a),
            Err(e) => resolve_spec(env, root, offsets.push(offset)) is None && e matches EvalErr::Exact(
                SdkError::Access { .. },
            ),
        },
{
    lemma_expr_text_bytes(root, offsets, offset);
    lemma_ascii_encode(spider_expr_spec(root, offsets, offset));
    let s = expr_bytes(root, offsets, offset);
    assert(s.subrange(0, s.len() as int) =~= s);
    lemma_expr_bytes_eval(env, s, 0, root, offsets, offset);
    lemma_skip_ws_here(s, s.len() as int);
    lemma_chain_value_follows(env, root, offsets);
    assert(offsets.push(offset).drop_last() =~= offsets);
}

} // verus!
