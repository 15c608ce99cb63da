//! Address expressions: a small evaluator over module bases and pointer
//! dereferences, plus pointer-chain resolution.
//!
//! Grammar (all bare numbers are hexadecimal):
//! - `0x1234` / `1234` — a number
//! - `<module.exe>` or `"module.exe"` — the module's base address
//! - `[expr]` — dereference (read a pointer)
//! - `(expr)` — grouping
//! - `+` `-` `*` — wrapping arithmetic, `*` binding tighter
//!
//! e.g. `"[<game.exe>+0x1A2B]+0x10"`.

use vstd::prelude::*;
use vstd::string::*;
use vstd::utf8::*;
use vstd::slice::slice_subrange;
use crate::error::SdkError;
use crate::text::{dec, push_char, push_dec, str_eq};
use crate::spider::{lemma_number_bytes, lemma_skip_ws_here, num_bytes};
use std::collections::HashMap;

verus! {

/// The environment an address expression is evaluated against: module base
/// lookup and pointer dereference. Its two reads are taken as a fixed snapshot
/// of the target: the same question gets the same answer during one
/// evaluation.
pub trait AddrEnv {
    /// The base address of the named module, or the failure reported for it.
    /// An implementation whose answers are specified overrides this; others
    /// leave it unspecified.
    closed spec fn module_base_spec(&self, name: Seq<char>) -> Result<usize, EvalErr> {
        arbitrary()
    }

    /// The pointer stored at `address`, or `None` if it is unreadable. An
    /// implementation whose answers are specified overrides this; others
    /// leave it unspecified.
    closed spec fn deref_spec(&self, address: usize) -> Option<usize> {
        arbitrary()
    }

    /// Returns the base address of the named module.
    fn module_base(&self, name: &str) -> (r: Result<usize, SdkError>)
        ensures
            eval_agrees(r, self.module_base_spec(name@)),
    ;

    /// Reads a pointer at `address` (width-aware), or `None` if unreadable.
    fn deref(&self, address: usize) -> (r: Option<usize>)
        ensures
            r == self.deref_spec(address),
    ;
}

/// A failure as the specification sees it: an exact error, or an error of
/// a text-carrying kind described by its text.
pub enum EvalErr {
    /// Exactly this error.
    Exact(SdkError),
    /// An [`SdkError::Expr`] with this message.
    Expr(Seq<char>),
    /// An [`SdkError::ModuleNotFound`] naming this module.
    ModuleNotFound(Seq<char>),
}

/// Whether the error `e` is the failure `spec` describes.
pub open spec fn err_matches(e: SdkError, spec: EvalErr) -> bool {
    match spec {
        EvalErr::Exact(x) => e == x,
        EvalErr::Expr(m) => e matches SdkError::Expr(s) && s@ == m,
        EvalErr::ModuleNotFound(m) => e matches SdkError::ModuleNotFound(s) && s@ == m,
    }
}

/// Whether a parse step's result is the one `spec` describes.
pub open spec fn agrees(r: Result<(usize, usize), SdkError>, spec: Result<(usize, int), EvalErr>) -> bool {
    match (r, spec) {
        (Ok((v, q)), Ok((v2, q2))) => v == v2 && q as int == q2,
        (Err(e), Err(es)) => err_matches(e, es),
        _ => false,
    }
}

/// ASCII whitespace as `u8::is_ascii_whitespace` defines it.
pub open spec fn is_ws(b: u8) -> bool {
    b == 0x20 || b == 0x09 || b == 0x0a || b == 0x0c || b == 0x0d
}

/// An ASCII hexadecimal digit.
pub open spec fn is_hex(b: u8) -> bool {
    (0x30 <= b <= 0x39) || (0x41 <= b <= 0x46) || (0x61 <= b <= 0x66)
}

/// The value of an ASCII hexadecimal digit.
pub open spec fn hex_val(b: u8) -> nat {
    if b <= 0x39 {
        (b - 0x30) as nat
    } else if b <= 0x46 {
        (b - 0x37) as nat
    } else {
        (b - 0x57) as nat
    }
}

/// The first position at or after `p` that is not whitespace.
pub open spec fn skip_ws(s: Seq<u8>, p: int) -> int
    decreases s.len() - p,
{
    if 0 <= p < s.len() && is_ws(s[p]) {
        skip_ws(s, p + 1)
    } else {
        p
    }
}

/// The first position at or after `p` that is not a hex digit.
pub open spec fn hex_end(s: Seq<u8>, p: int) -> int
    decreases s.len() - p,
{
    if 0 <= p < s.len() && is_hex(s[p]) {
        hex_end(s, p + 1)
    } else {
        p
    }
}

/// The first position at or after `p` holding `c` (or the end).
pub open spec fn find_byte(s: Seq<u8>, c: u8, p: int) -> int
    decreases s.len() - p,
{
    if 0 <= p < s.len() && s[p] != c {
        find_byte(s, c, p + 1)
    } else {
        p
    }
}

/// The value of the hex digits `s[lo..hi]`.
pub open spec fn hex_value(s: Seq<u8>, lo: int, hi: int) -> nat
    decreases hi - lo,
{
    if hi <= lo {
        0
    } else {
        hex_value(s, lo, hi - 1) * 16 + hex_val(s[hi - 1])
    }
}

/// `q` brought into `[lo, hi]`.
pub open spec fn clamp(q: int, lo: int, hi: int) -> int {
    if q < lo {
        lo
    } else if q > hi {
        hi
    } else {
        q
    }
}

/// Message: input left over after a complete expression.
pub open spec fn msg_trailing(pos: nat) -> Seq<char> {
    "unexpected trailing input at byte "@ + dec(pos)
}

/// Message: a byte that cannot start a factor.
pub open spec fn msg_unexpected(c: u8, pos: nat) -> Seq<char> {
    "unexpected `"@ + seq![c as char] + "` at byte "@ + dec(pos)
}

/// Message: an expected delimiter is missing.
pub open spec fn msg_expected(c: u8) -> Seq<char> {
    "expected `"@ + seq![c as char] + "`"@
}

/// Message: the input ended where a factor was expected.
pub open spec fn msg_end() -> Seq<char> {
    "unexpected end of expression"@
}

/// Message: a module name that is not valid UTF-8.
pub open spec fn msg_module_name() -> Seq<char> {
    "invalid module name"@
}

/// Message: a `0x` prefix (or nothing) without digits.
pub open spec fn msg_no_number() -> Seq<char> {
    "expected a number"@
}

/// Message: a number that does not fit in a `usize`.
pub open spec fn msg_too_large() -> Seq<char> {
    "number too large to fit in target type"@
}

/// `expect(c)` at `p`: skip whitespace, then consume `c`.
pub open spec fn expect_at(s: Seq<u8>, p: int, c: u8) -> Result<int, EvalErr> {
    let r = skip_ws(s, p);
    if 0 <= r < s.len() && s[r] == c {
        Ok(r + 1)
    } else {
        Err(EvalErr::Expr(msg_expected(c)))
    }
}

/// A number factor whose first byte is at `r`: optional `0x`/`0X`, then hex
/// digits.
pub open spec fn number_at(s: Seq<u8>, r: int) -> Result<(usize, int), EvalErr> {
    let start = if r + 1 < s.len() && s[r] == 0x30 && (s[r + 1] == 0x78 || s[r + 1] == 0x58) {
        r + 2
    } else {
        r
    };
    let end = hex_end(s, start);
    if end == start {
        Err(EvalErr::Expr(msg_no_number()))
    } else if hex_value(s, start, end) > usize::MAX {
        Err(EvalErr::Expr(msg_too_large()))
    } else {
        Ok((hex_value(s, start, end) as usize, end))
    }
}

/// A module reference whose opening delimiter is at `r`, closed by `close`.
pub open spec fn module_at<E: AddrEnv>(env: &E, s: Seq<u8>, r: int, close: u8) -> Result<
    (usize, int),
    EvalErr,
> {
    let start = r + 1;
    let end = find_byte(s, close, start);
    let name = s.subrange(start, end);
    if !valid_utf8(name) {
        Err(EvalErr::Expr(msg_module_name()))
    } else {
        match expect_at(s, end, close) {
            Err(e) => Err(e),
            Ok(q) => match env.module_base_spec(decode_utf8(name)) {
                Ok(base) => Ok((base, q)),
                Err(e) => Err(e),
            },
        }
    }
}

/// `expr := term (('+' | '-') term)*`
pub open spec fn expr_at<E: AddrEnv>(env: &E, s: Seq<u8>, p: int) -> Result<(usize, int), EvalErr>
    decreases s.len() - p, 3int,
{
    if p < 0 || p > s.len() {
        Err(EvalErr::Expr(msg_end()))
    } else {
        match term_at(env, s, p) {
            Err(e) => Err(e),
            Ok((v, q)) => expr_rest(env, s, v, clamp(q, p, s.len() as int)),
        }
    }
}

/// The `(('+' | '-') term)*` tail of an expression, with `acc` so far.
pub open spec fn expr_rest<E: AddrEnv>(env: &E, s: Seq<u8>, acc: usize, p: int) -> Result<
    (usize, int),
    EvalErr,
>
    decreases s.len() - p, 2int,
{
    if p < 0 || p > s.len() {
        Err(EvalErr::Expr(msg_end()))
    } else {
        let r = clamp(skip_ws(s, p), p, s.len() as int);
        if r < s.len() && (s[r] == 0x2b || s[r] == 0x2d) {
            match term_at(env, s, r + 1) {
                Err(e) => Err(e),
                Ok((v, q)) => {
                    let acc2 = if s[r] == 0x2b {
                        acc.wrapping_add(v)
                    } else {
                        acc.wrapping_sub(v)
                    };
                    expr_rest(env, s, acc2, clamp(q, r + 1, s.len() as int))
                },
            }
        } else {
            Ok((acc, r))
        }
    }
}

/// `term := factor ('*' factor)*`
pub open spec fn term_at<E: AddrEnv>(env: &E, s: Seq<u8>, p: int) -> Result<(usize, int), EvalErr>
    decreases s.len() - p, 1int,
{
    if p < 0 || p > s.len() {
        Err(EvalErr::Expr(msg_end()))
    } else {
        match factor_at(env, s, p) {
            Err(e) => Err(e),
            Ok((v, q)) => term_rest(env, s, v, clamp(q, p, s.len() as int)),
        }
    }
}

/// The `('*' factor)*` tail of a term, with `acc` so far.
pub open spec fn term_rest<E: AddrEnv>(env: &E, s: Seq<u8>, acc: usize, p: int) -> Result<
    (usize, int),
    EvalErr,
>
    decreases s.len() - p, 0int,
{
    if p < 0 || p > s.len() {
        Err(EvalErr::Expr(msg_end()))
    } else {
        let r = clamp(skip_ws(s, p), p, s.len() as int);
        if r < s.len() && s[r] == 0x2a {
            match factor_at(env, s, r + 1) {
                Err(e) => Err(e),
                Ok((v, q)) => term_rest(
                    env,
                    s,
                    acc.wrapping_mul(v),
                    clamp(q, r + 1, s.len() as int),
                ),
            }
        } else {
            Ok((acc, r))
        }
    }
}

/// `factor := '[' expr ']' | '(' expr ')' | module | number`
pub open spec fn factor_at<E: AddrEnv>(env: &E, s: Seq<u8>, p: int) -> Result<
    (usize, int),
    EvalErr,
>
    decreases s.len() - p, 0int,
{
    if p < 0 || p > s.len() {
        Err(EvalErr::Expr(msg_end()))
    } else {
        let r = clamp(skip_ws(s, p), p, s.len() as int);
        if r >= s.len() {
            Err(EvalErr::Expr(msg_end()))
        } else {
            let c = s[r];
            if c == 0x5b || c == 0x28 {
                match expr_at(env, s, r + 1) {
                    Err(e) => Err(e),
                    Ok((inner, q)) => match expect_at(s, q, if c == 0x5b { 0x5d } else { 0x29 }) {
                        Err(e) => Err(e),
                        Ok(q2) => if c == 0x28 {
                            Ok((inner, q2))
                        } else {
                            match env.deref_spec(inner) {
                                Some(v) => Ok((v, q2)),
                                None => Err(EvalErr::Exact(SdkError::Access { address: inner })),
                            }
                        },
                    },
                }
            } else if c == 0x22 {
                module_at(env, s, r, 0x22)
            } else if c == 0x3c {
                module_at(env, s, r, 0x3e)
            } else if is_hex(c) {
                number_at(s, r)
            } else {
                Err(EvalErr::Expr(msg_unexpected(c, r as nat)))
            }
        }
    }
}

/// The value of a whole expression: an `expr` followed only by whitespace.
pub open spec fn eval_spec<E: AddrEnv>(env: &E, s: Seq<u8>) -> Result<usize, EvalErr> {
    match expr_at(env, s, 0) {
        Err(e) => Err(e),
        Ok((v, q)) => {
            let r = skip_ws(s, q);
            if r != s.len() {
                Err(EvalErr::Expr(msg_trailing(r as nat)))
            } else {
                Ok(v)
            }
        },
    }
}


/// Whether a whole evaluation's result is the one `spec` describes.
pub open spec fn eval_agrees(r: Result<usize, SdkError>, spec: Result<usize, EvalErr>) -> bool {
    match (r, spec) {
        (Ok(v), Ok(v2)) => v == v2,
        (Err(e), Err(es)) => err_matches(e, es),
        _ => false,
    }
}

proof fn lemma_skip_ws_bounds(s: Seq<u8>, p: int)
    requires
        0 <= p <= s.len(),
    ensures
        p <= skip_ws(s, p) <= s.len(),
    decreases s.len() - p,
{
    if p < s.len() && is_ws(s[p]) {
        lemma_skip_ws_bounds(s, p + 1);
    }
}

fn is_ws_byte(b: u8) -> (r: bool)
    ensures
        r == is_ws(b),
{
    b == 0x20 || b == 0x09 || b == 0x0a || b == 0x0c || b == 0x0d
}

fn is_hex_byte(b: u8) -> (r: bool)
    ensures
        r == is_hex(b),
{
    (0x30 <= b && b <= 0x39) || (0x41 <= b && b <= 0x46) || (0x61 <= b && b <= 0x66)
}

fn hex_val_byte(b: u8) -> (r: usize)
    requires
        is_hex(b),
    ensures
        r as nat == hex_val(b),
        r < 16,
{
    if b <= 0x39 {
        (b - 0x30) as usize
    } else if b <= 0x46 {
        (b - 0x37) as usize
    } else {
        (b - 0x57) as usize
    }
}

fn skip_ws_exec(s: &[u8], p: usize) -> (r: usize)
    requires
        p <= s@.len(),
    ensures
        r as int == skip_ws(s@, p as int),
        p <= r <= s@.len(),
{
    let mut i = p;
    while i < s.len() && is_ws_byte(s[i])
        invariant
            p <= i <= s@.len(),
            skip_ws(s@, p as int) == skip_ws(s@, i as int),
        decreases s@.len() - i,
    {
        i = i + 1;
    }
    i
}

fn expr_error(lit: &str) -> (e: SdkError)
    ensures
        e matches SdkError::Expr(m) && m@ == lit@,
{
    SdkError::Expr(String::from_str(lit))
}

fn expect_exec(s: &[u8], p: usize, c: u8) -> (r: Result<usize, SdkError>)
    requires
        p <= s@.len(),
    ensures
        match (r, expect_at(s@, p as int, c)) {
            (Ok(q), Ok(q2)) => q as int == q2 && p < q <= s@.len(),
            (Err(e), Err(es)) => err_matches(e, es),
            _ => false,
        },
{
    let r = skip_ws_exec(s, p);
    if r < s.len() && s[r] == c {
        Ok(r + 1)
    } else {
        let mut m = String::from_str("expected `");
        push_char(&mut m, c as char);
        m.append("`");
        assert(m@ =~= msg_expected(c));
        Err(SdkError::Expr(m))
    }
}

fn number_exec(s: &[u8], r: usize) -> (res: Result<(usize, usize), SdkError>)
    requires
        r < s@.len(),
    ensures
        agrees(res, number_at(s@, r as int)),
        res matches Ok((_, q)) ==> r < q <= s@.len(),
{
    let n = s.len();
    let start = if r + 1 < n && s[r] == 0x30 && (s[r + 1] == 0x78 || s[r + 1] == 0x58) {
        r + 2
    } else {
        r
    };
    let mut i = start;
    let mut acc: usize = 0;
    let mut over = false;
    while i < n && is_hex_byte(s[i])
        invariant
            start <= i <= n,
            n == s@.len(),
            hex_end(s@, start as int) == hex_end(s@, i as int),
            !over ==> acc as nat == hex_value(s@, start as int, i as int),
            over ==> hex_value(s@, start as int, i as int) > usize::MAX,
        decreases n - i,
    {
        let d = hex_val_byte(s[i]);
        proof {
            assert(hex_value(s@, start as int, i + 1) == hex_value(s@, start as int, i as int) * 16
                + hex_val(s@[i as int]));
        }
        if !over {
            if acc > (usize::MAX - d) / 16 {
                over = true;
                assert(acc * 16 + d > usize::MAX) by (nonlinear_arith)
                    requires
                        acc > (usize::MAX - d) / 16,
                        d < 16,
                ;
            } else {
                assert(acc * 16 + d <= usize::MAX) by (nonlinear_arith)
                    requires
                        acc <= (usize::MAX - d) / 16,
                        d < 16,
                ;
                acc = acc * 16 + d;
            }
        }
        i = i + 1;
    }
    if i == start {
        return Err(expr_error("expected a number"));
    }
    if over {
        return Err(expr_error("number too large to fit in target type"));
    }
    Ok((acc, i))
}

/// `std::str::from_utf8`: the bytes as a string slice, if they are valid
/// UTF-8.
#[verifier::external_body]
pub(crate) fn str_from_utf8(bytes: &[u8]) -> (r: Option<&str>)
    ensures
        r is Some <==> valid_utf8(bytes@),
        r matches Some(t) ==> t.spec_bytes() == bytes@,
{
    std::str::from_utf8(bytes).ok()
}

fn module_exec<E: AddrEnv>(env: &E, s: &[u8], r: usize, close: u8) -> (res: Result<
    (usize, usize),
    SdkError,
>)
    requires
        r < s@.len(),
    ensures
        agrees(res, module_at(env, s@, r as int, close)),
        res matches Ok((_, q)) ==> r < q <= s@.len(),
{
    let n = s.len();
    let start = r + 1;
    let mut end = start;
    while end < s.len() && s[end] != close
        invariant
            start <= end <= s@.len(),
            find_byte(s@, close, start as int) == find_byte(s@, close, end as int),
        decreases s@.len() - end,
    {
        end = end + 1;
    }
    let name = slice_subrange(s, start, end);
    match str_from_utf8(name) {
        None => Err(expr_error("invalid module name")),
        Some(text) => {
            match expect_exec(s, end, close) {
                Err(e) => Err(e),
                Ok(q) => {
                    proof {
                        broadcast use encode_utf8_decode_utf8;
                        assert(decode_utf8(encode_utf8(text@)) == text@);
                    }
                    match env.module_base(text) {
                        Ok(base) => Ok((base, q)),
                        Err(e) => Err(e),
                    }
                },
            }
        },
    }
}

fn expr_exec<E: AddrEnv>(env: &E, s: &[u8], p: usize) -> (res: Result<(usize, usize), SdkError>)
    requires
        p <= s@.len(),
    ensures
        agrees(res, expr_at(env, s@, p as int)),
        res matches Ok((_, q)) ==> p <= q <= s@.len(),
    decreases s@.len() - p, 3int,
{
    let (mut acc, mut pos) = match term_exec(env, s, p) {
        Ok(x) => x,
        Err(e) => return Err(e),
    };
    loop
        invariant
            p <= pos <= s@.len(),
            expr_at(env, s@, p as int) == expr_rest(env, s@, acc, pos as int),
        decreases s@.len() - pos,
    {
        let r = skip_ws_exec(s, pos);
        if r < s.len() && (s[r] == 0x2b || s[r] == 0x2d) {
            let (v, q) = match term_exec(env, s, r + 1) {
                Ok(x) => x,
                Err(e) => return Err(e),
            };
            acc = if s[r] == 0x2b {
                acc.wrapping_add(v)
            } else {
                acc.wrapping_sub(v)
            };
            pos = q;
        } else {
            return Ok((acc, r));
        }
    }
}

fn term_exec<E: AddrEnv>(env: &E, s: &[u8], p: usize) -> (res: Result<(usize, usize), SdkError>)
    requires
        p <= s@.len(),
    ensures
        agrees(res, term_at(env, s@, p as int)),
        res matches Ok((_, q)) ==> p <= q <= s@.len(),
    decreases s@.len() - p, 1int,
{
    let (mut acc, mut pos) = match factor_exec(env, s, p) {
        Ok(x) => x,
        Err(e) => return Err(e),
    };
    loop
        invariant
            p <= pos <= s@.len(),
            term_at(env, s@, p as int) == term_rest(env, s@, acc, pos as int),
        decreases s@.len() - pos,
    {
        let r = skip_ws_exec(s, pos);
        if r < s.len() && s[r] == 0x2a {
            let (v, q) = match factor_exec(env, s, r + 1) {
                Ok(x) => x,
                Err(e) => return Err(e),
            };
            acc = acc.wrapping_mul(v);
            pos = q;
        } else {
            return Ok((acc, r));
        }
    }
}

fn factor_exec<E: AddrEnv>(env: &E, s: &[u8], p: usize) -> (res: Result<(usize, usize), SdkError>)
    requires
        p <= s@.len(),
    ensures
        agrees(res, factor_at(env, s@, p as int)),
        res matches Ok((_, q)) ==> p < q <= s@.len(),
    decreases s@.len() - p, 0int,
{
    let r = skip_ws_exec(s, p);
    if r >= s.len() {
        return Err(expr_error("unexpected end of expression"));
    }
    let c = s[r];
    if c == 0x5b || c == 0x28 {
        let (inner, q) = match expr_exec(env, s, r + 1) {
            Ok(x) => x,
            Err(e) => return Err(e),
        };
        let close = if c == 0x5b { 0x5d } else { 0x29 };
        let q2 = match expect_exec(s, q, close) {
            Ok(x) => x,
            Err(e) => return Err(e),
        };
        if c == 0x28 {
            Ok((inner, q2))
        } else {
            match env.deref(inner) {
                Some(v) => Ok((v, q2)),
                None => Err(SdkError::Access { address: inner }),
            }
        }
    } else if c == 0x22 {
        module_exec(env, s, r, 0x22)
    } else if c == 0x3c {
        module_exec(env, s, r, 0x3e)
    } else if is_hex_byte(c) {
        number_exec(s, r)
    } else {
        let mut m = String::from_str("unexpected `");
        push_char(&mut m, c as char);
        m.append("` at byte ");
        push_dec(&mut m, r as u128);
        assert(m@ =~= msg_unexpected(c, r as nat));
        Err(SdkError::Expr(m))
    }
}

/// Evaluates an address expression against `env` (see the module docs for
/// the grammar), e.g. `"[<game.exe>+0x1A2B]+0x10"`.
pub fn eval<E: AddrEnv>(env: &E, expr: &str) -> (r: Result<usize, SdkError>)
    ensures
        eval_agrees(r, eval_spec(env, expr.spec_bytes())),
{
    let s = expr.as_bytes();
    let (v, q) = match expr_exec(env, s, 0) {
        Ok(x) => x,
        Err(e) => return Err(e),
    };
    let r = skip_ws_exec(s, q);
    if r != s.len() {
        let mut m = String::from_str("unexpected trailing input at byte ");
        push_dec(&mut m, r as u128);
        Err(SdkError::Expr(m))
    } else {
        Ok(v)
    }
}


/// The pointer reached by adding each of `offsets` in turn to `cur` and
/// dereferencing the sum.
pub open spec fn follow_chain<E: AddrEnv>(env: &E, cur: usize, offsets: Seq<usize>) -> Option<usize>
    decreases offsets.len(),
{
    if offsets.len() == 0 {
        Some(cur)
    } else {
        match env.deref_spec(cur.wrapping_add(offsets[0])) {
            Some(next) => follow_chain(env, next, offsets.drop_first()),
            None => None,
        }
    }
}

/// A multi-level pointer chain: every offset but the last is added to the
/// running pointer and dereferenced; the last is added without one. No
/// offsets give `base`.
pub open spec fn resolve_spec<E: AddrEnv>(env: &E, base: usize, offsets: Seq<usize>) -> Option<usize> {
    if offsets.len() == 0 {
        Some(base)
    } else {
        match follow_chain(env, base, offsets.drop_last()) {
            Some(p) => Some(p.wrapping_add(offsets.last())),
            None => None,
        }
    }
}

/// Follows a multi-level pointer chain:
/// `resolve(base, [a, b, c]) = *(*(base + a) + b) + c` (wrapping).
pub fn resolve<E: AddrEnv>(env: &E, base: usize, offsets: &[usize]) -> (r: Option<usize>)
    ensures
        r == resolve_spec(env, base, offsets@),
{
    let n = offsets.len();
    if n == 0 {
        return Some(base);
    }
    let ghost chain = offsets@.drop_last();
    let mut cur = base;
    let mut i: usize = 0;
    assert(chain.skip(0) =~= chain);
    while i < n - 1
        invariant
            n == offsets@.len(),
            n >= 1,
            i <= n - 1,
            chain == offsets@.drop_last(),
            follow_chain(env, base, chain) == follow_chain(env, cur, chain.skip(i as int)),
        decreases n - 1 - i,
    {
        assert(chain.skip(i as int)[0] == offsets@[i as int]);
        assert(chain.skip(i as int).drop_first() =~= chain.skip(i + 1));
        match env.deref(cur.wrapping_add(offsets[i])) {
            Some(next) => {
                cur = next;
            },
            None => {
                return None;
            },
        }
        i = i + 1;
    }
    assert(chain.skip(i as int) =~= seq![]);
    Some(cur.wrapping_add(offsets[n - 1]))
}

/// The target of a RIP-relative reference: the signed 32-bit displacement
/// `rel` added to `next_insn_addr`, the address of the instruction that
/// follows it (64-bit wrapping).
pub open spec fn rip_target_spec(rel: i32, next_insn_addr: usize) -> usize {
    let s = (next_insn_addr as i64) as int + rel as int;
    let w: int = if s > i64::MAX {
        s - 0x1_0000_0000_0000_0000int
    } else if s < i64::MIN {
        s + 0x1_0000_0000_0000_0000int
    } else {
        s
    };
    (w as i64) as usize
}

/// The target of a RIP-relative reference whose displacement `rel` was read
/// before the instruction at `next_insn_addr`.
pub fn rip_target(rel: i32, next_insn_addr: usize) -> (r: usize)
    ensures
        r == rip_target_spec(rel, next_insn_addr),
{
    (next_insn_addr as i64).wrapping_add(rel as i64) as usize
}

/// The base recorded last for `name` in `m`, if any.
pub open spec fn latest_base(m: Seq<(Seq<char>, usize)>, name: Seq<char>) -> Option<usize>
    decreases m.len(),
{
    if m.len() == 0 {
        None
    } else if m.last().0 == name {
        Some(m.last().1)
    } else {
        latest_base(m.drop_last(), name)
    }
}

/// A recorded snapshot of a target to evaluate expressions against: module
/// bases, each looked up by its latest record, and pointer-sized words by
/// address.
pub struct SnapshotEnv {
    modules: Vec<(String, usize)>,
    words: HashMap<usize, usize>,
}

impl SnapshotEnv {
    /// The module records, oldest first.
    pub closed spec fn modules_view(&self) -> Seq<(Seq<char>, usize)> {
        self.modules@.map_values(|e: (String, usize)| (e.0@, e.1))
    }

    /// The recorded words, by address.
    pub closed spec fn words_view(&self) -> Map<usize, usize> {
        self.words@
    }

    /// An empty snapshot.
    pub fn new() -> (r: Self)
        ensures
            r.modules_view() == Seq::<(Seq<char>, usize)>::empty(),
            r.words_view() == Map::<usize, usize>::empty(),
    {
        let r = SnapshotEnv { modules: Vec::new(), words: HashMap::new() };
        assert(r.modules_view() =~= Seq::<(Seq<char>, usize)>::empty());
        r
    }

    /// Records that module `name` is loaded at `base`.
    pub fn add_module(&mut self, name: &str, base: usize)
        ensures
            final(self).modules_view() == old(self).modules_view().push((name@, base)),
            final(self).words_view() == old(self).words_view(),
    {
        self.modules.push((String::from_str(name), base));
        assert(self.modules_view() =~= old(self).modules_view().push((name@, base)));
    }

    /// Records that the pointer at `address` holds `value`, replacing an
    /// earlier record for it.
    pub fn add_word(&mut self, address: usize, value: usize)
        ensures
            final(self).words_view() == old(self).words_view().insert(address, value),
            final(self).modules_view() == old(self).modules_view(),
    {
        proof {
            broadcast use vstd::std_specs::hash::group_hash_axioms;
        }
        self.words.insert(address, value);
    }
}

impl AddrEnv for SnapshotEnv {
    open spec fn module_base_spec(&self, name: Seq<char>) -> Result<usize, EvalErr> {
        match latest_base(self.modules_view(), name) {
            Some(b) => Ok(b),
            None => Err(EvalErr::ModuleNotFound(name)),
        }
    }

    open spec fn deref_spec(&self, address: usize) -> Option<usize> {
        if self.words_view().contains_key(address) {
            Some(self.words_view()[address])
        } else {
            None
        }
    }

    fn module_base(&self, name: &str) -> (r: Result<usize, SdkError>) {
        let mut i = self.modules.len();
        assert(self.modules_view().take(i as int) =~= self.modules_view());
        while i > 0
            invariant
                i <= self.modules@.len(),
                latest_base(self.modules_view(), name@) == latest_base(
                    self.modules_view().take(i as int),
                    name@,
                ),
            decreases i,
        {
            let ghost m = self.modules_view().take(i as int);
            assert(m.drop_last() =~= self.modules_view().take(i - 1));
            if str_eq(self.modules[i - 1].0.as_str(), name) {
                return Ok(self.modules[i - 1].1);
            }
            i = i - 1;
        }
        Err(SdkError::ModuleNotFound(String::from_str(name)))
    }

    fn deref(&self, address: usize) -> (r: Option<usize>) {
        proof {
            broadcast use vstd::std_specs::hash::group_hash_axioms;
        }
        match self.words.get(&address) {
            Some(v) => Some(*v),
            None => None,
        }
    }
}

// --- Additive operators associate to the left.

/// The byte of an additive operator: `+` when `plus`, else `-`.
pub open spec fn op_byte(plus: bool) -> u8 {
    if plus {
        0x2bu8
    } else {
        0x2du8
    }
}

/// The text `0x<a0>` followed, for each step `(plus, x)`, by `+0x<x>` or
/// `-0x<x>` (hex digits upper case).
pub open spec fn sum_text(a0: usize, steps: Seq<(bool, usize)>) -> Seq<u8>
    decreases steps.len(),
{
    if steps.len() == 0 {
        num_bytes(a0 as nat)
    } else {
        sum_text(a0, steps.drop_last()) + seq![op_byte(steps.last().0)] + num_bytes(steps.last().1 as nat)
    }
}

/// `a0` with the steps applied one after another, left to right, each a
/// wrapping addition or subtraction.
pub open spec fn fold_left(a0: usize, steps: Seq<(bool, usize)>) -> usize
    decreases steps.len(),
{
    if steps.len() == 0 {
        a0
    } else {
        let v = fold_left(a0, steps.drop_last());
        if steps.last().0 {
            v.wrapping_add(steps.last().1)
        } else {
            v.wrapping_sub(steps.last().1)
        }
    }
}

proof fn lemma_sum_text_prefix(a0: usize, steps: Seq<(bool, usize)>, k: int)
    requires
        0 <= k <= steps.len(),
    ensures
        sum_text(a0, steps.take(k)).len() <= sum_text(a0, steps).len(),
        forall|i: int|
            0 <= i < sum_text(a0, steps.take(k)).len() ==> #[trigger] sum_text(a0, steps.take(k))[i] == sum_text(
                a0,
                steps,
            )[i],
    decreases steps.len() - k,
{
    if k == steps.len() {
        assert(steps.take(k) =~= steps);
    } else {
        lemma_sum_text_prefix(a0, steps, k + 1);
        let t1 = steps.take(k + 1);
        assert(t1.drop_last() =~= steps.take(k));
        let a = sum_text(a0, steps.take(k));
        let b = sum_text(a0, t1);
        assert(b == a + seq![op_byte(t1.last().0)] + num_bytes(t1.last().1 as nat));
        assert forall|i: int| 0 <= i < a.len() implies #[trigger] a[i] == sum_text(a0, steps)[i] by {
            assert(a[i] == b[i]);
        }
    }
}

/// A number `0x<n>` at `p`, at the end or followed by an additive operator,
/// parses as a term giving `n` and the position after it.
proof fn lemma_sum_term<E: AddrEnv>(env: &E, s: Seq<u8>, p: int, n: usize)
    requires
        0 <= p,
        p + num_bytes(n as nat).len() <= s.len(),
        s.subrange(p, p + num_bytes(n as nat).len()) == num_bytes(n as nat),
        p + num_bytes(n as nat).len() == s.len() || s[p + num_bytes(n as nat).len()] == 0x2b || s[p
            + num_bytes(n as nat).len()] == 0x2d,
    ensures
        term_at(env, s, p) == Ok::<(usize, int), EvalErr>((n, p + num_bytes(n as nat).len())),
{
    let end = p + num_bytes(n as nat).len();
    lemma_number_bytes(s, p, n);
    lemma_skip_ws_here(s, p);
    lemma_skip_ws_here(s, end);
    assert(factor_at(env, s, p) == Ok::<(usize, int), EvalErr>((n, end)));
}

proof fn lemma_sum_rest<E: AddrEnv>(env: &E, a0: usize, steps: Seq<(bool, usize)>, k: int)
    requires
        0 <= k <= steps.len(),
    ensures
        expr_rest(env, sum_text(a0, steps), fold_left(a0, steps.take(k)), sum_text(a0, steps.take(k)).len() as int)
            == Ok::<(usize, int), EvalErr>((fold_left(a0, steps), sum_text(a0, steps).len() as int)),
    decreases steps.len() - k,
{
    let s = sum_text(a0, steps);
    let pk = sum_text(a0, steps.take(k)).len() as int;
    lemma_sum_text_prefix(a0, steps, k);
    if k == steps.len() {
        assert(steps.take(k) =~= steps);
        lemma_skip_ws_here(s, pk);
    } else {
        let t1 = steps.take(k + 1);
        assert(t1.drop_last() =~= steps.take(k));
        assert(t1.last() == steps[k]);
        let (plus, x) = steps[k];
        let pk1 = sum_text(a0, t1).len() as int;
        lemma_sum_text_prefix(a0, steps, k + 1);
        let nb = num_bytes(x as nat);
        assert(pk1 == pk + 1 + nb.len());
        assert(s[pk] == sum_text(a0, t1)[pk]);
        assert(s[pk] == op_byte(plus));
        lemma_skip_ws_here(s, pk);
        assert forall|i: int| 0 <= i < nb.len() implies #[trigger] s.subrange(pk + 1, pk1)[i] == nb[i] by {
            assert(s[pk + 1 + i] == sum_text(a0, t1)[pk + 1 + i]);
        }
        assert(s.subrange(pk + 1, pk1) =~= nb);
        if k + 1 < steps.len() {
            let t2 = steps.take(k + 2);
            assert(t2.drop_last() =~= t1);
            lemma_sum_text_prefix(a0, steps, k + 2);
            assert(s[pk1] == sum_text(a0, t2)[pk1]);
            assert(s[pk1] == op_byte(t2.last().0));
        } else {
            assert(steps.take(k + 1) =~= steps);
        }
        lemma_sum_term(env, s, pk + 1, x);
        lemma_sum_rest(env, a0, steps, k + 1);
        assert(fold_left(a0, t1) == (if plus {
            fold_left(a0, steps.take(k)).wrapping_add(x)
        } else {
            fold_left(a0, steps.take(k)).wrapping_sub(x)
        }));
    }
}

/// Additive operators associate to the left: a number followed by any
/// run of `+ number` and `- number` evaluates (in any environment) to the
/// first number with each step applied in turn, from left to right, with
/// wrapping arithmetic. So `a-b-c` is `(a-b)-c`, never `a-(b-c)`.
pub proof fn lemma_sums_fold_left<E: AddrEnv>(env: &E, a0: usize, steps: Seq<(bool, usize)>)
    ensures
        eval_spec(env, sum_text(a0, steps)) == Ok::<usize, EvalErr>(fold_left(a0, steps)),
{
    let s = sum_text(a0, steps);
    let p0 = num_bytes(a0 as nat).len() as int;
    lemma_sum_text_prefix(a0, steps, 0);
    assert(sum_text(a0, steps.take(0)) == num_bytes(a0 as nat));
    assert forall|i: int| 0 <= i < p0 implies #[trigger] s.subrange(0, p0)[i] == num_bytes(a0 as nat)[i] by {
        assert(s[i] == sum_text(a0, steps.take(0))[i]);
    }
    assert(s.subrange(0, p0) =~= num_bytes(a0 as nat));
    if steps.len() > 0 {
        let t1 = steps.take(1);
        assert(t1.drop_last() =~= steps.take(0));
        lemma_sum_text_prefix(a0, steps, 1);
        assert(s[p0] == sum_text(a0, t1)[p0]);
    } else {
        assert(steps.take(0) =~= steps);
    }
    lemma_sum_term(env, s, 0, a0);
    lemma_sum_rest(env, a0, steps, 0);
    assert(fold_left(a0, steps.take(0)) == a0);
    lemma_skip_ws_here(s, s.len() as int);
}

proof fn lemma_num_factor<E: AddrEnv>(env: &E, s: Seq<u8>, p: int, n: usize)
    requires
        0 <= p,
        p + num_bytes(n as nat).len() <= s.len(),
        s.subrange(p, p + num_bytes(n as nat).len()) == num_bytes(n as nat),
        p + num_bytes(n as nat).len() == s.len() || !is_hex(s[p + num_bytes(n as nat).len()]),
    ensures
        factor_at(env, s, p) == Ok::<(usize, int), EvalErr>((n, p + num_bytes(n as nat).len())),
{
    lemma_number_bytes(s, p, n);
    lemma_skip_ws_here(s, p);
}

proof fn lemma_text_at(s: Seq<u8>, p: int, t: Seq<u8>)
    requires
        0 <= p,
        p + t.len() <= s.len(),
        forall|i: int| 0 <= i < t.len() ==> s[p + i] == t[i],
    ensures
        s.subrange(p, p + t.len()) == t,
{
    assert(s.subrange(p, p + t.len()) =~= t);
}

/// Multiplication binds tighter than addition and subtraction: in any
/// environment `a+b*c` evaluates to `a + (b * c)` and `a*b-c` to
/// `(a * b) - c`, with wrapping arithmetic.
pub proof fn lemma_product_binds_tighter<E: AddrEnv>(env: &E, a: usize, b: usize, c: usize)
    ensures
        eval_spec(env, num_bytes(a as nat) + seq![0x2bu8] + num_bytes(b as nat) + seq![0x2au8] + num_bytes(c as nat))
            == Ok::<usize, EvalErr>(a.wrapping_add(b.wrapping_mul(c))),
        eval_spec(env, num_bytes(a as nat) + seq![0x2au8] + num_bytes(b as nat) + seq![0x2du8] + num_bytes(c as nat))
            == Ok::<usize, EvalErr>(a.wrapping_mul(b).wrapping_sub(c)),
{
    let na = num_bytes(a as nat);
    let nb = num_bytes(b as nat);
    let nc = num_bytes(c as nat);
    let la = na.len() as int;
    let lb = nb.len() as int;
    let lc = nc.len() as int;
    // a + b * c
    let s = na + seq![0x2bu8] + nb + seq![0x2au8] + nc;
    lemma_text_at(s, 0, na);
    lemma_text_at(s, la + 1, nb);
    lemma_text_at(s, la + lb + 2, nc);
    assert(s[la] == 0x2b);
    assert(s[la + 1 + lb] == 0x2a);
    lemma_num_factor(env, s, 0, a);
    lemma_num_factor(env, s, la + 1, b);
    lemma_num_factor(env, s, la + lb + 2, c);
    lemma_skip_ws_here(s, la);
    lemma_skip_ws_here(s, la + 1 + lb);
    lemma_skip_ws_here(s, s.len() as int);
    assert(term_rest(env, s, b.wrapping_mul(c), s.len() as int) == Ok::<(usize, int), EvalErr>((b.wrapping_mul(c), s.len() as int)));
    assert(term_rest(env, s, b, la + 1 + lb) == Ok::<(usize, int), EvalErr>((b.wrapping_mul(c), s.len() as int)));
    assert(term_at(env, s, la + 1) == Ok::<(usize, int), EvalErr>((b.wrapping_mul(c), s.len() as int)));
    assert(term_rest(env, s, a, la) == Ok::<(usize, int), EvalErr>((a, la)));
    assert(term_at(env, s, 0) == Ok::<(usize, int), EvalErr>((a, la)));
    assert(expr_rest(env, s, a.wrapping_add(b.wrapping_mul(c)), s.len() as int) == Ok::<(usize, int), EvalErr>((a.wrapping_add(b.wrapping_mul(c)), s.len() as int)));
    assert(expr_rest(env, s, a, la) == Ok::<(usize, int), EvalErr>((a.wrapping_add(b.wrapping_mul(c)), s.len() as int)));
    // a * b - c
    let t = na + seq![0x2au8] + nb + seq![0x2du8] + nc;
    lemma_text_at(t, 0, na);
    lemma_text_at(t, la + 1, nb);
    lemma_text_at(t, la + lb + 2, nc);
    assert(t[la] == 0x2a);
    assert(t[la + 1 + lb] == 0x2d);
    lemma_num_factor(env, t, 0, a);
    lemma_num_factor(env, t, la + 1, b);
    lemma_num_factor(env, t, la + lb + 2, c);
    lemma_skip_ws_here(t, la);
    lemma_skip_ws_here(t, la + 1 + lb);
    lemma_skip_ws_here(t, t.len() as int);
    let ab = a.wrapping_mul(b);
    assert(term_rest(env, t, ab, la + 1 + lb) == Ok::<(usize, int), EvalErr>((ab, la + 1 + lb)));
    assert(term_rest(env, t, a, la) == Ok::<(usize, int), EvalErr>((ab, la + 1 + lb)));
    assert(term_at(env, t, 0) == Ok::<(usize, int), EvalErr>((ab, la + 1 + lb)));
    assert(term_rest(env, t, c, t.len() as int) == Ok::<(usize, int), EvalErr>((c, t.len() as int)));
    assert(term_at(env, t, la + lb + 2) == Ok::<(usize, int), EvalErr>((c, t.len() as int)));
    assert(expr_rest(env, t, ab.wrapping_sub(c), t.len() as int) == Ok::<(usize, int), EvalErr>((ab.wrapping_sub(c), t.len() as int)));
    assert(expr_rest(env, t, ab, la + 1 + lb) == Ok::<(usize, int), EvalErr>((ab.wrapping_sub(c), t.len() as int)));
}

/// A bracketed number reads memory: in any environment `[a]` evaluates to
/// the pointer stored at `a`, or fails with an access error naming `a`
/// when that pointer cannot be read; `(a)` is just `a`.
pub proof fn lemma_brackets<E: AddrEnv>(env: &E, a: usize)
    ensures
        eval_spec(env, seq![0x5bu8] + num_bytes(a as nat) + seq![0x5du8]) == (match env.deref_spec(a) {
            Some(v) => Ok::<usize, EvalErr>(v),
            None => Err(EvalErr::Exact(SdkError::Access { address: a })),
        }),
        eval_spec(env, seq![0x28u8] + num_bytes(a as nat) + seq![0x29u8]) == Ok::<usize, EvalErr>(a),
{
    let na = num_bytes(a as nat);
    let la = na.len() as int;
    let s = seq![0x5bu8] + na + seq![0x5du8];
    lemma_text_at(s, 1, na);
    assert(s[0] == 0x5b);
    assert(s[1 + la] == 0x5d);
    lemma_num_factor(env, s, 1, a);
    lemma_skip_ws_here(s, 0);
    lemma_skip_ws_here(s, 1 + la);
    lemma_skip_ws_here(s, s.len() as int);
    assert(term_rest(env, s, a, 1 + la) == Ok::<(usize, int), EvalErr>((a, 1 + la)));
    assert(expr_rest(env, s, a, 1 + la) == Ok::<(usize, int), EvalErr>((a, 1 + la)));
    assert(expr_at(env, s, 1) == Ok::<(usize, int), EvalErr>((a, 1 + la)));
    assert(expect_at(s, 1 + la, 0x5d) == Ok::<int, EvalErr>(2 + la));
    match env.deref_spec(a) {
        Some(v) => {
            assert(factor_at(env, s, 0) == Ok::<(usize, int), EvalErr>((v, 2 + la)));
            assert(term_rest(env, s, v, 2 + la) == Ok::<(usize, int), EvalErr>((v, 2 + la)));
            assert(expr_rest(env, s, v, 2 + la) == Ok::<(usize, int), EvalErr>((v, 2 + la)));
        },
        None => {},
    }
    let t = seq![0x28u8] + na + seq![0x29u8];
    lemma_text_at(t, 1, na);
    assert(t[0] == 0x28);
    assert(t[1 + la] == 0x29);
    lemma_num_factor(env, t, 1, a);
    lemma_skip_ws_here(t, 0);
    lemma_skip_ws_here(t, 1 + la);
    lemma_skip_ws_here(t, t.len() as int);
    assert(term_rest(env, t, a, 1 + la) == Ok::<(usize, int), EvalErr>((a, 1 + la)));
    assert(expr_rest(env, t, a, 1 + la) == Ok::<(usize, int), EvalErr>((a, 1 + la)));
    assert(expr_at(env, t, 1) == Ok::<(usize, int), EvalErr>((a, 1 + la)));
    assert(expect_at(t, 1 + la, 0x29) == Ok::<int, EvalErr>(2 + la));
    assert(factor_at(env, t, 0) == Ok::<(usize, int), EvalErr>((a, 2 + la)));
    assert(term_rest(env, t, a, 2 + la) == Ok::<(usize, int), EvalErr>((a, 2 + la)));
    assert(expr_rest(env, t, a, 2 + la) == Ok::<(usize, int), EvalErr>((a, 2 + la)));
}

} // verus!
