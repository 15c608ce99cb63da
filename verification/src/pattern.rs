//! Memory signature patterns built at runtime from IDA/PEID-style strings or a
//! byte template plus mask, and matching against byte sequences.

use vstd::prelude::*;
use vstd::string::*;
use crate::error::SdkError;
use crate::text::{
    push_char, push_chars, str_chars, sub_chars, is_space_char, hex_nibble, hex_nibble_spec,
    next_where, lemma_next_where_bounds, tokens_from,
};

verus! {

/// A single position in a memory pattern: an exact byte or a wildcard.
#[derive(Debug, Clone, Copy, PartialEq, Eq, Hash, Structural)]
pub enum ByteMatch {
    /// Matches only this exact byte.
    Exact(u8),
    /// Matches any byte (`?`/`??` in IDA/PEID syntax).
    Any,
}

/// Whether `m` accepts `byte`.
pub open spec fn accepts(m: ByteMatch, byte: u8) -> bool {
    match m {
        ByteMatch::Exact(b) => b == byte,
        ByteMatch::Any => true,
    }
}

/// Whether the pattern `p` matches the byte sequence `s` exactly.
pub open spec fn matches_seq(p: Seq<ByteMatch>, s: Seq<u8>) -> bool {
    s.len() == p.len() && forall|i: int| 0 <= i < p.len() ==> accepts(#[trigger] p[i], s[i])
}

impl ByteMatch {
    /// Returns `true` if `byte` satisfies this position (always for `Any`).
    pub fn matches(self, byte: u8) -> (r: bool)
        ensures
            r == accepts(self, byte),
    {
        match self {
            ByteMatch::Exact(b) => b == byte,
            ByteMatch::Any => true,
        }
    }
}

/// Error returned when a pattern string cannot be parsed.
#[derive(Debug, Clone, PartialEq, Eq)]
pub struct PatternParseError(String);

impl PatternParseError {
    /// The reason, without the `invalid pattern: ` prefix.
    pub closed spec fn reason(&self) -> Seq<char> {
        self.0@
    }

    /// The error text: `invalid pattern: ` followed by the reason.
    pub fn to_string(&self) -> (s: String)
        ensures
            s@ == "invalid pattern: "@ + self.reason(),
    {
        let mut s = String::from_str("invalid pattern: ");
        s.append(self.0.as_str());
        s
    }
}

/// The position a signature token stands for: a token starting with `?` is
/// a wildcard; otherwise it must be exactly two hex digits.
pub open spec fn token_match(tok: Seq<char>) -> Option<ByteMatch> {
    if tok.len() > 0 && tok[0] == '?' {
        Some(ByteMatch::Any)
    } else if tok.len() == 2 {
        match (hex_nibble_spec(tok[0]), hex_nibble_spec(tok[1])) {
            (Some(hi), Some(lo)) => Some(ByteMatch::Exact((hi * 16 + lo) as u8)),
            _ => None,
        }
    } else {
        None
    }
}

/// The reason a signature is rejected at its first bad token.
pub open spec fn msg_token(tok: Seq<char>) -> Seq<char> {
    "token `"@ + tok + "`"@
}

/// Reads a token list: the positions in order, or the reason for the first
/// token that is not a valid position.
pub open spec fn parse_tokens(toks: Seq<Seq<char>>) -> Result<Seq<ByteMatch>, Seq<char>>
    decreases toks.len(),
{
    if toks.len() == 0 {
        Ok(seq![])
    } else {
        match parse_tokens(toks.drop_last()) {
            Err(m) => Err(m),
            Ok(ms) => match token_match(toks.last()) {
                Some(m) => Ok(ms.push(m)),
                None => Err(msg_token(toks.last())),
            },
        }
    }
}

/// How a signature string reads: its tokens' positions, or the reason it is
/// rejected (a bad token, or no tokens at all).
pub open spec fn parse_sig_spec(s: Seq<char>) -> Result<Seq<ByteMatch>, Seq<char>> {
    match parse_tokens(tokens_from(s, 0)) {
        Err(m) => Err(m),
        Ok(ms) => if ms.len() == 0 {
            Err("empty pattern"@)
        } else {
            Ok(ms)
        },
    }
}


/// An error in the first tokens stays the error of any longer token list.
proof fn lemma_parse_tokens_err_prefix(a: Seq<Seq<char>>, b: Seq<Seq<char>>)
    requires
        parse_tokens(a) is Err,
    ensures
        parse_tokens(a + b) == parse_tokens(a),
    decreases b.len(),
{
    if b.len() == 0 {
        assert(a + b =~= a);
    } else {
        lemma_parse_tokens_err_prefix(a, b.drop_last());
        assert((a + b).drop_last() =~= a + b.drop_last());
    }
}

/// Whether a mask byte is valid: `x`/`X` (exact) or `?` (wildcard).
pub open spec fn mask_ok(m: u8) -> bool {
    m == 0x78 || m == 0x58 || m == 0x3f
}

/// The first invalid mask byte at or after `i`, if any.
pub open spec fn first_bad_mask(mask: Seq<u8>, i: int) -> Option<int>
    decreases mask.len() - i,
{
    if i < 0 || i >= mask.len() {
        None
    } else if !mask_ok(mask[i]) {
        Some(i)
    } else {
        first_bad_mask(mask, i + 1)
    }
}

/// How a byte template and mask read: one position per byte (`x`/`X` exact,
/// `?` any), or the reason they are rejected.
pub open spec fn code_style_spec(pat: Seq<u8>, mask: Seq<u8>) -> Result<Seq<ByteMatch>, Seq<char>> {
    if pat.len() != mask.len() {
        Err("pat/mask length mismatch"@)
    } else {
        match first_bad_mask(mask, 0) {
            Some(i) => Err("mask char `"@ + seq![mask[i] as char] + "`"@),
            None => Ok(
                Seq::new(
                    pat.len(),
                    |i: int| if mask[i] == 0x3f { ByteMatch::Any } else { ByteMatch::Exact(pat[i]) },
                ),
            ),
        }
    }
}

/// A runtime-built sequence of [`ByteMatch`]es.
#[derive(Debug, Clone, PartialEq, Eq, Hash)]
pub struct DynPattern(Vec<ByteMatch>);

impl View for DynPattern {
    type V = Seq<ByteMatch>;

    closed spec fn view(&self) -> Seq<ByteMatch> {
        self.0@
    }
}

fn token_match_exec(tok: &[char]) -> (r: Option<ByteMatch>)
    ensures
        r == token_match(tok@),
{
    if tok.len() > 0 && tok[0] == '?' {
        return Some(ByteMatch::Any);
    }
    if tok.len() != 2 {
        return None;
    }
    match (hex_nibble(tok[0]), hex_nibble(tok[1])) {
        (Some(hi), Some(lo)) => Some(ByteMatch::Exact(hi * 16 + lo)),
        _ => None,
    }
}

impl DynPattern {
    /// Builds a pattern from a list of [`ByteMatch`]es.
    pub fn new(bytes: Vec<ByteMatch>) -> (p: Self)
        ensures
            p@ == bytes@,
    {
        DynPattern(bytes)
    }

    /// Underlying matches.
    pub fn as_slice(&self) -> (r: &[ByteMatch])
        ensures
            r@ == self@,
    {
        self.0.as_slice()
    }

    /// Number of bytes the pattern matches.
    pub fn len(&self) -> (r: usize)
        ensures
            r == self@.len(),
    {
        self.0.len()
    }

    /// Whether `seq` matches the pattern: same length, and every position
    /// accepts its byte.
    pub fn matches(&self, seq: &[u8]) -> (r: bool)
        ensures
            r == matches_seq(self@, seq@),
    {
        if seq.len() != self.0.len() {
            return false;
        }
        let mut i: usize = 0;
        while i < self.0.len()
            invariant
                seq@.len() == self.0@.len(),
                i <= self.0@.len(),
                forall|j: int| 0 <= j < i ==> accepts(#[trigger] self.0@[j], seq@[j]),
            decreases self.0@.len() - i,
        {
            if !self.0[i].matches(seq[i]) {
                return false;
            }
            i = i + 1;
        }
        true
    }

    /// Parses an IDA-style signature, e.g. `"48 8B ?? 33"` or `"48 8B ? 33"`:
    /// whitespace-separated tokens, where a token beginning with `?` is a
    /// wildcard and every other token must be exactly two hex digits.
    pub fn from_ida_style(pat: &str) -> (r: Result<Self, PatternParseError>)
        ensures
            match (r, parse_sig_spec(pat@)) {
                (Ok(p), Ok(ms)) => p@ == ms,
                (Err(e), Err(m)) => e.reason() == m,
                _ => false,
            },
    {
        Self::parse_sig(pat)
    }

    /// Parses a PEID-style signature with the same grammar as
    /// [`Self::from_ida_style`].
    pub fn from_peid_style(pat: &str) -> (r: Result<Self, PatternParseError>)
        ensures
            match (r, parse_sig_spec(pat@)) {
                (Ok(p), Ok(ms)) => p@ == ms,
                (Err(e), Err(m)) => e.reason() == m,
                _ => false,
            },
    {
        Self::parse_sig(pat)
    }

    fn parse_sig(pat: &str) -> (r: Result<Self, PatternParseError>)
        ensures
            match (r, parse_sig_spec(pat@)) {
                (Ok(p), Ok(ms)) => p@ == ms,
                (Err(e), Err(m)) => e.reason() == m,
                _ => false,
            },
    {
        let v = str_chars(pat);
        let n = v.len();
        let mut out: Vec<ByteMatch> = Vec::new();
        let mut i: usize = 0;
        let ghost mut done: Seq<Seq<char>> = seq![];
        assert(tokens_from(v@, 0) =~= done + tokens_from(v@, 0));
        while i < n
            invariant
                n == v@.len(),
                v@ == pat@,
                i <= n,
                tokens_from(v@, 0) == done + tokens_from(v@, i as int),
                parse_tokens(done) == Ok::<Seq<ByteMatch>, Seq<char>>(out@),
            decreases n - i,
        {
            if is_space_char(v[i]) {
                i = i + 1;
                continue;
            }
            let mut k = i;
            while k < n && !is_space_char(v[k])
                invariant
                    i <= k <= n,
                    n == v@.len(),
                    next_where(v@, i as int, true) == next_where(v@, k as int, true),
                decreases n - k,
            {
                k = k + 1;
            }
            proof {
                lemma_next_where_bounds(v@, i as int, true);
            }
            let tok = sub_chars(v.as_slice(), i, k);
            let ghost rest = tokens_from(v@, k as int);
            assert(tokens_from(v@, i as int) == seq![tok@] + rest);
            assert(done + tokens_from(v@, i as int) =~= done.push(tok@) + rest);
            assert(done.push(tok@).drop_last() =~= done);
            match token_match_exec(tok.as_slice()) {
                Some(m) => {
                    out.push(m);
                },
                None => {
                    proof {
                        lemma_parse_tokens_err_prefix(done.push(tok@), rest);
                    }
                    let mut msg = String::from_str("token `");
                    push_chars(&mut msg, tok.as_slice());
                    msg.append("`");
                    return Err(PatternParseError(msg));
                },
            }
            proof {
                done = done.push(tok@);
            }
            i = k;
        }
        assert(done + tokens_from(v@, n as int) =~= done);
        if out.len() == 0 {
            return Err(PatternParseError(String::from_str("empty pattern")));
        }
        Ok(DynPattern(out))
    }

    /// Builds a pattern from a raw byte template and a mask, where each mask
    /// byte is `x`/`X` (match `pat[i]` exactly) or `?` (wildcard). `pat` and
    /// `mask` must be the same length.
    pub fn from_code_style(pat: &[u8], mask: &str) -> (r: Result<Self, PatternParseError>)
        ensures
            match (r, code_style_spec(pat@, mask.spec_bytes())) {
                (Ok(p), Ok(ms)) => p@ == ms,
                (Err(e), Err(m)) => e.reason() == m,
                _ => false,
            },
    {
        let m = mask.as_bytes();
        if pat.len() != m.len() {
            return Err(PatternParseError(String::from_str("pat/mask length mismatch")));
        }
        let mut out: Vec<ByteMatch> = Vec::new();
        let mut i: usize = 0;
        while i < m.len()
            invariant
                m@ == mask.spec_bytes(),
                pat@.len() == m@.len(),
                i <= m@.len(),
                first_bad_mask(m@, 0) == first_bad_mask(m@, i as int),
                out@.len() == i,
                forall|j: int| 0 <= j < i ==> #[trigger] out@[j] == (if m@[j] == 0x3f { ByteMatch::Any } else { ByteMatch::Exact(pat@[j]) }),
            decreases m@.len() - i,
        {
            let c = m[i];
            if c == 0x78 || c == 0x58 {
                out.push(ByteMatch::Exact(pat[i]));
            } else if c == 0x3f {
                out.push(ByteMatch::Any);
            } else {
                let mut msg = String::from_str("mask char `");
                push_char(&mut msg, c as char);
                msg.append("`");
                assert(msg@ =~= "mask char `"@ + seq![c as char] + "`"@);
                return Err(PatternParseError(msg));
            }
            i = i + 1;
        }
        let ghost ms = code_style_spec(pat@, m@);
        assert(out@ =~= Seq::new(
            pat@.len(),
            |i: int| if m@[i] == 0x3f { ByteMatch::Any } else { ByteMatch::Exact(pat@[i]) },
        ));
        Ok(DynPattern(out))
    }
}

/// A parsed memory signature used for scanning.
#[derive(Debug, Clone, PartialEq, Eq)]
pub struct Pattern(DynPattern);

impl View for Pattern {
    type V = Seq<ByteMatch>;

    closed spec fn view(&self) -> Seq<ByteMatch> {
        self.0@
    }
}

impl Pattern {
    /// Parses an IDA-style signature, e.g. `"48 8B ?? 33"`; a rejected
    /// signature is reported as [`SdkError::Pattern`] with the parse error's
    /// text.
    pub fn ida(sig: &str) -> (r: Result<Self, SdkError>)
        ensures
            match (r, parse_sig_spec(sig@)) {
                (Ok(p), Ok(ms)) => p@ == ms,
                (Err(e), Err(m)) => e matches SdkError::Pattern(t) && t@ == "invalid pattern: "@ + m,
                _ => false,
            },
    {
        match DynPattern::from_ida_style(sig) {
            Ok(p) => Ok(Pattern(p)),
            Err(e) => Err(SdkError::Pattern(e.to_string())),
        }
    }

    /// Parses a PEID-style signature (same grammar as [`Self::ida`]).
    pub fn peid(sig: &str) -> (r: Result<Self, SdkError>)
        ensures
            match (r, parse_sig_spec(sig@)) {
                (Ok(p), Ok(ms)) => p@ == ms,
                (Err(e), Err(m)) => e matches SdkError::Pattern(t) && t@ == "invalid pattern: "@ + m,
                _ => false,
            },
    {
        match DynPattern::from_peid_style(sig) {
            Ok(p) => Ok(Pattern(p)),
            Err(e) => Err(SdkError::Pattern(e.to_string())),
        }
    }

    /// Builds a pattern from a raw byte template and an `x`/`?` mask.
    pub fn code(bytes: &[u8], mask: &str) -> (r: Result<Self, SdkError>)
        ensures
            match (r, code_style_spec(bytes@, mask.spec_bytes())) {
                (Ok(p), Ok(ms)) => p@ == ms,
                (Err(e), Err(m)) => e matches SdkError::Pattern(t) && t@ == "invalid pattern: "@ + m,
                _ => false,
            },
    {
        match DynPattern::from_code_style(bytes, mask) {
            Ok(p) => Ok(Pattern(p)),
            Err(e) => Err(SdkError::Pattern(e.to_string())),
        }
    }

    /// Number of bytes the pattern matches.
    pub fn len(&self) -> (r: usize)
        ensures
            r == self@.len(),
    {
        self.0.len()
    }

    /// Whether the pattern is empty (never for a parsed signature).
    pub fn is_empty(&self) -> (r: bool)
        ensures
            r == (self@.len() == 0),
    {
        self.0.len() == 0
    }

    /// Whether `seq` matches the pattern.
    pub fn matches(&self, seq: &[u8]) -> (r: bool)
        ensures
            r == matches_seq(self@, seq@),
    {
        self.0.matches(seq)
    }

    /// The byte matches the pattern is made of.
    pub fn as_dyn(&self) -> (r: &DynPattern)
        ensures
            r@ == self@,
    {
        &self.0
    }
}

/// A parsed signature is never empty.
pub proof fn lemma_parsed_sig_nonempty(s: Seq<char>)
    ensures
        parse_sig_spec(s) matches Ok(ms) ==> ms.len() > 0,
{
}

/// The value of an ASCII hexadecimal digit (either case), if `c` is one.
pub open spec fn hex_digit_value(c: char) -> Option<int> {
    let u = c as int;
    if 0x30 <= u <= 0x39 {
        Some(u - 0x30)
    } else if 0x61 <= u <= 0x66 {
        Some(u - 0x61 + 10)
    } else if 0x41 <= u <= 0x46 {
        Some(u - 0x41 + 10)
    } else {
        None
    }
}

/// Whether `tok` is a signature token: a wildcard starting with `?`, or
/// two hex digits.
pub open spec fn sig_token_ok(tok: Seq<char>) -> bool {
    (tok.len() > 0 && tok[0] == '?') || (tok.len() == 2 && hex_digit_value(tok[0]) is Some && hex_digit_value(
        tok[1],
    ) is Some)
}

/// Position `m` is what token `tok` stands for: any byte for a wildcard;
/// for two hex digits, the byte whose high nibble is the first digit and
/// whose low nibble is the second.
pub open spec fn sig_position(tok: Seq<char>, m: ByteMatch) -> bool {
    if tok.len() > 0 && tok[0] == '?' {
        m == ByteMatch::Any
    } else {
        &&& tok.len() == 2
        &&& hex_digit_value(tok[0]) is Some
        &&& hex_digit_value(tok[1]) is Some
        &&& m == ByteMatch::Exact((16 * hex_digit_value(tok[0])->Some_0 + hex_digit_value(tok[1])->Some_0) as u8)
    }
}

proof fn lemma_token_position(tok: Seq<char>)
    ensures
        token_match(tok) is Some <==> sig_token_ok(tok),
        token_match(tok) matches Some(m) ==> sig_position(tok, m),
{
    if tok.len() == 2 && !(tok[0] == '?') {
        let a = tok[0];
        let b = tok[1];
        assert(hex_nibble_spec(a) is Some <==> hex_digit_value(a) is Some);
        assert(hex_nibble_spec(b) is Some <==> hex_digit_value(b) is Some);
        assert(hex_nibble_spec(a) matches Some(x) ==> x as int == hex_digit_value(a)->Some_0);
        assert(hex_nibble_spec(b) matches Some(x) ==> x as int == hex_digit_value(b)->Some_0);
    }
}

proof fn lemma_tokens_positions(toks: Seq<Seq<char>>)
    ensures
        parse_tokens(toks) is Ok <==> (forall|i: int| 0 <= i < toks.len() ==> sig_token_ok(#[trigger] toks[i])),
        parse_tokens(toks) matches Ok(ms) ==> ms.len() == toks.len() && forall|i: int|
            0 <= i < toks.len() ==> sig_position(#[trigger] toks[i], ms[i]),
    decreases toks.len(),
{
    if toks.len() > 0 {
        let init = toks.drop_last();
        lemma_tokens_positions(init);
        lemma_token_position(toks.last());
        assert forall|i: int| 0 <= i < init.len() implies #[trigger] init[i] == toks[i] by {}
        if !(forall|i: int| 0 <= i < toks.len() ==> sig_token_ok(#[trigger] toks[i])) {
            let j = choose|j: int| 0 <= j < toks.len() && !sig_token_ok(#[trigger] toks[j]);
            if j < init.len() {
                assert(!sig_token_ok(init[j]));
            }
        }
        if parse_tokens(toks) is Ok {
            assert forall|i: int| 0 <= i < toks.len() implies sig_token_ok(#[trigger] toks[i]) by {
                if i < init.len() {
                    assert(sig_token_ok(init[i]));
                }
            }
            let ms0 = parse_tokens(init)->Ok_0;
            let m = token_match(toks.last())->Some_0;
            let ms = parse_tokens(toks)->Ok_0;
            assert(ms == ms0.push(m));
            assert forall|i: int| 0 <= i < toks.len() implies sig_position(#[trigger] toks[i], ms[i]) by {
                if i < init.len() {
                    assert(sig_position(init[i], ms0[i]));
                } else {
                    assert(toks[i] == toks.last());
                }
            }
        }
    }
}

/// What a signature string reads as: it is accepted exactly when it has at
/// least one whitespace-separated token and every token is a wildcard
/// (starting with `?`) or two hex digits; then its positions are, one per
/// token and in order, any byte for a wildcard and, for two hex digits
/// `hi lo`, the byte `16 * hi + lo`.
pub proof fn lemma_signature_positions(s: Seq<char>)
    ensures
        parse_sig_spec(s) is Ok <==> (tokens_from(s, 0).len() > 0 && forall|i: int|
            0 <= i < tokens_from(s, 0).len() ==> sig_token_ok(#[trigger] tokens_from(s, 0)[i])),
        parse_sig_spec(s) matches Ok(ms) ==> ms.len() == tokens_from(s, 0).len() && forall|i: int|
            0 <= i < ms.len() ==> sig_position(#[trigger] tokens_from(s, 0)[i], ms[i]),
{
    lemma_tokens_positions(tokens_from(s, 0));
}

/// How a pattern matches bytes: only a sequence of the pattern's length
/// can match; a pattern of exact bytes matches exactly those bytes; a
/// pattern of wildcards matches every sequence of its length; and changing
/// a byte under a wildcard never changes whether a sequence matches.
pub proof fn lemma_pattern_matching(p: Seq<ByteMatch>, s: Seq<u8>, e: Seq<u8>, i: int, x: u8)
    ensures
        matches_seq(p, s) ==> s.len() == p.len(),
        e.len() == p.len() && (forall|k: int| 0 <= k < p.len() ==> p[k] == ByteMatch::Exact(#[trigger] e[k])) ==> (
        matches_seq(p, s) <==> s == e),
        (forall|k: int| 0 <= k < p.len() ==> #[trigger] p[k] == ByteMatch::Any) ==> (matches_seq(p, s) <==> s.len()
            == p.len()),
        0 <= i < s.len() && i < p.len() && p[i] == ByteMatch::Any ==> (matches_seq(p, s.update(i, x)) <==> matches_seq(
            p,
            s,
        )),
{
    if e.len() == p.len() && (forall|k: int| 0 <= k < p.len() ==> p[k] == ByteMatch::Exact(#[trigger] e[k])) {
        if matches_seq(p, s) {
            assert forall|k: int| 0 <= k < s.len() implies s[k] == e[k] by {
                assert(accepts(p[k], s[k]));
            }
            assert(s =~= e);
        }
        if s == e {
            assert forall|k: int| 0 <= k < p.len() implies accepts(#[trigger] p[k], s[k]) by {}
        }
    }
    if 0 <= i < s.len() && i < p.len() && p[i] == ByteMatch::Any {
        let t = s.update(i, x);
        if matches_seq(p, s) {
            assert forall|k: int| 0 <= k < p.len() implies accepts(#[trigger] p[k], t[k]) by {
                if k != i {
                    assert(accepts(p[k], s[k]));
                }
            }
        }
        if matches_seq(p, t) {
            assert forall|k: int| 0 <= k < p.len() implies accepts(#[trigger] p[k], s[k]) by {
                if k != i {
                    assert(accepts(p[k], t[k]));
                }
            }
        }
    }
}

} // verus!
