//! Field kinds: the interpretation and byte width of a field, and their
//! compact string forms (`"I32"`, `"Vec3f"`, `"Mat4x4d"`, `"Hex32"`, `"Ptr"`).

use vstd::prelude::*;
use crate::text::{
    chars_eq, dec, lemma_dec_roundtrip, lemma_parse_dec, parse_unsigned, parse_unsigned_chars, push_char,
    push_dec, str_chars, string_of, sub_chars,
};

verus! {

/// Default pointer width, in bytes, assumed when a target's real width is
/// unknown.
pub const DEFAULT_PTR_SIZE: usize = 8;

/// Element width of a floating point vector/matrix component.
#[derive(Debug, Clone, Copy, PartialEq, Eq, Structural)]
pub enum FloatWidth {
    /// 32-bit float.
    F32,
    /// 64-bit float.
    F64,
}

impl FloatWidth {
    /// Size of one element in bytes.
    pub open spec fn byte_size(self) -> nat {
        match self {
            FloatWidth::F32 => 4,
            FloatWidth::F64 => 8,
        }
    }

    /// The suffix used in kind strings: `f` for f32, `d` for f64.
    pub open spec fn suffix_char(self) -> char {
        match self {
            FloatWidth::F32 => 'f',
            FloatWidth::F64 => 'd',
        }
    }

    /// Size of a single element in bytes.
    pub fn size(self) -> (r: usize)
        ensures
            r == self.byte_size(),
    {
        match self {
            FloatWidth::F32 => 4,
            FloatWidth::F64 => 8,
        }
    }

    /// Short suffix used in display names: `f` for f32, `d` for f64.
    pub fn suffix(self) -> (c: char)
        ensures
            c == self.suffix_char(),
    {
        match self {
            FloatWidth::F32 => 'f',
            FloatWidth::F64 => 'd',
        }
    }

    /// Rust element type, e.g. `f32`.
    pub fn rust_ty(self) -> (r: &'static str)
        ensures
            r@ == (match self {
                FloatWidth::F32 => seq!['f', '3', '2'],
                FloatWidth::F64 => seq!['f', '6', '4'],
            }),
    {
        proof {
            reveal_strlit("f32");
            reveal_strlit("f64");
        }
        match self {
            FloatWidth::F32 => "f32",
            FloatWidth::F64 => "f64",
        }
    }

    /// C++ element type, e.g. `float`.
    pub fn cpp_ty(self) -> (r: &'static str)
        ensures
            r@ == (match self {
                FloatWidth::F32 => seq!['f', 'l', 'o', 'a', 't'],
                FloatWidth::F64 => seq!['d', 'o', 'u', 'b', 'l', 'e'],
            }),
    {
        proof {
            reveal_strlit("float");
            reveal_strlit("double");
        }
        match self {
            FloatWidth::F32 => "float",
            FloatWidth::F64 => "double",
        }
    }
}

/// The kind of a field: its interpretation and byte width.
#[derive(Debug, Clone, Copy, PartialEq, Eq, Structural)]
pub enum FieldKind {
    /// Unknown 1-byte value shown as hex.
    Unk8,
    /// Unknown 2-byte value shown as hex.
    Unk16,
    /// Unknown 4-byte value shown as hex.
    Unk32,
    /// Unknown 8-byte value shown as hex.
    Unk64,
    /// Signed 8-bit integer.
    I8,
    /// Signed 16-bit integer.
    I16,
    /// Signed 32-bit integer.
    I32,
    /// Signed 64-bit integer.
    I64,
    /// Unsigned 8-bit integer.
    U8,
    /// Unsigned 16-bit integer.
    U16,
    /// Unsigned 32-bit integer.
    U32,
    /// Unsigned 64-bit integer.
    U64,
    /// 32-bit float.
    F32,
    /// 64-bit float.
    F64,
    /// Pointer (target width).
    Ptr,
    /// Pointer to a NUL-terminated string (target width).
    StrPtr,
    /// One-byte boolean.
    Bool,
    /// N-component float vector.
    Vector { components: u8, width: FloatWidth },
    /// `rows`x`cols` float matrix.
    Matrix { rows: u8, cols: u8, width: FloatWidth },
}

/// The canonical label of the named scalar kinds (`I8` .. `F64`).
pub open spec fn label_chars(k: FieldKind) -> Option<Seq<char>> {
    match k {
        FieldKind::I8 => Some(seq!['I', '8']),
        FieldKind::I16 => Some(seq!['I', '1', '6']),
        FieldKind::I32 => Some(seq!['I', '3', '2']),
        FieldKind::I64 => Some(seq!['I', '6', '4']),
        FieldKind::U8 => Some(seq!['U', '8']),
        FieldKind::U16 => Some(seq!['U', '1', '6']),
        FieldKind::U32 => Some(seq!['U', '3', '2']),
        FieldKind::U64 => Some(seq!['U', '6', '4']),
        FieldKind::F32 => Some(seq!['F', '3', '2']),
        FieldKind::F64 => Some(seq!['F', '6', '4']),
        _ => None,
    }
}

/// The compact string form of every kind without dimensions.
pub open spec fn plain_name(k: FieldKind) -> Seq<char> {
    match k {
        FieldKind::Unk8 => seq!['H', 'e', 'x', '8'],
        FieldKind::Unk16 => seq!['H', 'e', 'x', '1', '6'],
        FieldKind::Unk32 => seq!['H', 'e', 'x', '3', '2'],
        FieldKind::Unk64 => seq!['H', 'e', 'x', '6', '4'],
        FieldKind::Ptr => seq!['P', 't', 'r'],
        FieldKind::StrPtr => seq!['S', 't', 'r', 'P', 't', 'r'],
        FieldKind::Bool => seq!['B', 'o', 'o', 'l'],
        _ => match label_chars(k) {
            Some(l) => l,
            None => seq!['?'],
        },
    }
}

/// The compact string form of a kind: `Vec{N}{f|d}`, `Mat{R}x{C}{f|d}`, or
/// the kind's name.
pub open spec fn kind_string(k: FieldKind) -> Seq<char> {
    match k {
        FieldKind::Vector { components, width } => seq!['V', 'e', 'c'] + dec(components as nat)
            + seq![width.suffix_char()],
        FieldKind::Matrix { rows, cols, width } => seq!['M', 'a', 't'] + dec(rows as nat) + seq![
            'x',
        ] + dec(cols as nat) + seq![width.suffix_char()],
        _ => plain_name(k),
    }
}

/// The kind a name without dimensions stands for.
pub open spec fn named_kind(s: Seq<char>) -> Option<FieldKind> {
    if s == seq!['I', '8'] {
        Some(FieldKind::I8)
    } else if s == seq!['I', '1', '6'] {
        Some(FieldKind::I16)
    } else if s == seq!['I', '3', '2'] {
        Some(FieldKind::I32)
    } else if s == seq!['I', '6', '4'] {
        Some(FieldKind::I64)
    } else if s == seq!['U', '8'] {
        Some(FieldKind::U8)
    } else if s == seq!['U', '1', '6'] {
        Some(FieldKind::U16)
    } else if s == seq!['U', '3', '2'] {
        Some(FieldKind::U32)
    } else if s == seq!['U', '6', '4'] {
        Some(FieldKind::U64)
    } else if s == seq!['F', '3', '2'] {
        Some(FieldKind::F32)
    } else if s == seq!['F', '6', '4'] {
        Some(FieldKind::F64)
    } else if s == seq!['B', 'o', 'o', 'l'] {
        Some(FieldKind::Bool)
    } else if s == seq!['P', 't', 'r'] {
        Some(FieldKind::Ptr)
    } else if s == seq!['S', 't', 'r', 'P', 't', 'r'] {
        Some(FieldKind::StrPtr)
    } else if s == seq!['H', 'e', 'x', '8'] {
        Some(FieldKind::Unk8)
    } else if s == seq!['H', 'e', 'x', '1', '6'] {
        Some(FieldKind::Unk16)
    } else if s == seq!['H', 'e', 'x', '3', '2'] {
        Some(FieldKind::Unk32)
    } else if s == seq!['H', 'e', 'x', '6', '4'] {
        Some(FieldKind::Unk64)
    } else {
        None
    }
}

/// The float width a kind-string suffix names.
pub open spec fn width_of_suffix(c: char) -> Option<FloatWidth> {
    if c == 'f' {
        Some(FloatWidth::F32)
    } else if c == 'd' {
        Some(FloatWidth::F64)
    } else {
        None
    }
}

/// Whether `s` begins with `p`.
pub open spec fn starts_with(s: Seq<char>, p: Seq<char>) -> bool {
    s.len() >= p.len() && s.take(p.len() as int) == p
}

/// The first index at or after `i` where `s` holds `c`.
pub open spec fn find_from(s: Seq<char>, c: char, i: int) -> Option<int>
    decreases s.len() - i,
{
    if i < 0 || i >= s.len() {
        None
    } else if s[i] == c {
        Some(i)
    } else {
        find_from(s, c, i + 1)
    }
}

/// `find_from` lands on a match at or after where it starts looking.
pub proof fn lemma_find_from_bounds(s: Seq<char>, c: char, i: int)
    requires
        0 <= i,
    ensures
        find_from(s, c, i) matches Some(j) ==> i <= j < s.len() && s[j] == c,
        find_from(s, c, i) is None ==> forall|k: int| i <= k < s.len() ==> s[k] != c,
    decreases s.len() - i,
{
    if i < s.len() && s[i] != c {
        lemma_find_from_bounds(s, c, i + 1);
    }
}

/// Reads a `u8` dimension as Rust's `FromStr` does.
pub open spec fn parse_dim(s: Seq<char>) -> Option<u8> {
    match parse_unsigned(s, 255) {
        Some(v) => Some(v as u8),
        None => None,
    }
}

/// Parses the vector/matrix kind strings `Vec{N}{f|d}` and `Mat{R}x{C}{f|d}`.
pub open spec fn parse_vec_mat(s: Seq<char>) -> Option<FieldKind> {
    if starts_with(s, seq!['V', 'e', 'c']) {
        let rest = s.skip(3);
        if rest.len() == 0 {
            None
        } else {
            match width_of_suffix(rest.last()) {
                None => None,
                Some(width) => match parse_dim(rest.drop_last()) {
                    Some(components) => Some(FieldKind::Vector { components, width }),
                    None => None,
                },
            }
        }
    } else if starts_with(s, seq!['M', 'a', 't']) {
        let rest = s.skip(3);
        if rest.len() == 0 {
            None
        } else {
            match width_of_suffix(rest.last()) {
                None => None,
                Some(width) => {
                    let dims = rest.drop_last();
                    match find_from(dims, 'x', 0) {
                        None => None,
                        Some(i) => match (parse_dim(dims.take(i)), parse_dim(dims.skip(i + 1))) {
                            (Some(rows), Some(cols)) => Some(FieldKind::Matrix { rows, cols, width }),
                            _ => None,
                        },
                    }
                },
            }
        }
    } else {
        None
    }
}

/// The kind a compact string form stands for.
pub open spec fn parse_kind(s: Seq<char>) -> Option<FieldKind> {
    match named_kind(s) {
        Some(k) => Some(k),
        None => parse_vec_mat(s),
    }
}

impl FieldKind {
    /// Size in bytes when pointers are `ptr` bytes wide.
    pub open spec fn byte_size(self, ptr: nat) -> nat {
        match self {
            FieldKind::Unk8 | FieldKind::I8 | FieldKind::U8 | FieldKind::Bool => 1,
            FieldKind::Unk16 | FieldKind::I16 | FieldKind::U16 => 2,
            FieldKind::Unk32 | FieldKind::I32 | FieldKind::U32 | FieldKind::F32 => 4,
            FieldKind::Unk64 | FieldKind::I64 | FieldKind::U64 | FieldKind::F64 => 8,
            FieldKind::Ptr | FieldKind::StrPtr => ptr,
            FieldKind::Vector { components, width } => components as nat * width.byte_size(),
            FieldKind::Matrix { rows, cols, width } => rows as nat * cols as nat
                * width.byte_size(),
        }
    }

    /// Canonical label for the named scalar variants, or `None` for the rest.
    pub fn label(&self) -> (r: Option<&'static str>)
        ensures
            r is Some <==> label_chars(*self) is Some,
            r matches Some(s) ==> Some(s@) == label_chars(*self),
    {
        proof {
            reveal_strlit("I8");
            reveal_strlit("I16");
            reveal_strlit("I32");
            reveal_strlit("I64");
            reveal_strlit("U8");
            reveal_strlit("U16");
            reveal_strlit("U32");
            reveal_strlit("U64");
            reveal_strlit("F32");
            reveal_strlit("F64");
        }
        match self {
            FieldKind::I8 => Some("I8"),
            FieldKind::I16 => Some("I16"),
            FieldKind::I32 => Some("I32"),
            FieldKind::I64 => Some("I64"),
            FieldKind::U8 => Some("U8"),
            FieldKind::U16 => Some("U16"),
            FieldKind::U32 => Some("U32"),
            FieldKind::U64 => Some("U64"),
            FieldKind::F32 => Some("F32"),
            FieldKind::F64 => Some("F64"),
            _ => None,
        }
    }

    /// Human-readable name for any kind, including the vector/matrix variants
    /// (e.g. `Vec3f`, `Mat4x4d`). Never empty.
    pub fn display_name(&self) -> (s: String)
        ensures
            s@ == kind_string(*self),
    {
        match *self {
            FieldKind::Vector { components, width } => {
                let mut s = string_of(&['V', 'e', 'c']);
                push_dec(&mut s, components as u128);
                push_char(&mut s, width.suffix());
                s
            },
            FieldKind::Matrix { rows, cols, width } => {
                let mut s = string_of(&['M', 'a', 't']);
                push_dec(&mut s, rows as u128);
                push_char(&mut s, 'x');
                push_dec(&mut s, cols as u128);
                push_char(&mut s, width.suffix());
                s
            },
            FieldKind::Unk8 => string_of(&['H', 'e', 'x', '8']),
            FieldKind::Unk16 => string_of(&['H', 'e', 'x', '1', '6']),
            FieldKind::Unk32 => string_of(&['H', 'e', 'x', '3', '2']),
            FieldKind::Unk64 => string_of(&['H', 'e', 'x', '6', '4']),
            FieldKind::Ptr => string_of(&['P', 't', 'r']),
            FieldKind::StrPtr => string_of(&['S', 't', 'r', 'P', 't', 'r']),
            FieldKind::Bool => string_of(&['B', 'o', 'o', 'l']),
            FieldKind::I8 => string_of(&['I', '8']),
            FieldKind::I16 => string_of(&['I', '1', '6']),
            FieldKind::I32 => string_of(&['I', '3', '2']),
            FieldKind::I64 => string_of(&['I', '6', '4']),
            FieldKind::U8 => string_of(&['U', '8']),
            FieldKind::U16 => string_of(&['U', '1', '6']),
            FieldKind::U32 => string_of(&['U', '3', '2']),
            FieldKind::U64 => string_of(&['U', '6', '4']),
            FieldKind::F32 => string_of(&['F', '3', '2']),
            FieldKind::F64 => string_of(&['F', '6', '4']),
        }
    }
}


impl FieldKind {
    /// Size in bytes, using `ptr_size` for [`FieldKind::Ptr`] and
    /// [`FieldKind::StrPtr`].
    pub fn size_with_ptr(&self, ptr_size: usize) -> (r: usize)
        ensures
            r == self.byte_size(ptr_size as nat),
    {
        match *self {
            FieldKind::Unk8 | FieldKind::I8 | FieldKind::U8 | FieldKind::Bool => 1,
            FieldKind::Unk16 | FieldKind::I16 | FieldKind::U16 => 2,
            FieldKind::Unk32 | FieldKind::I32 | FieldKind::U32 | FieldKind::F32 => 4,
            FieldKind::Unk64 | FieldKind::I64 | FieldKind::U64 | FieldKind::F64 => 8,
            FieldKind::Ptr | FieldKind::StrPtr => ptr_size,
            FieldKind::Vector { components, width } => {
                let w = width.size();
                assert(components as usize * w <= 255 * 8) by (nonlinear_arith)
                    requires
                        components <= 255,
                        w <= 8,
                ;
                components as usize * w
            },
            FieldKind::Matrix { rows, cols, width } => {
                let w = width.size();
                assert(rows as usize * cols as usize <= 255 * 255) by (nonlinear_arith)
                    requires
                        rows <= 255,
                        cols <= 255,
                ;
                assert(rows as usize * cols as usize * w <= 255 * 255 * 8) by (nonlinear_arith)
                    requires
                        rows as usize * cols as usize <= 255 * 255,
                        w <= 8,
                ;
                rows as usize * cols as usize * w
            },
        }
    }

    /// Size in bytes, assuming [`DEFAULT_PTR_SIZE`] for pointer kinds.
    pub fn size(&self) -> (r: usize)
        ensures
            r == self.byte_size(DEFAULT_PTR_SIZE as nat),
    {
        self.size_with_ptr(DEFAULT_PTR_SIZE)
    }

    /// The compact string form used in class files; the same text as
    /// [`Self::display_name`].
    pub fn to_kind_string(&self) -> (s: String)
        ensures
            s@ == kind_string(*self),
    {
        self.display_name()
    }

    /// Parses the compact string form produced by [`Self::to_kind_string`].
    pub fn from_kind_string(s: &str) -> (r: Option<FieldKind>)
        ensures
            r == parse_kind(s@),
    {
        let v = str_chars(s);
        kind_from_chars(v.as_slice())
    }
}

/// The kind named by a character sequence (see [`FieldKind::from_kind_string`]).
pub fn kind_from_chars(v: &[char]) -> (r: Option<FieldKind>)
    ensures
        r == parse_kind(v@),
{
    if chars_eq(v, &['I', '8']) {
        Some(FieldKind::I8)
    } else if chars_eq(v, &['I', '1', '6']) {
        Some(FieldKind::I16)
    } else if chars_eq(v, &['I', '3', '2']) {
        Some(FieldKind::I32)
    } else if chars_eq(v, &['I', '6', '4']) {
        Some(FieldKind::I64)
    } else if chars_eq(v, &['U', '8']) {
        Some(FieldKind::U8)
    } else if chars_eq(v, &['U', '1', '6']) {
        Some(FieldKind::U16)
    } else if chars_eq(v, &['U', '3', '2']) {
        Some(FieldKind::U32)
    } else if chars_eq(v, &['U', '6', '4']) {
        Some(FieldKind::U64)
    } else if chars_eq(v, &['F', '3', '2']) {
        Some(FieldKind::F32)
    } else if chars_eq(v, &['F', '6', '4']) {
        Some(FieldKind::F64)
    } else if chars_eq(v, &['B', 'o', 'o', 'l']) {
        Some(FieldKind::Bool)
    } else if chars_eq(v, &['P', 't', 'r']) {
        Some(FieldKind::Ptr)
    } else if chars_eq(v, &['S', 't', 'r', 'P', 't', 'r']) {
        Some(FieldKind::StrPtr)
    } else if chars_eq(v, &['H', 'e', 'x', '8']) {
        Some(FieldKind::Unk8)
    } else if chars_eq(v, &['H', 'e', 'x', '1', '6']) {
        Some(FieldKind::Unk16)
    } else if chars_eq(v, &['H', 'e', 'x', '3', '2']) {
        Some(FieldKind::Unk32)
    } else if chars_eq(v, &['H', 'e', 'x', '6', '4']) {
        Some(FieldKind::Unk64)
    } else {
        vec_mat_from_chars(v)
    }
}

fn width_from_char(c: char) -> (r: Option<FloatWidth>)
    ensures
        r == width_of_suffix(c),
{
    if c == 'f' {
        Some(FloatWidth::F32)
    } else if c == 'd' {
        Some(FloatWidth::F64)
    } else {
        None
    }
}

fn parse_dim_chars(s: &[char], lo: usize, hi: usize) -> (r: Option<u8>)
    requires
        lo <= hi <= s@.len(),
    ensures
        r == parse_dim(s@.subrange(lo as int, hi as int)),
{
    let v = sub_chars(s, lo, hi);
    match parse_unsigned_chars(v.as_slice(), 255) {
        Some(x) => Some(x as u8),
        None => None,
    }
}

fn vec_mat_from_chars(v: &[char]) -> (r: Option<FieldKind>)
    ensures
        r == parse_vec_mat(v@),
{
    let n = v.len();
    let is_vec = n >= 3 && v[0] == 'V' && v[1] == 'e' && v[2] == 'c';
    let is_mat = n >= 3 && v[0] == 'M' && v[1] == 'a' && v[2] == 't';
    proof {
        if n >= 3 {
            assert(is_vec == (v@.take(3) =~= seq!['V', 'e', 'c']));
            assert(is_mat == (v@.take(3) =~= seq!['M', 'a', 't']));
        }
    }
    if !is_vec && !is_mat {
        return None;
    }
    let ghost rest = v@.skip(3);
    if n == 3 {
        return None;
    }
    let width = match width_from_char(v[n - 1]) {
        Some(w) => w,
        None => {
            assert(rest.last() == v@[n - 1]);
            return None;
        },
    };
    assert(rest.last() == v@[n - 1]);
    assert(rest.drop_last() =~= v@.subrange(3, n - 1));
    if is_vec {
        match parse_dim_chars(v, 3, n - 1) {
            Some(components) => Some(FieldKind::Vector { components, width }),
            None => None,
        }
    } else {
        let ghost dims = rest.drop_last();
        let mut i: usize = 3;
        while i < n - 1 && v[i] != 'x'
            invariant
                3 <= i <= n - 1,
                n == v@.len(),
                n > 3,
                dims == v@.subrange(3, n - 1),
                find_from(dims, 'x', 0) == find_from(dims, 'x', i - 3),
            decreases n - 1 - i,
        {
            i = i + 1;
        }
        if i == n - 1 {
            return None;
        }
        assert(find_from(dims, 'x', i - 3) == Some(i - 3));
        assert(dims.take(i - 3) =~= v@.subrange(3, i as int));
        assert(dims.skip(i - 3 + 1) =~= v@.subrange(i + 1, n - 1));
        let rows = parse_dim_chars(v, 3, i);
        let cols = parse_dim_chars(v, i + 1, n - 1);
        match (rows, cols) {
            (Some(rows), Some(cols)) => Some(FieldKind::Matrix { rows, cols, width }),
            _ => None,
        }
    }
}


/// `find_from` lands on the first occurrence at or after `i`.
proof fn lemma_find_from(s: Seq<char>, c: char, i: int, k: int)
    requires
        0 <= i <= k < s.len(),
        s[k] == c,
        forall|j: int| i <= j < k ==> s[j] != c,
    ensures
        find_from(s, c, i) == Some(k),
    decreases k - i,
{
    if i < k {
        lemma_find_from(s, c, i + 1, k);
    }
}

proof fn lemma_vector_roundtrip(components: u8, width: FloatWidth)
    ensures
        parse_kind(kind_string(FieldKind::Vector { components, width })) == Some(
            FieldKind::Vector { components, width },
        ),
{
    let s = kind_string(FieldKind::Vector { components, width });
    let d = dec(components as nat);
    lemma_dec_roundtrip(components as nat);
    lemma_parse_dec(components as nat, 255);
    assert(s[0] == 'V');
    assert(named_kind(s) is None);
    assert(s.take(3) =~= seq!['V', 'e', 'c']);
    let rest = s.skip(3);
    assert(rest =~= d + seq![width.suffix_char()]);
    assert(rest.drop_last() =~= d);
}

proof fn lemma_matrix_roundtrip(rows: u8, cols: u8, width: FloatWidth)
    ensures
        parse_kind(kind_string(FieldKind::Matrix { rows, cols, width })) == Some(
            FieldKind::Matrix { rows, cols, width },
        ),
{
    let s = kind_string(FieldKind::Matrix { rows, cols, width });
    let dr = dec(rows as nat);
    let dc = dec(cols as nat);
    lemma_dec_roundtrip(rows as nat);
    lemma_dec_roundtrip(cols as nat);
    lemma_parse_dec(rows as nat, 255);
    lemma_parse_dec(cols as nat, 255);
    assert(s[0] == 'M');
    assert(named_kind(s) is None);
    assert(s.take(3)[0] == 'M');
    assert(!starts_with(s, seq!['V', 'e', 'c']));
    assert(s.take(3) =~= seq!['M', 'a', 't']);
    let rest = s.skip(3);
    let dims = dr + seq!['x'] + dc;
    assert(rest =~= dims + seq![width.suffix_char()]);
    assert(rest.drop_last() =~= dims);
    assert forall|j: int| 0 <= j < dr.len() implies dims[j] != 'x' by {
        assert(dims[j] == dr[j]);
        assert(crate::text::is_dec_digit(dr[j]));
    }
    lemma_find_from(dims, 'x', 0, dr.len() as int);
    assert(dims.take(dr.len() as int) =~= dr);
    assert(dims.skip(dr.len() as int + 1) =~= dc);
}

/// Parsing the compact string form of any kind gives back that kind:
/// `FieldKind::from_kind_string(&k.to_kind_string()) == Some(k)`.
#[verifier::rlimit(40)]
pub proof fn lemma_kind_string_roundtrip(k: FieldKind)
    ensures
        parse_kind(kind_string(k)) == Some(k),
{
    match k {
        FieldKind::Vector { components, width } => lemma_vector_roundtrip(components, width),
        FieldKind::Matrix { rows, cols, width } => lemma_matrix_roundtrip(rows, cols, width),
        _ => {},
    }
}

} // verus!
