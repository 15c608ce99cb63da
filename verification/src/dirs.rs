//! The in-app directory picker's listing: which sub-directories are shown
//! (hidden ones are not) and in what order (by name, ignoring case).

use vstd::prelude::*;
use vstd::string::*;
use crate::text::str_chars;

verus! {

/// A sub-directory as the picker shows it.
#[derive(Debug, Clone)]
pub struct DirEntryDto {
    /// The directory's own name.
    pub name: String,
    /// Its full path.
    pub path: String,
    /// Whether it is a project folder.
    pub is_project: bool,
}

/// A directory and its visible sub-directories.
#[derive(Debug, Clone)]
pub struct DirListingDto {
    /// The listed directory.
    pub path: String,
    /// Its parent directory, if it has one.
    pub parent: Option<String>,
    /// The visible sub-directories, ordered by lower-cased name.
    pub dirs: Vec<DirEntryDto>,
}

/// `str::to_lowercase` of a string: its full Unicode lower-case mapping.
pub uninterp spec fn lowercase(s: Seq<char>) -> Seq<char>;

/// `str::to_lowercase`: the Unicode lower-case form of `s`.
#[verifier::external_body]
fn to_lowercase(s: &str) -> (r: String)
    ensures
        r@ == lowercase(s@),
{
    s.to_lowercase()
}

/// `a` comes no later than `b` in the order of their characters' code
/// points, a proper prefix first. For strings this is the order `String`'s
/// `cmp` gives, since UTF-8 keeps code-point order byte by byte.
pub open spec fn chars_le(a: Seq<char>, b: Seq<char>) -> bool
    decreases a.len(),
{
    if a.len() == 0 {
        true
    } else if b.len() == 0 {
        false
    } else if a[0] < b[0] {
        true
    } else if a[0] > b[0] {
        false
    } else {
        chars_le(a.drop_first(), b.drop_first())
    }
}

/// Any two strings are ordered one way or the other.
pub proof fn lemma_chars_le_total(a: Seq<char>, b: Seq<char>)
    ensures
        chars_le(a, b) || chars_le(b, a),
    decreases a.len(),
{
    if a.len() > 0 && b.len() > 0 && a[0] == b[0] {
        lemma_chars_le_total(a.drop_first(), b.drop_first());
    }
}

/// Every string is ordered with itself.
pub proof fn lemma_chars_le_refl(a: Seq<char>)
    ensures
        chars_le(a, a),
    decreases a.len(),
{
    if a.len() > 0 {
        lemma_chars_le_refl(a.drop_first());
    }
}

/// The order is transitive.
pub proof fn lemma_chars_le_trans(a: Seq<char>, b: Seq<char>, c: Seq<char>)
    requires
        chars_le(a, b),
        chars_le(b, c),
    ensures
        chars_le(a, c),
    decreases a.len(),
{
    if a.len() > 0 && b.len() > 0 && c.len() > 0 && a[0] == b[0] && b[0] == c[0] {
        lemma_chars_le_trans(a.drop_first(), b.drop_first(), c.drop_first());
    }
}

/// Two strings ordered both ways are equal.
pub proof fn lemma_chars_le_antisym(a: Seq<char>, b: Seq<char>)
    requires
        chars_le(a, b),
        chars_le(b, a),
    ensures
        a == b,
    decreases a.len(),
{
    if a.len() > 0 && b.len() > 0 {
        lemma_chars_le_antisym(a.drop_first(), b.drop_first());
        assert(a =~= seq![a[0]] + a.drop_first());
        assert(b =~= seq![b[0]] + b.drop_first());
    } else {
        assert(a =~= b);
    }
}

/// `perm` lists each index below `n` exactly once.
pub open spec fn is_permutation(perm: Seq<int>, n: nat) -> bool {
    &&& perm.len() == n
    &&& forall|i: int| 0 <= i < n ==> 0 <= #[trigger] perm[i] < n
    &&& forall|i: int, j: int| 0 <= i < j < n ==> perm[i] != perm[j]
}

/// Item `x` of `items` goes before item `y`: its key is smaller, or the
/// keys are equal and it came first.
pub open spec fn key_before<T>(items: Seq<(Seq<char>, T)>, x: int, y: int) -> bool {
    let a = items[x].0;
    let b = items[y].0;
    (chars_le(a, b) && a != b) || (a == b && x < y)
}

/// `out` is `items` put in order of their keys, items with equal keys kept
/// in the order they came in: the order a stable sort by key gives.
pub open spec fn stably_sorted<T>(items: Seq<(Seq<char>, T)>, out: Seq<T>) -> bool {
    exists|perm: Seq<int>|
        #![trigger is_permutation(perm, items.len())]
        {
            &&& is_permutation(perm, items.len())
            &&& out.len() == items.len()
            &&& forall|i: int| 0 <= i < out.len() ==> #[trigger] out[i] == items[perm[i]].1
            &&& forall|i: int, j: int|
                0 <= i < j < out.len() ==> #[trigger] key_before(items, perm[i], perm[j])
        }
}

/// Orders `items` by their keys, keeping items with equal keys in the order
/// they came in, and drops the keys.
pub fn order_by_key<T>(items: Vec<(Vec<char>, T)>) -> (r: Vec<T>)
    ensures
        stably_sorted(items@.map_values(|p: (Vec<char>, T)| (p.0@, p.1)), r@),
{
    let ghost src = items@.map_values(|p: (Vec<char>, T)| (p.0@, p.1));
    let ghost n = items@.len();
    let mut rest = items;
    let total = rest.len();
    let mut keys: Vec<Vec<char>> = Vec::new();
    let mut out: Vec<T> = Vec::new();
    let ghost mut perm: Seq<int> = seq![];
    let mut k: usize = 0;
    while rest.len() > 0
        invariant
            n == src.len(),
            total == n,
            k + rest@.len() == n,
            forall|i: int| 0 <= i < rest@.len() ==> (#[trigger] rest@[i]).0@ == src[k + i].0 && rest@[i].1 == src[k + i].1,
            keys@.len() == out@.len(),
            out@.len() == k,
            is_permutation(perm, k as nat),
            forall|i: int| 0 <= i < k ==> #[trigger] out@[i] == src[perm[i]].1 && keys@[i]@ == src[perm[i]].0,
            forall|i: int, j: int| 0 <= i < j < k ==> #[trigger] key_before(src, perm[i], perm[j]),
        decreases rest@.len(),
    {
        let (key, item) = rest.remove(0);
        assert(key@ == src[k as int].0 && item == src[k as int].1);
        // The first kept key strictly greater than `key`.
        let mut p: usize = 0;
        while p < keys.len() && !key_less(key.as_slice(), keys[p].as_slice())
            invariant
                p <= keys@.len(),
                keys@.len() == k,
                forall|i: int| 0 <= i < p ==> chars_le(#[trigger] keys@[i]@, key@),
            decreases keys@.len() - p,
        {
            proof {
                lemma_chars_le_total(key@, keys@[p as int]@);
            }
            p = p + 1;
        }
        proof {
            if p < k {
                assert(chars_le(key@, keys@[p as int]@) && key@ != keys@[p as int]@);
            }
            assert forall|i: int, j: int|
                0 <= i < j < k + 1 implies #[trigger] key_before(src, perm.insert(p as int, k as int)[i], perm.insert(p as int, k as int)[j]) by {
                let q = perm.insert(p as int, k as int);
                if j == p {
                    let a = src[q[i]].0;
                    assert(q[i] == perm[i]);
                    assert(q[j] == k);
                    assert(out@[i] == src[perm[i]].1);
                    assert(chars_le(keys@[i]@, key@));
                    if a != key@ {
                    } else {
                        assert(perm[i] < k);
                    }
                } else if i == p {
                    assert(q[i] == k);
                    assert(q[j] == perm[j - 1]);
                    assert(out@[j - 1] == src[perm[j - 1]].1);
                    assert(out@[p as int] == src[perm[p as int]].1);
                    let b = src[perm[j - 1]].0;
                    assert(chars_le(key@, keys@[p as int]@) && key@ != keys@[p as int]@);
                    if j - 1 > p {
                        let m = src[perm[p as int]].0;
                        assert(out@[p as int] == src[perm[p as int]].1);
                        assert(key_before(src, perm[p as int], perm[j - 1]));
                        lemma_chars_le_refl(b);
                        lemma_chars_le_trans(key@, m, b);
                        if key@ == b {
                            lemma_chars_le_antisym(m, b);
                        }
                    }
                } else {
                    let ii = if i < p { i } else { i - 1 };
                    let jj = if j < p { j } else { j - 1 };
                    assert(q[i] == perm[ii]);
                    assert(q[j] == perm[jj]);
                    assert(ii < jj);
                }
            }
        }
        let ghost old_out = out@;
        let ghost old_keys = keys@;
        assert(forall|i: int| 0 <= i < k ==> old_out[i] == src[perm[i]].1 && old_keys[i]@ == src[perm[i]].0);
        keys.insert(p, key);
        out.insert(p, item);
        proof {
            let q = perm.insert(p as int, k as int);
            assert forall|i: int| 0 <= i < k + 1 implies 0 <= #[trigger] q[i] < k + 1 by {
                if i < p {
                    assert(q[i] == perm[i]);
                } else if i > p {
                    assert(q[i] == perm[i - 1]);
                }
            }
            assert forall|i: int, j: int| 0 <= i < j < k + 1 implies q[i] != q[j] by {
                if i != p && j != p {
                    let ii = if i < p { i } else { i - 1 };
                    let jj = if j < p { j } else { j - 1 };
                    assert(q[i] == perm[ii]);
                    assert(q[j] == perm[jj]);
                } else if i == p {
                    assert(q[i] == k);
                    assert(q[j] == perm[j - 1]);
                } else {
                    assert(q[i] == perm[i]);
                }
            }
            assert forall|i: int| 0 <= i < k + 1 implies #[trigger] out@[i] == src[q[i]].1 && keys@[i]@ == src[q[i]].0 by {
                if i < p {
                    assert(q[i] == perm[i]);
                    assert(out@[i] == old_out[i] && keys@[i] == old_keys[i]);
                } else if i > p {
                    assert(q[i] == perm[i - 1]);
                    assert(out@[i] == old_out[i - 1] && keys@[i] == old_keys[i - 1]);
                } else {
                    assert(q[i] == k);
                }
            }
            perm = q;
        }
        k = k + 1;
    }
    proof {
        assert(is_permutation(perm, src.len()));
    }
    out
}

/// Whether `a` comes strictly before `b`.
fn key_less(a: &[char], b: &[char]) -> (r: bool)
    ensures
        r == (chars_le(a@, b@) && a@ != b@),
{
    let mut i: usize = 0;
    assert(a@.skip(0) =~= a@ && b@.skip(0) =~= b@);
    while i < a.len() && i < b.len()
        invariant
            i <= a@.len(),
            i <= b@.len(),
            a@.take(i as int) == b@.take(i as int),
            chars_le(a@, b@) == chars_le(a@.skip(i as int), b@.skip(i as int)),
        decreases a.len() - i,
    {
        if a[i] < b[i] {
            proof {
                assert(a@[i as int] != b@[i as int]);
            }
            return true;
        }
        if a[i] > b[i] {
            return false;
        }
        proof {
            assert(a@.skip(i as int).drop_first() =~= a@.skip(i + 1));
            assert(b@.skip(i as int).drop_first() =~= b@.skip(i + 1));
            assert(a@.take(i + 1) =~= a@.take(i as int).push(a@[i as int]));
            assert(b@.take(i + 1) =~= b@.take(i as int).push(b@[i as int]));
        }
        i = i + 1;
    }
    proof {
        if i == a.len() {
            assert(a@.take(i as int) =~= a@);
        }
        if i == b.len() {
            assert(b@.take(i as int) =~= b@);
        }
    }
    a.len() < b.len()
}

/// Whether a directory name is hidden (starts with `.`).
pub open spec fn is_hidden(name: Seq<char>) -> bool {
    name.len() > 0 && name[0] == '.'
}

/// The entries of `entries` that are not hidden, in order.
pub open spec fn visible(entries: Seq<DirEntryDto>) -> Seq<DirEntryDto> {
    entries.filter(|e: DirEntryDto| !is_hidden(e.name@))
}

/// The listing of directory `path` with sub-directories `entries`: the
/// hidden ones are left out, and the rest ordered by lower-cased name, those
/// with equal such names in the order given.
pub fn dir_listing(path: String, parent: Option<String>, entries: Vec<DirEntryDto>) -> (r: DirListingDto)
    ensures
        r.path == path,
        r.parent == parent,
        stably_sorted(visible(entries@).map_values(|e: DirEntryDto| (lowercase(e.name@), e)), r.dirs@),
{
    let ghost src = entries@;
    let mut rest = entries;
    let mut keyed: Vec<(Vec<char>, DirEntryDto)> = Vec::new();
    let ghost mut k: int = 0;
    while rest.len() > 0
        invariant
            0 <= k <= src.len(),
            rest@ == src.skip(k),
            keyed@.map_values(|p: (Vec<char>, DirEntryDto)| (p.0@, p.1)) == visible(src.take(k)).map_values(
                |e: DirEntryDto| (lowercase(e.name@), e),
            ),
        decreases rest@.len(),
    {
        let e = rest.remove(0);
        assert(e == src[k]);
        let c = str_chars(e.name.as_str());
        let hidden = c.len() > 0 && c[0] == '.';
        let ghost before = keyed@;
        if !hidden {
            let low = to_lowercase(e.name.as_str());
            let lc = str_chars(low.as_str());
            keyed.push((lc, e));
        }
        proof {
            reveal(Seq::filter);
            let t = src.take(k + 1);
            assert(t.drop_last() =~= src.take(k));
            assert(t.last() == e);
            assert(hidden == is_hidden(e.name@));
            let f = |e: DirEntryDto| (lowercase(e.name@), e);
            if hidden {
                assert(visible(t) == visible(src.take(k)));
            } else {
                assert(visible(t) == visible(src.take(k)).push(e));
                assert(visible(t).map_values(f) =~= visible(src.take(k)).map_values(f).push(f(e)));
            }
            assert(keyed@.map_values(|p: (Vec<char>, DirEntryDto)| (p.0@, p.1)) =~= visible(t).map_values(f));
            k = k + 1;
            assert(rest@ =~= src.skip(k));
        }
    }
    assert(src.take(k) =~= src);
    let dirs = order_by_key(keyed);
    DirListingDto { path, parent, dirs }
}

} // verus!
