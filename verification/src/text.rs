//! Character-level helpers on strings, stated over the `Seq<char>` view.
use vstd::prelude::*;

verus! {

/// `s` ends with `suffix`, character by character.
pub open spec fn seq_ends_with(s: Seq<char>, suffix: Seq<char>) -> bool {
    suffix.len() <= s.len() && s.subrange(s.len() - suffix.len(), s.len() as int) == suffix
}

/// `s` starts with `prefix`, character by character.
pub open spec fn seq_starts_with(s: Seq<char>, prefix: Seq<char>) -> bool {
    prefix.len() <= s.len() && s.subrange(0, prefix.len() as int) == prefix
}

/// `needle` occurs in `haystack` as a contiguous piece (the empty needle always does).
pub open spec fn seq_contains_piece(haystack: Seq<char>, needle: Seq<char>) -> bool {
    exists|i: int|
        0 <= i && i + needle.len() <= haystack.len() && #[trigger] haystack.subrange(
            i,
            i + needle.len(),
        ) == needle
}

/// Law: containment means occurring anywhere. A piece `b` placed between
/// any `a` and `c` is contained in `a + b + c`, however long `a` is; and a
/// contained piece always sits between some prefix and some suffix.
pub proof fn lemma_contains_piece_anywhere(a: Seq<char>, b: Seq<char>, c: Seq<char>)
    ensures
        seq_contains_piece(a + b + c, b),
        forall|h: Seq<char>, n: Seq<char>| seq_contains_piece(h, n) ==> exists|i: int|
            0 <= i && i + n.len() <= h.len() && #[trigger] (h.take(i) + n + h.skip(i + n.len())) == h,
{
    let h = a + b + c;
    assert(h.subrange(a.len() as int, (a.len() + b.len()) as int) =~= b);
    assert forall|h: Seq<char>, n: Seq<char>| seq_contains_piece(h, n) implies exists|i: int|
        0 <= i && i + n.len() <= h.len() && #[trigger] (h.take(i) + n + h.skip(i + n.len())) == h by {
        let i = choose|i: int| 0 <= i && i + n.len() <= h.len() && #[trigger] h.subrange(i, i + n.len()) == n;
        assert(h.take(i) + n + h.skip(i + n.len()) =~= h);
    }
}

/// The characters of `s`, in order.
pub fn chars_of(s: &str) -> (v: Vec<char>)
    ensures
        v@ == s@,
{
    let mut v: Vec<char> = Vec::new();
    for c in it: s.chars()
        invariant
            v@ == it.seq().take(it.index() as int),
            it.seq() == s@,
    {
        v.push(c);
    }
    v
}


/// Whether two character slices are equal.
pub fn chars_equal(a: &[char], b: &[char]) -> (r: bool)
    ensures
        r == (a@ == b@),
{
    if a.len() != b.len() {
        return false;
    }
    let mut i: usize = 0;
    while i < a.len()
        invariant
            a@.len() == b@.len(),
            i <= a@.len(),
            forall|j: int| 0 <= j < i ==> a@[j] == b@[j],
        decreases a@.len() - i,
    {
        if a[i] != b[i] {
            return false;
        }
        i = i + 1;
    }
    assert(a@ =~= b@);
    true
}

/// Whether two strings hold the same characters.
pub fn text_equal(a: &str, b: &str) -> (r: bool)
    ensures
        r == (a@ == b@),
{
    let va = chars_of(a);
    let vb = chars_of(b);
    chars_equal(va.as_slice(), vb.as_slice())
}

/// Whether the characters `s` end with the characters `suffix`.
pub fn chars_end_with(s: &[char], suffix: &[char]) -> (r: bool)
    ensures
        r == seq_ends_with(s@, suffix@),
{
    if suffix.len() > s.len() {
        return false;
    }
    let off: usize = s.len() - suffix.len();
    let mut i: usize = 0;
    while i < suffix.len()
        invariant
            off + suffix@.len() == s@.len(),
            s@.len() <= usize::MAX,
            i <= suffix@.len(),
            forall|j: int| 0 <= j < i ==> s@[off + j] == suffix@[j],
        decreases suffix@.len() - i,
    {
        if s[off + i] != suffix[i] {
            assert(s@.subrange(off as int, s@.len() as int)[i as int] != suffix@[i as int]);
            return false;
        }
        i = i + 1;
    }
    assert(s@.subrange(off as int, s@.len() as int) =~= suffix@);
    true
}

/// Whether the string `s` ends with the string `suffix`.
pub fn text_ends_with(s: &str, suffix: &str) -> (r: bool)
    ensures
        r == seq_ends_with(s@, suffix@),
{
    let vs = chars_of(s);
    let vx = chars_of(suffix);
    chars_end_with(vs.as_slice(), vx.as_slice())
}

/// Whether `needle` occurs at position `at` of `haystack`.
fn piece_at(haystack: &[char], needle: &[char], at: usize) -> (r: bool)
    requires
        at + needle@.len() <= haystack@.len(),
    ensures
        r == (haystack@.subrange(at as int, at + needle@.len()) == needle@),
{
    let hay_len: usize = haystack.len();
    let mut i: usize = 0;
    while i < needle.len()
        invariant
            at + needle@.len() <= haystack@.len(),
            hay_len == haystack@.len(),
            i <= needle@.len(),
            forall|j: int| 0 <= j < i ==> haystack@[at + j] == needle@[j],
        decreases needle@.len() - i,
    {
        if haystack[at + i] != needle[i] {
            assert(haystack@.subrange(at as int, at + needle@.len())[i as int] != needle@[i as int]);
            return false;
        }
        i = i + 1;
    }
    assert(haystack@.subrange(at as int, at + needle@.len()) =~= needle@);
    true
}

/// Whether `needle` occurs in `haystack` as a contiguous piece.
pub fn chars_contain(haystack: &[char], needle: &[char]) -> (r: bool)
    ensures
        r == seq_contains_piece(haystack@, needle@),
{
    if needle.len() > haystack.len() {
        return false;
    }
    let last: usize = haystack.len() - needle.len();
    let mut at: usize = 0;
    while at < last
        invariant
            last + needle@.len() == haystack@.len(),
            at <= last,
            forall|k: int|
                0 <= k < at ==> #[trigger] haystack@.subrange(k, k + needle@.len()) != needle@,
        decreases last - at,
    {
        if piece_at(haystack, needle, at) {
            return true;
        }
        at = at + 1;
    }
    piece_at(haystack, needle, last)
}

/// Whether the string `needle` occurs in the string `haystack`, as `str::contains` finds it.
pub fn text_contains(haystack: &str, needle: &str) -> (r: bool)
    ensures
        r == seq_contains_piece(haystack@, needle@),
{
    let vh = chars_of(haystack);
    let vn = chars_of(needle);
    chars_contain(vh.as_slice(), vn.as_slice())
}

} // verus!
