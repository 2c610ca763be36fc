//! Ordering of search keywords and filtering of AUR search results.
use crate::text::chars_of;
use crate::text::chars_contain;
use crate::text::seq_contains_piece;
use vstd::prelude::*;
use vstd::utf8::encode_utf8;

verus! {

/// Length in bytes of the UTF-8 encoding of `s`, as `String::len` gives it.
pub open spec fn utf8_len(s: Seq<char>) -> int {
    encode_utf8(s).len() as int
}

/// The sort key of a keyword of byte length `len`: the length truncated to
/// `i16` and negated, both with wrapping, so that longer keywords (up to
/// `i16::MAX` bytes) come first.
pub open spec fn length_key(len: int) -> int {
    let r = (-len) % 65536;
    if r >= 32768 {
        r - 65536
    } else {
        r
    }
}

/// The sort key of keyword `s`.
pub open spec fn keyword_key(s: Seq<char>) -> int {
    length_key(utf8_len(s))
}

/// The keywords of `v` whose key is `k`, in their order in `v`.
pub open spec fn with_key(v: Seq<String>, k: int) -> Seq<String> {
    v.filter(|x: String| keyword_key(x@) == k)
}

/// Keys never decrease along `v`.
pub open spec fn sorted_by_key(v: Seq<String>) -> bool {
    forall|i: int, j: int| 0 <= i < j < v.len() ==> keyword_key(#[trigger] v[i]@) <= keyword_key(#[trigger] v[j]@)
}

/// Byte length of `s`.
fn byte_length(s: &String) -> (n: usize)
    ensures
        n == utf8_len(s@),
{
    s.as_str().as_bytes().len()
}

/// Sort key of a keyword, computed from its byte length.
fn key_of(s: &String) -> (k: i32)
    ensures
        k == keyword_key(s@),
{
    let len = byte_length(s);
    let m: usize = len % 65536;
    let r: i32 = if m == 0 {
        0
    } else {
        (65536 - m) as i32
    };
    assert(r == (-(len as int)) % 65536) by {
        assert(len as int == 65536 * (len as int / 65536) + m);
    }
    if r >= 32768 {
        r - 65536
    } else {
        r
    }
}

proof fn lemma_with_key_none(v: Seq<String>, k: int)
    requires
        forall|i: int| 0 <= i < v.len() ==> keyword_key(#[trigger] v[i]@) != k,
    ensures
        with_key(v, k) == Seq::<String>::empty(),
    decreases v.len(),
{
    reveal(Seq::filter);
    if v.len() > 0 {
        assert forall|i: int| 0 <= i < v.drop_last().len() implies keyword_key(#[trigger] v.drop_last()[i]@) != k by {
            assert(v.drop_last()[i] == v[i]);
        }
        lemma_with_key_none(v.drop_last(), k);
    }
}

proof fn lemma_with_key_push(v: Seq<String>, x: String, k: int)
    ensures
        with_key(v.push(x), k) == if keyword_key(x@) == k {
            with_key(v, k).push(x)
        } else {
            with_key(v, k)
        },
{
    reveal(Seq::filter);
    assert(v.push(x).drop_last() =~= v);
}

/// Inserting `x` at position `p` of a key-sorted `v`, where `p` separates the
/// keys up to `x`'s key from the larger ones, keeps `v` sorted, adds `x` after
/// every keyword of its key, and leaves the other keys' keywords unchanged.
proof fn lemma_insert_at_key(v: Seq<String>, x: String, p: int, k: int)
    requires
        sorted_by_key(v),
        0 <= p <= v.len(),
        forall|i: int| 0 <= i < p ==> keyword_key(#[trigger] v[i]@) <= keyword_key(x@),
        forall|i: int| p <= i < v.len() ==> keyword_key(#[trigger] v[i]@) > keyword_key(x@),
    ensures
        sorted_by_key(v.insert(p, x)),
        with_key(v.insert(p, x), k) == if keyword_key(x@) == k {
            with_key(v, k).push(x)
        } else {
            with_key(v, k)
        },
        v.insert(p, x).to_multiset() == v.to_multiset().insert(x),
{
    broadcast use vstd::seq_lib::group_to_multiset_ensures;
    let w = v.insert(p, x);
    let front = v.take(p);
    let back = v.skip(p);
    assert(w =~= front.push(x) + back);
    assert(v =~= front + back);
    Seq::filter_distributes_over_add(front.push(x), back, |y: String| keyword_key(y@) == k);
    Seq::filter_distributes_over_add(front, back, |y: String| keyword_key(y@) == k);
    lemma_with_key_push(front, x, k);
    if keyword_key(x@) == k {
        assert forall|i: int| 0 <= i < back.len() implies keyword_key(#[trigger] back[i]@) != k by {
            assert(back[i] == v[p + i]);
        }
        lemma_with_key_none(back, k);
        assert(with_key(back, k) =~= Seq::<String>::empty());
        assert(with_key(w, k) =~= with_key(front, k).push(x));
        assert(with_key(v, k) =~= with_key(front, k));
    }
    assert forall|i: int, j: int| 0 <= i < j < w.len() implies keyword_key(#[trigger] w[i]@) <= keyword_key(#[trigger] w[j]@) by {
        if j < p {
        } else if j == p {
        } else if i < p {
            assert(w[j] == v[j - 1]);
        } else if i == p {
            assert(w[j] == v[j - 1]);
        } else {
            assert(w[i] == v[i - 1]);
            assert(w[j] == v[j - 1]);
        }
    }
    assert(w.remove(p) =~= v);
    assert(w[p] == x);
    assert(w.to_multiset() =~= v.to_multiset().insert(x));
}

/// Sorts keywords by their key, stably: longest first (up to `i16::MAX`
/// bytes), keywords of equal key in their given order.
pub fn sort_keywords(keywords: &[String]) -> (sorted: Vec<String>)
    ensures
        sorted_by_key(sorted@),
        forall|k: int| #[trigger] with_key(sorted@, k) == with_key(keywords@, k),
        sorted@.to_multiset() == keywords@.to_multiset(),
{
    let mut out: Vec<String> = Vec::new();
    let mut i: usize = 0;
    assert forall|k: int| #[trigger] with_key(out@, k) == with_key(keywords@.take(0), k) by {
        reveal(Seq::filter);
        assert(keywords@.take(0) =~= Seq::<String>::empty());
    }
    assert(keywords@.take(0) =~= Seq::<String>::empty());
    while i < keywords.len()
        invariant
            i <= keywords@.len(),
            out@.len() == i,
            sorted_by_key(out@),
            forall|k: int| #[trigger] with_key(out@, k) == with_key(keywords@.take(i as int), k),
            out@.to_multiset() == keywords@.take(i as int).to_multiset(),
        decreases keywords@.len() - i,
    {
        let x = keywords[i].clone();
        let kx = key_of(&x);
        let mut p: usize = 0;
        while p < out.len() && key_of(&out[p]) <= kx
            invariant
                p <= out@.len(),
                kx == keyword_key(x@),
                forall|j: int| 0 <= j < p ==> keyword_key(#[trigger] out@[j]@) <= kx,
            decreases out@.len() - p,
        {
            p = p + 1;
        }
        let ghost old_out = out@;
        proof {
            assert forall|j: int| p <= j < old_out.len() implies keyword_key(#[trigger] old_out[j]@) > keyword_key(x@) by {
                if p < old_out.len() {
                    assert(keyword_key(old_out[p as int]@) > kx);
                }
            }
            assert forall|k: int| #[trigger] with_key(old_out.insert(p as int, x), k) == with_key(keywords@.take(i + 1), k) by {
                lemma_insert_at_key(old_out, x, p as int, k);
                assert(keywords@.take(i + 1) =~= keywords@.take(i as int).push(keywords@[i as int]));
                lemma_with_key_push(keywords@.take(i as int), x, k);
            }
            lemma_insert_at_key(old_out, x, p as int, 0);
            assert(keywords@.take(i + 1) =~= keywords@.take(i as int).push(keywords@[i as int]));
            assert(x == keywords@[i as int]);
            keywords@.take(i as int).to_multiset_ensures();
            assert(keywords@.take(i as int).push(x).to_multiset() =~= keywords@.take(i as int).to_multiset().insert(x));
        }
        out.insert(p, x);
        i = i + 1;
    }
    assert(keywords@.take(i as int) =~= keywords@);
    out
}


/// What `str::to_lowercase` gives for the characters `s`.
pub uninterp spec fn lowercase(s: Seq<char>) -> Seq<char>;

/// Calls `str::to_lowercase`. It maps every character through the Unicode
/// lowercase tables compiled into the standard library (with the final-sigma
/// rule looking at neighbouring characters), so its result is a function of
/// the characters of `s` alone; that function is not spelt out here.
#[verifier::external_body]
fn to_lowercase(s: &str) -> (r: String)
    ensures
        r@ == lowercase(s@),
{
    s.to_lowercase()
}

/// What the search needs of an AUR package: its name and optional description.
pub struct AurPackage {
    pub name: String,
    pub description: Option<String>,
}

/// The package's name, or its description if it has one, contains the
/// keyword, all three lowercased.
pub open spec fn package_matches(pkg: AurPackage, keyword: Seq<char>) -> bool {
    ||| seq_contains_piece(lowercase(pkg.name@), lowercase(keyword))
    ||| (pkg.description matches Some(d) && seq_contains_piece(lowercase(d@), lowercase(keyword)))
}

/// Whether `pkg` matches `keyword`, ignoring case, in its name or description.
pub fn contains_keyword(pkg: &AurPackage, keyword: &str) -> (r: bool)
    ensures
        r == package_matches(*pkg, keyword@),
{
    let filter = to_lowercase(keyword);
    let filter_chars = chars_of(filter.as_str());
    let name = to_lowercase(pkg.name.as_str());
    let name_chars = chars_of(name.as_str());
    if chars_contain(name_chars.as_slice(), filter_chars.as_slice()) {
        return true;
    }
    match &pkg.description {
        Some(descr) => {
            let lowered = to_lowercase(descr.as_str());
            let descr_chars = chars_of(lowered.as_str());
            chars_contain(descr_chars.as_slice(), filter_chars.as_slice())
        },
        None => false,
    }
}

/// `out` is `input` sorted by key, keeping the order of keywords of equal key.
pub open spec fn is_stable_key_sort(out: Seq<String>, input: Seq<String>) -> bool {
    &&& sorted_by_key(out)
    &&& forall|k: int| #[trigger] with_key(out, k) == with_key(input, k)
}

/// The keyword that goes to the AUR search and the ones that then filter its results.
pub struct SearchPlan {
    pub query: String,
    pub refinements: Vec<String>,
}

/// Why a search cannot start.
pub enum SearchError {
    NoKeywords,
}

/// Orders the keywords longest first (stably, by key); the first one is the
/// query sent to the AUR, the others refine its results. No keywords, no search.
pub fn search_plan(keywords: &[String]) -> (r: Result<SearchPlan, SearchError>)
    ensures
        keywords@.len() == 0 <==> r is Err,
        r matches Ok(plan) ==> is_stable_key_sort(seq![plan.query] + plan.refinements@, keywords@),
{
    let mut sorted = sort_keywords(keywords);
    if sorted.len() == 0 {
        proof {
            sorted@.to_multiset_ensures();
            keywords@.to_multiset_ensures();
        }
        return Err(SearchError::NoKeywords);
    }
    proof {
        sorted@.to_multiset_ensures();
        keywords@.to_multiset_ensures();
    }
    let ghost all = sorted@;
    let query = sorted.remove(0);
    assert(seq![query] + sorted@ =~= all);
    Ok(SearchPlan { query, refinements: sorted })
}

/// What a search came to: no package found at all, or for each found
/// package whether it also matches every refining keyword.
pub enum SearchOutcome {
    NothingFound,
    Found(Vec<bool>),
}

/// Whether `pkg` matches every keyword of `keywords`.
fn matches_all(pkg: &AurPackage, keywords: &[String]) -> (r: bool)
    ensures
        r == forall|j: int| 0 <= j < keywords@.len() ==> package_matches(*pkg, #[trigger] keywords@[j]@),
{
    let mut j: usize = 0;
    while j < keywords.len()
        invariant
            j <= keywords@.len(),
            forall|i: int| 0 <= i < j ==> package_matches(*pkg, #[trigger] keywords@[i]@),
        decreases keywords@.len() - j,
    {
        if !contains_keyword(pkg, keywords[j].as_str()) {
            return false;
        }
        j = j + 1;
    }
    true
}

/// Decides on the packages an AUR search returned: nothing found when there
/// are none, else which of them every refining keyword matches.
pub fn search_filter(results: &[AurPackage], refinements: &[String]) -> (r: SearchOutcome)
    ensures
        results@.len() == 0 <==> r is NothingFound,
        r matches SearchOutcome::Found(keep) ==> {
            &&& keep@.len() == results@.len()
            &&& forall|i: int| 0 <= i < results@.len() ==> #[trigger] keep@[i] == forall|j: int|
                0 <= j < refinements@.len() ==> package_matches(results@[i], #[trigger] refinements@[j]@)
        },
{
    if results.len() == 0 {
        return SearchOutcome::NothingFound;
    }
    let mut keep: Vec<bool> = Vec::new();
    let mut i: usize = 0;
    while i < results.len()
        invariant
            i <= results@.len(),
            keep@.len() == i,
            forall|k: int| 0 <= k < i ==> #[trigger] keep@[k] == forall|j: int|
                0 <= j < refinements@.len() ==> package_matches(results@[k], #[trigger] refinements@[j]@),
        decreases results@.len() - i,
    {
        let m = matches_all(&results[i], refinements);
        keep.push(m);
        i = i + 1;
    }
    SearchOutcome::Found(keep)
}


proof fn lemma_with_key_members(v: Seq<String>, k: int)
    ensures
        forall|i: int| 0 <= i < with_key(v, k).len() ==> v.contains(#[trigger] with_key(v, k)[i]) && keyword_key(with_key(v, k)[i]@) == k,
        forall|i: int| 0 <= i < v.len() && keyword_key(v[i]@) == k ==> with_key(v, k).contains(#[trigger] v[i]),
    decreases v.len(),
{
    reveal(Seq::filter);
    if v.len() > 0 {
        let w = v.drop_last();
        lemma_with_key_members(w, k);
        lemma_with_key_push(w, v.last(), k);
        assert(w.push(v.last()) =~= v);
        assert forall|i: int| 0 <= i < with_key(v, k).len() implies v.contains(#[trigger] with_key(v, k)[i]) && keyword_key(with_key(v, k)[i]@) == k by {
            if i < with_key(w, k).len() {
                assert(with_key(v, k)[i] == with_key(w, k)[i]);
                let j = choose|j: int| 0 <= j < w.len() && w[j] == with_key(w, k)[i];
                assert(v[j] == w[j]);
            } else {
                assert(with_key(v, k)[i] == v.last());
                assert(v[v.len() - 1] == v.last());
            }
        }
        assert forall|i: int| 0 <= i < v.len() && keyword_key(v[i]@) == k implies with_key(v, k).contains(#[trigger] v[i]) by {
            if i < v.len() - 1 {
                assert(v[i] == w[i]);
                let j = choose|j: int| 0 <= j < with_key(w, k).len() && with_key(w, k)[j] == w[i];
                assert(with_key(v, k)[j] == with_key(w, k)[j]);
            } else {
                assert(with_key(v, k)[with_key(v, k).len() - 1] == v.last());
            }
        }
    }
}

proof fn lemma_sorted_drop_last(a: Seq<String>)
    requires
        sorted_by_key(a),
        a.len() > 0,
    ensures
        sorted_by_key(a.drop_last()),
        forall|i: int| 0 <= i < a.len() ==> keyword_key(#[trigger] a[i]@) <= keyword_key(a.last()@),
{
    assert forall|i: int, j: int| 0 <= i < j < a.drop_last().len() implies keyword_key(#[trigger] a.drop_last()[i]@) <= keyword_key(#[trigger] a.drop_last()[j]@) by {
        assert(a.drop_last()[i] == a[i]);
        assert(a.drop_last()[j] == a[j]);
    }
    assert forall|i: int| 0 <= i < a.len() implies keyword_key(#[trigger] a[i]@) <= keyword_key(a.last()@) by {
        if i < a.len() - 1 {
            assert(keyword_key(a[i]@) <= keyword_key(a[a.len() - 1]@));
        }
    }
}

/// Law: a key-sorted order that keeps the order among keywords of equal key
/// is unique. Two sequences sorted by key, with the same keywords of each
/// key in the same order, are equal; so `sort_keywords` and `search_plan`
/// fix their result completely.
pub proof fn lemma_stable_key_sort_unique(a: Seq<String>, b: Seq<String>)
    requires
        sorted_by_key(a),
        sorted_by_key(b),
        forall|k: int| #[trigger] with_key(a, k) == with_key(b, k),
    ensures
        a == b,
    decreases a.len() + b.len(),
{
    if a.len() == 0 && b.len() == 0 {
        assert(a =~= b);
        return;
    }
    if a.len() == 0 || b.len() == 0 {
        let (full, empty) = if a.len() == 0 { (b, a) } else { (a, b) };
        let k = keyword_key(full[0]@);
        lemma_with_key_members(full, k);
        lemma_with_key_members(empty, k);
        assert(with_key(full, k).contains(full[0]));
        assert(with_key(full, k) == with_key(empty, k));
        let j = choose|j: int| 0 <= j < with_key(empty, k).len() && with_key(empty, k)[j] == full[0];
        assert(empty.contains(with_key(empty, k)[j]));
        assert(false);
    }
    lemma_sorted_drop_last(a);
    lemma_sorted_drop_last(b);
    let ka = keyword_key(a.last()@);
    let kb = keyword_key(b.last()@);
    lemma_with_key_members(a, ka);
    lemma_with_key_members(b, ka);
    lemma_with_key_members(a, kb);
    lemma_with_key_members(b, kb);
    assert(ka == kb) by {
        if ka < kb {
            assert(with_key(b, kb).contains(b[b.len() - 1]));
            let j = choose|j: int| 0 <= j < with_key(a, kb).len() && with_key(a, kb)[j] == b[b.len() - 1];
            assert(a.contains(with_key(a, kb)[j]));
            let m = choose|m: int| 0 <= m < a.len() && a[m] == with_key(a, kb)[j];
            assert(keyword_key(a[m]@) <= ka);
        } else if kb < ka {
            assert(with_key(a, ka).contains(a[a.len() - 1]));
            let j = choose|j: int| 0 <= j < with_key(b, ka).len() && with_key(b, ka)[j] == a[a.len() - 1];
            assert(b.contains(with_key(b, ka)[j]));
            let m = choose|m: int| 0 <= m < b.len() && b[m] == with_key(b, ka)[j];
            assert(keyword_key(b[m]@) <= kb);
        }
    }
    let a2 = a.drop_last();
    let b2 = b.drop_last();
    assert(a2.push(a.last()) =~= a);
    assert(b2.push(b.last()) =~= b);
    assert forall|k: int| #[trigger] with_key(a2, k) == with_key(b2, k) by {
        lemma_with_key_push(a2, a.last(), k);
        lemma_with_key_push(b2, b.last(), k);
        if k == ka {
            assert(with_key(a2, k) =~= with_key(a, k).drop_last());
            assert(with_key(b2, k) =~= with_key(b, k).drop_last());
        }
    }
    assert(a.last() == b.last()) by {
        lemma_with_key_push(a2, a.last(), ka);
        lemma_with_key_push(b2, b.last(), ka);
        assert(with_key(a, ka).last() == a.last());
        assert(with_key(b, ka).last() == b.last());
    }
    lemma_stable_key_sort_unique(a2, b2);
    assert(a =~= b);
}

/// Law: the query of a search is a longest keyword. When no keyword is
/// longer than `i16::MAX` bytes, the keyword that `search_plan` sends to the
/// AUR is at least as long, in bytes, as every keyword given.
pub proof fn lemma_query_is_longest(keywords: Seq<String>, query: String, refinements: Seq<String>)
    requires
        is_stable_key_sort(seq![query] + refinements, keywords),
        forall|i: int| 0 <= i < keywords.len() ==> utf8_len(#[trigger] keywords[i]@) <= 32767,
    ensures
        forall|i: int| 0 <= i < keywords.len() ==> utf8_len(#[trigger] keywords[i]@) <= utf8_len(query@),
{
    let out = seq![query] + refinements;
    assert(out[0] == query);
    let kq = keyword_key(query@);
    lemma_with_key_members(out, kq);
    lemma_with_key_members(keywords, kq);
    assert(with_key(out, kq).contains(out[0]));
    let jq = choose|j: int| 0 <= j < with_key(keywords, kq).len() && with_key(keywords, kq)[j] == query;
    assert(keywords.contains(with_key(keywords, kq)[jq]));
    let iq = choose|i: int| 0 <= i < keywords.len() && keywords[i] == with_key(keywords, kq)[jq];
    assert(utf8_len(keywords[iq]@) <= 32767);
    assert forall|i: int| 0 <= i < keywords.len() implies utf8_len(#[trigger] keywords[i]@) <= utf8_len(query@) by {
        let x = keywords[i];
        let kx = keyword_key(x@);
        lemma_with_key_members(keywords, kx);
        lemma_with_key_members(out, kx);
        assert(with_key(keywords, kx).contains(x));
        let j = choose|j: int| 0 <= j < with_key(out, kx).len() && with_key(out, kx)[j] == x;
        assert(out.contains(with_key(out, kx)[j]));
        let m = choose|m: int| 0 <= m < out.len() && out[m] == with_key(out, kx)[j];
        if m > 0 {
            assert(keyword_key(out[0]@) <= keyword_key(out[m]@));
        }
        let lx = utf8_len(x@);
        let lq = utf8_len(query@);
        assert(0 <= lx <= 32767 && 0 <= lq <= 32767);
        assert(length_key(lx) == if lx == 0 { 0 } else { -lx });
        assert(length_key(lq) == if lq == 0 { 0 } else { -lq });
    }
}


/// Law: a keyword matches a package exactly when its lowercase form occurs
/// somewhere in the lowercased name, or somewhere in the lowercased
/// description when there is one; wherever it occurs.
pub proof fn lemma_keyword_match_anywhere(pkg: AurPackage, keyword: Seq<char>, a: Seq<char>, c: Seq<char>)
    ensures
        lowercase(pkg.name@) == a + lowercase(keyword) + c ==> package_matches(pkg, keyword),
        (pkg.description matches Some(d) && lowercase(d@) == a + lowercase(keyword) + c) ==> package_matches(pkg, keyword),
        package_matches(pkg, keyword) ==> (exists|x: Seq<char>, y: Seq<char>| lowercase(pkg.name@) == x + lowercase(keyword) + y)
            || (pkg.description matches Some(d) && exists|x: Seq<char>, y: Seq<char>| lowercase(d@) == x + lowercase(keyword) + y),
{
    crate::text::lemma_contains_piece_anywhere(a, lowercase(keyword), c);
    let k = lowercase(keyword);
    if seq_contains_piece(lowercase(pkg.name@), k) {
        let h = lowercase(pkg.name@);
        let i = choose|i: int| 0 <= i && i + k.len() <= h.len() && #[trigger] h.subrange(i, i + k.len()) == k;
        assert(h.take(i) + k + h.skip(i + k.len()) =~= h);
    }
    if let Some(d) = pkg.description {
        if seq_contains_piece(lowercase(d@), k) {
            let h = lowercase(d@);
            let i = choose|i: int| 0 <= i && i + k.len() <= h.len() && #[trigger] h.subrange(i, i + k.len()) == k;
            assert(h.take(i) + k + h.skip(i + k.len()) =~= h);
        }
    }
}

} // verus!
