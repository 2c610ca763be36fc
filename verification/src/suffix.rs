//! Finding how long the common version suffix of built package archives is,
//! given the package names that may precede it.
use indexmap::IndexSet;
use vstd::prelude::*;
use vstd::string::StringSliceAdditionalSpecFns;
use vstd::utf8::decode_utf8;
use vstd::utf8::encode_utf8_decode_utf8;
use vstd::utf8::is_char_boundary;
use vstd::utf8::is_ascii_chars;

verus! {

#[verifier::external_type_specification]
#[verifier::external_body]
#[verifier::reject_recursive_types(T)]
#[verifier::reject_recursive_types(S)]
pub struct ExIndexSet<T, S>(IndexSet<T, S>);

/// The names that a whitelist holds, each by its characters.
pub uninterp spec fn whitelist_names(set: IndexSet<&str>) -> Set<Seq<char>>;

/// Calls `IndexSet::contains` with a `str`. The set compares its `&str`
/// elements to `name` with `str` equality (through `Equivalent`, which
/// `Borrow<str>` gives `&str`), so the answer is whether a whitelisted name
/// has exactly the characters of `name`.
#[verifier::external_body]
fn whitelist_contains(set: &IndexSet<&str>, name: &str) -> (r: bool)
    ensures
        r == whitelist_names(*set).contains(name@),
{
    set.contains(name)
}

/// Length of `name` in bytes (its UTF-8 encoding).
pub open spec fn byte_len(name: &str) -> int {
    name.spec_bytes().len() as int
}

/// Cutting `cut` bytes from the end of `name` stops on a character boundary.
pub open spec fn cut_on_boundary(name: &str, cut: int) -> bool {
    is_char_boundary(name.spec_bytes(), byte_len(name) - cut)
}

/// Cutting `cut` bytes from the end of `name` stops on a character boundary
/// and leaves a prefix that the whitelist holds.
pub open spec fn cut_leaves_listed(listed: Set<Seq<char>>, name: &str, cut: int) -> bool {
    &&& cut_on_boundary(name, cut)
    &&& listed.contains(decode_utf8(name.spec_bytes().subrange(0, byte_len(name) - cut)))
}

/// The smallest byte length among `names`, and 0 for no names.
pub open spec fn min_byte_len(names: Seq<&str>) -> int
    decreases names.len(),
{
    if names.len() == 0 {
        0
    } else if names.len() == 1 {
        byte_len(names[0])
    } else {
        let rest = min_byte_len(names.drop_last());
        if byte_len(names.last()) < rest {
            byte_len(names.last())
        } else {
            rest
        }
    }
}

/// The scan over cut lengths (outer, from 0) and names (inner, in order)
/// never meets a cut that splits a character before it meets a whitelisted
/// prefix: each cut that splits a character comes after one that hits.
pub open spec fn scan_stays_on_boundaries(listed: Set<Seq<char>>, names: Seq<&str>) -> bool {
    forall|cut: int, i: int|
        0 <= cut < min_byte_len(names) && 0 <= i < names.len() && !#[trigger] cut_on_boundary(
            names[i],
            cut,
        ) ==> exists|cut2: int, i2: int|
            0 <= cut2 && 0 <= i2 < names.len() && (cut2 < cut || (cut2 == cut && i2 < i))
                && #[trigger] cut_leaves_listed(listed, names[i2], cut2)
}

proof fn lemma_min_byte_len(names: Seq<&str>)
    ensures
        0 <= min_byte_len(names),
        forall|i: int| 0 <= i < names.len() ==> min_byte_len(names) <= byte_len(#[trigger] names[i]),
        names.len() > 0 ==> exists|i: int| 0 <= i < names.len() && min_byte_len(names) == byte_len(#[trigger] names[i]),
    decreases names.len(),
{
    if names.len() == 1 {
        assert(min_byte_len(names) == byte_len(names[0]));
    } else if names.len() > 1 {
        lemma_min_byte_len(names.drop_last());
        assert forall|i: int| 0 <= i < names.len() implies min_byte_len(names) <= byte_len(#[trigger] names[i]) by {
            if i < names.len() - 1 {
                assert(names[i] == names.drop_last()[i]);
            }
        }
        if byte_len(names.last()) >= min_byte_len(names.drop_last()) {
            let k = choose|k: int| 0 <= k < names.drop_last().len() && min_byte_len(names.drop_last()) == byte_len(#[trigger] names.drop_last()[k]);
            assert(names[k] == names.drop_last()[k]);
        } else {
            assert(min_byte_len(names) == byte_len(names[names.len() - 1]));
        }
    }
}

/// Smallest byte length of `pkg_names`, 0 when there are none.
fn min_name_len(pkg_names: &[&str]) -> (m: usize)
    ensures
        m == min_byte_len(pkg_names@),
{
    if pkg_names.len() == 0 {
        return 0;
    }
    let mut m: usize = pkg_names[0].as_bytes().len();
    let mut i: usize = 1;
    assert(pkg_names@.take(1)[0] == pkg_names@[0]);
    while i < pkg_names.len()
        invariant
            1 <= i <= pkg_names@.len(),
            m == min_byte_len(pkg_names@.take(i as int)),
        decreases pkg_names@.len() - i,
    {
        let l = pkg_names[i].as_bytes().len();
        assert(pkg_names@.take(i + 1).drop_last() =~= pkg_names@.take(i as int));
        assert(pkg_names@.take(i + 1).last() == pkg_names@[i as int]);
        if l < m {
            m = l;
        }
        i = i + 1;
    }
    assert(pkg_names@.take(i as int) =~= pkg_names@);
    m
}

/// The suffix length that the scan finds: the least cut below the shortest
/// name's byte length that leaves a whitelisted prefix of some name, or the
/// shortest length (0 for no names) when there is none.
pub open spec fn suffix_length_found(listed: Set<Seq<char>>, names: Seq<&str>, r: int) -> bool {
    &&& 0 <= r <= min_byte_len(names)
    &&& forall|cut: int, i: int|
        0 <= cut < r && 0 <= i < names.len() ==> !#[trigger] cut_leaves_listed(listed, names[i], cut)
    &&& r < min_byte_len(names) ==> exists|i: int|
        0 <= i < names.len() && #[trigger] cut_leaves_listed(listed, names[i], r)
}

/// Like `common_suffix_length`, but checks each cut first: gives nothing
/// when the scan would reach a cut inside a multi-byte character, which is
/// where `common_suffix_length` panics.
pub fn common_suffix_length_checked(pkg_names: &[&str], archive_whitelist: &IndexSet<&str>) -> (r: Option<usize>)
    ensures
        r is None <==> !scan_stays_on_boundaries(whitelist_names(*archive_whitelist), pkg_names@),
        r matches Some(len) ==> suffix_length_found(whitelist_names(*archive_whitelist), pkg_names@, len as int),
{
    let ghost listed = whitelist_names(*archive_whitelist);
    let ghost names = pkg_names@;
    proof {
        lemma_min_byte_len(names);
    }
    let min_len = min_name_len(pkg_names);
    let mut suffix_length: usize = 0;
    while suffix_length < min_len
        invariant
            names == pkg_names@,
            listed == whitelist_names(*archive_whitelist),
            min_len == min_byte_len(names),
            suffix_length <= min_len,
            forall|i: int| 0 <= i < names.len() ==> min_len <= byte_len(#[trigger] names[i]),
            forall|cut: int, i: int|
                0 <= cut < suffix_length && 0 <= i < names.len() ==> !#[trigger] cut_leaves_listed(
                    listed,
                    names[i],
                    cut,
                ),
            forall|cut: int, i: int|
                0 <= cut < suffix_length && 0 <= i < names.len() ==> #[trigger] cut_on_boundary(
                    names[i],
                    cut,
                ),
        decreases min_len - suffix_length,
    {
        let mut i: usize = 0;
        while i < pkg_names.len()
            invariant
                names == pkg_names@,
                listed == whitelist_names(*archive_whitelist),
                min_len == min_byte_len(names),
                suffix_length < min_len,
                i <= names.len(),
                forall|i: int| 0 <= i < names.len() ==> min_len <= byte_len(#[trigger] names[i]),
                forall|cut: int, j: int|
                    0 <= cut < suffix_length && 0 <= j < names.len() ==> !#[trigger] cut_leaves_listed(
                        listed,
                        names[j],
                        cut,
                    ),
                forall|cut: int, j: int|
                    0 <= cut < suffix_length && 0 <= j < names.len() ==> #[trigger] cut_on_boundary(
                        names[j],
                        cut,
                    ),
                forall|j: int| 0 <= j < i ==> !#[trigger] cut_leaves_listed(listed, names[j], suffix_length as int),
                forall|j: int| 0 <= j < i ==> #[trigger] cut_on_boundary(names[j], suffix_length as int),
            decreases names.len() - i,
        {
            let pkg: &str = pkg_names[i];
            assert(min_len <= byte_len(names[i as int]));
            let suffix_start: usize = pkg.as_bytes().len() - suffix_length;
            if !pkg.is_char_boundary(suffix_start) {
                assert(!scan_stays_on_boundaries(listed, names)) by {
                    if scan_stays_on_boundaries(listed, names) {
                        assert(!cut_on_boundary(names[i as int], suffix_length as int));
                        let (c2, i2) = choose|cut2: int, i2: int|
                            0 <= cut2 && 0 <= i2 < names.len() && (cut2 < suffix_length || (cut2 == suffix_length && i2 < i))
                                && #[trigger] cut_leaves_listed(listed, names[i2], cut2);
                        assert(cut_leaves_listed(listed, names[i2], c2));
                    }
                }
                return None;
            }
            let (prefix, _rest) = pkg.split_at(suffix_start);
            proof {
                encode_utf8_decode_utf8(prefix@);
                assert(prefix@ == decode_utf8(pkg.spec_bytes().subrange(0, suffix_start as int)));
            }
            if whitelist_contains(archive_whitelist, prefix) {
                assert(cut_leaves_listed(listed, names[i as int], suffix_length as int));
                assert(scan_stays_on_boundaries(listed, names)) by {
                    assert forall|cut: int, k: int|
                        0 <= cut < min_byte_len(names) && 0 <= k < names.len() && !#[trigger] cut_on_boundary(names[k], cut)
                        implies exists|cut2: int, i2: int|
                            0 <= cut2 && 0 <= i2 < names.len() && (cut2 < cut || (cut2 == cut && i2 < k))
                                && #[trigger] cut_leaves_listed(listed, names[i2], cut2) by {
                        assert(cut_leaves_listed(listed, names[i as int], suffix_length as int));
                    }
                }
                return Some(suffix_length);
            }
            i = i + 1;
        }
        suffix_length = suffix_length + 1;
    }
    assert(scan_stays_on_boundaries(listed, names)) by {
        assert forall|cut: int, k: int|
            0 <= cut < min_byte_len(names) && 0 <= k < names.len() && !#[trigger] cut_on_boundary(names[k], cut)
            implies exists|cut2: int, i2: int|
                0 <= cut2 && 0 <= i2 < names.len() && (cut2 < cut || (cut2 == cut && i2 < k))
                    && #[trigger] cut_leaves_listed(listed, names[i2], cut2) by {
            assert(cut_on_boundary(names[k], cut));
        }
    }
    Some(min_len)
}

/// Length of the longest suffix that all built archives share after their
/// package names: the smallest number of trailing bytes which, cut from one
/// of `pkg_names` (tried in order for each length, shortest first), leaves a
/// name that `archive_whitelist` holds. When no such cut shorter than the
/// shortest name exists, the length of the shortest name (0 for no names).
///
/// Cutting inside a multi-byte character would panic, so the scan must never
/// reach such a cut before its answer.
pub fn common_suffix_length(pkg_names: &[&str], archive_whitelist: &IndexSet<&str>) -> (r: usize)
    requires
        scan_stays_on_boundaries(whitelist_names(*archive_whitelist), pkg_names@),
    ensures
        suffix_length_found(whitelist_names(*archive_whitelist), pkg_names@, r as int),
{
    match common_suffix_length_checked(pkg_names, archive_whitelist) {
        Some(r) => r,
        None => vstd::pervasive::unreached(),
    }
}

/// Law: for names in ASCII, every cut lies on a character boundary, so
/// `common_suffix_length` accepts them whatever the whitelist.
pub proof fn lemma_ascii_names_scan_safely(listed: Set<Seq<char>>, names: Seq<&str>)
    requires
        forall|i: int| 0 <= i < names.len() ==> is_ascii_chars(#[trigger] names[i]@),
    ensures
        scan_stays_on_boundaries(listed, names),
{
    broadcast use vstd::utf8::is_ascii_chars_encode_utf8;
    broadcast use vstd::utf8::encode_utf8_valid_utf8;
    broadcast use vstd::utf8::is_char_boundary_start_end_of_seq;
    lemma_min_byte_len(names);
    assert forall|cut: int, i: int| 0 <= cut < min_byte_len(names) && 0 <= i < names.len() implies #[trigger] cut_on_boundary(names[i], cut) by {
        let name = names[i];
        let bytes = name.spec_bytes();
        assert(is_ascii_chars(name@));
        assert(bytes.len() == name@.len());
        let at = bytes.len() - cut;
        if at < bytes.len() {
            vstd::utf8::is_char_boundary_iff_not_is_continuation_byte(bytes, at);
            assert(bytes[at] == name@[at] as u8);
        }
    }
}

} // verus!
