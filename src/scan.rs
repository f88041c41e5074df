use vstd::prelude::*;
use vstd::utf8::encode_utf8;
use crate::extension::{extension_matches, has_extension};

verus! {

/// The archive entry `name` has the extension `ext` (compared on UTF-8 bytes, ignoring
/// ASCII case).
pub open spec fn name_has_ext(name: Seq<char>, ext: Seq<char>) -> bool {
    extension_matches(encode_utf8(name), encode_utf8(ext))
}

/// The entry `name` has one of the extensions of the allowlist.
pub open spec fn is_candidate(name: Seq<char>, allowlist: Seq<Seq<char>>) -> bool {
    exists|i: int| 0 <= i < allowlist.len() && name_has_ext(name, #[trigger] allowlist[i])
}

/// The entries that match the allowlist, in archive order.
pub open spec fn candidates(names: Seq<Seq<char>>, allowlist: Seq<Seq<char>>) -> Seq<Seq<char>> {
    names.filter(matches_any(allowlist))
}

pub open spec fn matches_any(allowlist: Seq<Seq<char>>) -> spec_fn(Seq<char>) -> bool {
    |n: Seq<char>| is_candidate(n, allowlist)
}

pub open spec fn has_ext(ext: Seq<char>) -> spec_fn(Seq<char>) -> bool {
    |n: Seq<char>| name_has_ext(n, ext)
}

pub open spec fn occurs_once_in(names: Seq<Seq<char>>) -> spec_fn(Seq<char>) -> bool {
    |e: Seq<char>| occurrences(names, e) == 1
}

/// The entries of the whole archive that have the extension `ext`, in archive order.
pub open spec fn with_ext(names: Seq<Seq<char>>, ext: Seq<char>) -> Seq<Seq<char>> {
    names.filter(has_ext(ext))
}

/// How many entries of the whole archive have the extension `ext`.
pub open spec fn occurrences(names: Seq<Seq<char>>, ext: Seq<char>) -> nat {
    with_ext(names, ext).len()
}

/// The allowlist extensions that occur exactly once in the archive, in allowlist order.
pub open spec fn singly_occurring(names: Seq<Seq<char>>, allowlist: Seq<Seq<char>>) -> Seq<Seq<char>> {
    allowlist.filter(occurs_once_in(names))
}

/// Filtering a prefix one element longer adds that element exactly when it satisfies
/// the predicate.
pub proof fn lemma_filter_step<A>(s: Seq<A>, pred: spec_fn(A) -> bool, i: int)
    requires
        0 <= i < s.len(),
    ensures
        s.subrange(0, i + 1).filter(pred) == if pred(s[i]) {
            s.subrange(0, i).filter(pred).push(s[i])
        } else {
            s.subrange(0, i).filter(pred)
        },
{
    reveal(Seq::filter);
    assert(s.subrange(0, i + 1).drop_last() =~= s.subrange(0, i));
}

/// Decides whether `name` has the extension `ext`, ignoring ASCII case.
pub fn name_matches_ext(name: &String, ext: &String) -> (r: bool)
    ensures
        r == name_has_ext(name@, ext@),
{
    has_extension(name.as_str().as_bytes(), ext.as_str().as_bytes())
}

/// Decides whether the entry `name` has one of the allowlist's extensions.
pub fn matches_allowlist(name: &String, allowlist: &Vec<String>) -> (r: bool)
    ensures
        r == is_candidate(name@, allowlist.deep_view()),
{
    let ghost allow = allowlist.deep_view();
    let mut i: usize = 0;
    while i < allowlist.len()
        invariant
            i <= allowlist@.len(),
            allow == allowlist.deep_view(),
            forall|j: int| 0 <= j < i ==> !name_has_ext(name@, #[trigger] allow[j]),
        decreases allowlist@.len() - i,
    {
        if name_matches_ext(name, &allowlist[i]) {
            assert(name_has_ext(name@, allow[i as int]));
            return true;
        }
        i = i + 1;
    }
    false
}

/// The entries of the archive that match the allowlist, in archive order.
pub fn identify_files(names: &Vec<String>, allowlist: &Vec<String>) -> (r: Vec<String>)
    ensures
        r.deep_view() == candidates(names.deep_view(), allowlist.deep_view()),
{
    let ghost ns = names.deep_view();
    let ghost allow = allowlist.deep_view();
    let ghost pred = matches_any(allow);
    let mut r: Vec<String> = Vec::new();
    let mut i: usize = 0;
    while i < names.len()
        invariant
            i <= names@.len(),
            ns == names.deep_view(),
            allow == allowlist.deep_view(),
            pred == matches_any(allow),
            r.deep_view() == ns.subrange(0, i as int).filter(pred),
        decreases names@.len() - i,
    {
        proof {
            lemma_filter_step(ns, pred, i as int);
        }
        if matches_allowlist(&names[i], allowlist) {
            r.push(names[i].clone());
            assert(r.deep_view() =~= ns.subrange(0, i + 1).filter(pred));
        } else {
            assert(r.deep_view() =~= ns.subrange(0, i + 1).filter(pred));
        }
        i = i + 1;
    }
    assert(ns.subrange(0, i as int) =~= ns);
    r
}

/// How many entries of the archive have the extension `ext`.
pub fn count_occurrences(names: &Vec<String>, ext: &String) -> (r: usize)
    ensures
        r == occurrences(names.deep_view(), ext@),
{
    let ghost ns = names.deep_view();
    let ghost pred = has_ext(ext@);
    let mut count: usize = 0;
    let mut i: usize = 0;
    while i < names.len()
        invariant
            i <= names@.len(),
            ns == names.deep_view(),
            pred == has_ext(ext@),
            count == ns.subrange(0, i as int).filter(pred).len(),
            count <= i,
        decreases names@.len() - i,
    {
        proof {
            lemma_filter_step(ns, pred, i as int);
        }
        if name_matches_ext(&names[i], ext) {
            count = count + 1;
        }
        i = i + 1;
    }
    assert(ns.subrange(0, i as int) =~= ns);
    count
}

/// For each allowlist extension, in allowlist order, how many entries of the whole
/// archive have it.
pub fn occurrence_counts(names: &Vec<String>, allowlist: &Vec<String>) -> (r: Vec<usize>)
    ensures
        r@.len() == allowlist@.len(),
        forall|i: int|
            0 <= i < r@.len() ==> #[trigger] r@[i] == occurrences(
                names.deep_view(),
                allowlist.deep_view()[i],
            ),
{
    let mut r: Vec<usize> = Vec::new();
    let mut i: usize = 0;
    while i < allowlist.len()
        invariant
            i <= allowlist@.len(),
            r@.len() == i,
            forall|j: int|
                0 <= j < i ==> #[trigger] r@[j] == occurrences(
                    names.deep_view(),
                    allowlist.deep_view()[j],
                ),
        decreases allowlist@.len() - i,
    {
        let c = count_occurrences(names, &allowlist[i]);
        r.push(c);
        i = i + 1;
    }
    r
}

} // verus!
