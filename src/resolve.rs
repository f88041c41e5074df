use vstd::prelude::*;
use crate::scan::{
    candidates, has_ext, identify_files, is_candidate, matches_any, occurs_once_in, lemma_filter_step, name_has_ext, name_matches_ext,
    occurrence_counts, occurrences, singly_occurring, with_ext,
};

verus! {

/// How the installer inside an archive was settled.
pub enum Resolution {
    /// Exactly one allowlist extension occurs exactly once: its entry was picked.
    AutoResolved(String),
    /// The caller named an entry that the archive holds.
    ExplicitResolved(String),
    /// The caller named an entry that the archive does not hold; the path is kept
    /// as given, and nothing is analysed.
    ExplicitMissing(String),
    /// Nothing could be settled: the matching entries, in archive order, wait for a
    /// choice.
    Pending(Vec<String>),
}

/// The mathematical value of a [`Resolution`].
pub enum Outcome {
    AutoResolved(Seq<char>),
    ExplicitResolved(Seq<char>),
    ExplicitMissing(Seq<char>),
    Pending(Seq<Seq<char>>),
}

impl View for Resolution {
    type V = Outcome;

    open spec fn view(&self) -> Outcome {
        match self {
            Resolution::AutoResolved(n) => Outcome::AutoResolved(n@),
            Resolution::ExplicitResolved(n) => Outcome::ExplicitResolved(n@),
            Resolution::ExplicitMissing(n) => Outcome::ExplicitMissing(n@),
            Resolution::Pending(v) => Outcome::Pending(v.deep_view()),
        }
    }
}

/// The heuristic applies: exactly one allowlist extension occurs exactly once in the
/// whole archive.
pub open spec fn auto_applies(names: Seq<Seq<char>>, allowlist: Seq<Seq<char>>) -> bool {
    singly_occurring(names, allowlist).len() == 1
}

/// The entry that the heuristic picks: the one entry bearing the extension that
/// occurs once.
pub open spec fn auto_pick(names: Seq<Seq<char>>, allowlist: Seq<Seq<char>>) -> Seq<char> {
    with_ext(names, singly_occurring(names, allowlist)[0])[0]
}

/// The outcome of resolving an archive with entries `names` against `allowlist`,
/// with an optional path named by the caller. A named path always decides; without
/// one, the heuristic decides when it applies; otherwise every matching entry waits.
pub open spec fn resolution_of(
    names: Seq<Seq<char>>,
    allowlist: Seq<Seq<char>>,
    path: Option<Seq<char>>,
) -> Outcome {
    match path {
        Some(p) => if names.contains(p) {
            Outcome::ExplicitResolved(p)
        } else {
            Outcome::ExplicitMissing(p)
        },
        None => if auto_applies(names, allowlist) {
            Outcome::AutoResolved(auto_pick(names, allowlist))
        } else {
            Outcome::Pending(candidates(names, allowlist))
        },
    }
}

pub open spec fn path_view(path: Option<&str>) -> Option<Seq<char>> {
    match path {
        Some(p) => Some(p@),
        None => None,
    }
}

impl Resolution {
    /// The entry to extract and analyse, if any: only an entry that was picked by the
    /// heuristic or named and found.
    pub fn analysis_target(&self) -> (r: Option<&String>)
        ensures
            match self@ {
                Outcome::AutoResolved(n) => r matches Some(t) && t@ == n,
                Outcome::ExplicitResolved(n) => r matches Some(t) && t@ == n,
                _ => r is None,
            },
    {
        match self {
            Resolution::AutoResolved(n) => Some(n),
            Resolution::ExplicitResolved(n) => Some(n),
            _ => None,
        }
    }
}

/// Decides whether the archive holds an entry named exactly `path`.
pub fn contains_name(names: &Vec<String>, path: &String) -> (r: bool)
    ensures
        r == names.deep_view().contains(path@),
{
    let ghost ns = names.deep_view();
    let mut i: usize = 0;
    while i < names.len()
        invariant
            i <= names@.len(),
            ns == names.deep_view(),
            forall|j: int| 0 <= j < i ==> ns[j] != path@,
        decreases names@.len() - i,
    {
        if names[i] == *path {
            assert(ns[i as int] == path@);
            return true;
        }
        i = i + 1;
    }
    false
}

/// The index of the one allowlist extension whose count is one, when there is exactly
/// one such extension.
fn single_extension(
    names: &Vec<String>,
    allowlist: &Vec<String>,
    counts: &Vec<usize>,
) -> (r: Option<usize>)
    requires
        counts@.len() == allowlist@.len(),
        forall|i: int|
            0 <= i < counts@.len() ==> #[trigger] counts@[i] == occurrences(
                names.deep_view(),
                allowlist.deep_view()[i],
            ),
    ensures
        match r {
            Some(i) => auto_applies(names.deep_view(), allowlist.deep_view()) && i
                < allowlist@.len() && allowlist.deep_view()[i as int] == singly_occurring(
                names.deep_view(),
                allowlist.deep_view(),
            )[0],
            None => !auto_applies(names.deep_view(), allowlist.deep_view()),
        },
{
    let ghost ns = names.deep_view();
    let ghost allow = allowlist.deep_view();
    let ghost pred = occurs_once_in(ns);
    let mut ones: usize = 0;
    let mut first: usize = 0;
    let mut i: usize = 0;
    while i < counts.len()
        invariant
            i <= counts@.len(),
            counts@.len() == allowlist@.len(),
            ns == names.deep_view(),
            allow == allowlist.deep_view(),
            forall|j: int| 0 <= j < counts@.len() ==> #[trigger] counts@[j] == occurrences(ns, allow[j]),
            pred == occurs_once_in(ns),
            ones == allow.subrange(0, i as int).filter(pred).len(),
            ones <= i,
            ones > 0 ==> first < i && allow[first as int] == allow.subrange(0, i as int).filter(pred)[0],
        decreases counts@.len() - i,
    {
        proof {
            lemma_filter_step(allow, pred, i as int);
        }
        if counts[i] == 1 {
            if ones == 0 {
                first = i;
            }
            ones = ones + 1;
        }
        i = i + 1;
    }
    assert(allow.subrange(0, i as int) =~= allow);
    if ones == 1 {
        Some(first)
    } else {
        None
    }
}

/// The first entry of the archive with the extension `ext`.
fn first_with_ext(names: &Vec<String>, ext: &String) -> (r: String)
    requires
        occurrences(names.deep_view(), ext@) > 0,
    ensures
        r@ == with_ext(names.deep_view(), ext@)[0],
{
    let ghost ns = names.deep_view();
    let ghost pred = has_ext(ext@);
    let mut i: usize = 0;
    while i < names.len()
        invariant
            i <= names@.len(),
            ns == names.deep_view(),
            pred == has_ext(ext@),
            ns.subrange(0, i as int).filter(pred).len() == 0,
            ns.filter(pred).len() > 0,
        decreases names@.len() - i,
    {
        proof {
            lemma_filter_step(ns, pred, i as int);
        }
        if name_matches_ext(&names[i], ext) {
            proof {
                lemma_filter_first(ns, pred, i as int);
            }
            return names[i].clone();
        }
        i = i + 1;
    }
    assert(ns.subrange(0, i as int) =~= ns);
    names[0].clone()
}

/// When no element before index `i` satisfies the predicate and `s[i]` does, `s[i]`
/// comes first in the filtered sequence.
proof fn lemma_filter_first<A>(s: Seq<A>, pred: spec_fn(A) -> bool, i: int)
    requires
        0 <= i < s.len(),
        pred(s[i]),
        s.subrange(0, i).filter(pred).len() == 0,
    ensures
        s.filter(pred).len() > 0,
        s.filter(pred)[0] == s[i],
    decreases s.len(),
{
    reveal(Seq::filter);
    if s.len() == i + 1 {
        assert(s.drop_last() =~= s.subrange(0, i));
    } else {
        assert(s.drop_last().subrange(0, i) =~= s.subrange(0, i));
        lemma_filter_first(s.drop_last(), pred, i);
    }
}

/// Settles which entry of an archive with entries `names` holds the installer.
pub fn resolve(
    names: &Vec<String>,
    allowlist: &Vec<String>,
    relative_file_path: Option<&str>,
) -> (r: Resolution)
    ensures
        r@ == resolution_of(names.deep_view(), allowlist.deep_view(), path_view(relative_file_path)),
{
    if let Some(path) = relative_file_path {
        let path = path.to_owned();
        if contains_name(names, &path) {
            return Resolution::ExplicitResolved(path);
        } else {
            return Resolution::ExplicitMissing(path);
        }
    }
    let counts = occurrence_counts(names, allowlist);
    match single_extension(names, allowlist, &counts) {
        Some(i) => {
            let chosen = first_with_ext(names, &allowlist[i]);
            Resolution::AutoResolved(chosen)
        },
        None => Resolution::Pending(identify_files(names, allowlist)),
    }
}

/// When exactly one allowlist extension occurs exactly once and no path is named, the
/// archive resolves automatically to the one entry bearing that extension, and that
/// entry, alone, is analysed.
pub proof fn lemma_unique_extension_auto_resolves(names: Seq<Seq<char>>, allowlist: Seq<Seq<char>>)
    requires
        auto_applies(names, allowlist),
    ensures
        ({
            let e = singly_occurring(names, allowlist)[0];
            let p = auto_pick(names, allowlist);
            &&& resolution_of(names, allowlist, None) == Outcome::AutoResolved(p)
            &&& allowlist.contains(e)
            &&& names.contains(p)
            &&& name_has_ext(p, e)
            &&& forall|n: Seq<char>| names.contains(n) && name_has_ext(n, e) ==> n == p
        }),
{
    let pred = occurs_once_in(names);
    let e = singly_occurring(names, allowlist)[0];
    allowlist.lemma_filter_pred(pred, 0);
    assert(allowlist.filter(pred).contains(e));
    allowlist.lemma_filter_contains_rev(pred, e);
    let pe = has_ext(e);
    let p = auto_pick(names, allowlist);
    names.lemma_filter_pred(pe, 0);
    assert(names.filter(pe).contains(p));
    names.lemma_filter_contains_rev(pe, p);
    assert forall|n: Seq<char>| names.contains(n) && name_has_ext(n, e) implies n == p by {
        let k = choose|k: int| 0 <= k < names.len() && names[k] == n;
        names.lemma_filter_contains(pe, k);
    }
}

/// A named path that the archive holds always resolves to that entry, whatever the
/// extension counts are.
pub proof fn lemma_explicit_path_resolves(
    names: Seq<Seq<char>>,
    allowlist: Seq<Seq<char>>,
    path: Seq<char>,
)
    requires
        names.contains(path),
    ensures
        resolution_of(names, allowlist, Some(path)) == Outcome::ExplicitResolved(path),
{
}

/// A named path that the archive does not hold is kept as given, with nothing to
/// analyse.
pub proof fn lemma_missing_path_kept(names: Seq<Seq<char>>, allowlist: Seq<Seq<char>>, path: Seq<char>)
    requires
        !names.contains(path),
    ensures
        resolution_of(names, allowlist, Some(path)) == Outcome::ExplicitMissing(path),
{
}

/// Without a named path and without a unique extension, every matching entry waits,
/// in archive order.
pub proof fn lemma_otherwise_pending(names: Seq<Seq<char>>, allowlist: Seq<Seq<char>>)
    requires
        !auto_applies(names, allowlist),
    ensures
        resolution_of(names, allowlist, None) == Outcome::Pending(candidates(names, allowlist)),
        forall|i: int|
            0 <= i < candidates(names, allowlist).len() ==> names.contains(
                #[trigger] candidates(names, allowlist)[i],
            ) && is_candidate(candidates(names, allowlist)[i], allowlist),
{
    let pred = matches_any(allowlist);
    assert forall|i: int| 0 <= i < candidates(names, allowlist).len() implies names.contains(
        #[trigger] candidates(names, allowlist)[i],
    ) && is_candidate(candidates(names, allowlist)[i], allowlist) by {
        names.lemma_filter_pred(pred, i);
        assert(names.filter(pred).contains(candidates(names, allowlist)[i]));
        names.lemma_filter_contains_rev(pred, candidates(names, allowlist)[i]);
    }
}

/// Every path that a resolution yields is an entry name of the archive as it stands,
/// or the path named by the caller, unchanged.
pub proof fn lemma_paths_are_entry_names(
    names: Seq<Seq<char>>,
    allowlist: Seq<Seq<char>>,
    path: Option<Seq<char>>,
)
    ensures
        match resolution_of(names, allowlist, path) {
            Outcome::AutoResolved(n) => names.contains(n),
            Outcome::ExplicitResolved(n) => path == Some(n) && names.contains(n),
            Outcome::ExplicitMissing(n) => path == Some(n),
            Outcome::Pending(c) => forall|i: int| 0 <= i < c.len() ==> names.contains(#[trigger] c[i]),
        },
{
    if path is None {
        if auto_applies(names, allowlist) {
            lemma_unique_extension_auto_resolves(names, allowlist);
        } else {
            lemma_otherwise_pending(names, allowlist);
        }
    }
}

} // verus!
