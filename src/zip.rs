use vstd::prelude::*;
use crate::installer::{nested_of, Architecture, FileAnalysis, NestedInstallerType};
use crate::order::{lemma_bytes_lt_transitive, lemma_path_lt_total, path_less, path_lt};
use crate::resolve::{Outcome, Resolution};

verus! {

/// An installer inside an archive, named by its path there.
pub struct NestedInstallerFiles {
    pub relative_file_path: String,
    pub portable_command_alias: Option<String>,
}

/// The paths of a sequence of records.
pub open spec fn record_paths(v: Seq<NestedInstallerFiles>) -> Seq<Seq<char>> {
    v.map_values(|r: NestedInstallerFiles| r.relative_file_path@)
}

/// Records strictly ordered by path, hence with no path twice.
pub open spec fn records_ordered(v: Seq<NestedInstallerFiles>) -> bool {
    forall|i: int, j: int|
        0 <= i < j < v.len() ==> path_lt(
            #[trigger] v[i].relative_file_path@,
            #[trigger] v[j].relative_file_path@,
        )
}

/// No record has an alias yet.
pub open spec fn aliases_absent(v: Seq<NestedInstallerFiles>) -> bool {
    forall|i: int| 0 <= i < v.len() ==> (#[trigger] v[i]).portable_command_alias is None
}

/// A well-formed set of records.
pub open spec fn records_valid(v: Seq<NestedInstallerFiles>) -> bool {
    records_ordered(v) && aliases_absent(v)
}

/// Some record of `v` has the path `p`.
pub open spec fn holds_path(v: Seq<NestedInstallerFiles>, p: Seq<char>) -> bool {
    exists|i: int| 0 <= i < v.len() && (#[trigger] v[i]).relative_file_path@ == p
}

/// The records of `v` are exactly those with the paths of `s`, each once.
pub open spec fn records_of_paths(v: Seq<NestedInstallerFiles>, s: Seq<Seq<char>>) -> bool {
    &&& records_valid(v)
    &&& forall|p: Seq<char>| #[trigger] holds_path(v, p) <==> s.contains(p)
}

/// Adds a record for `path` to an ordered set of records, unless one is there.
fn insert_record(v: &mut Vec<NestedInstallerFiles>, path: String)
    requires
        records_valid(old(v)@),
    ensures
        records_valid(final(v)@),
        forall|p: Seq<char>| #[trigger] holds_path(final(v)@, p) <==> holds_path(old(v)@, p) || p == path@,
{
    let mut k: usize = 0;
    while k < v.len() && path_less(&v[k].relative_file_path, &path)
        invariant
            k <= v@.len(),
            forall|j: int| 0 <= j < k ==> path_lt(#[trigger] v@[j].relative_file_path@, path@),
        decreases v@.len() - k,
    {
        k = k + 1;
    }
    if k < v.len() && v[k].relative_file_path == path {
        return;
    }
    let ghost o = v@;
    if k < v.len() {
        proof {
            lemma_path_lt_total(path@, o[k as int].relative_file_path@);
        }
    }
    let rec = NestedInstallerFiles { relative_file_path: path, portable_command_alias: None };
    v.insert(k, rec);
    let ghost n = v@;
    assert(n =~= o.insert(k as int, rec));
    assert forall|i: int, j: int| 0 <= i < j < n.len() implies path_lt(
        #[trigger] n[i].relative_file_path@,
        #[trigger] n[j].relative_file_path@,
    ) by {
        if j > k {
            assert(n[j] == o[j - 1]);
            if j - 1 > k {
                assert(path_lt(o[k as int].relative_file_path@, o[j - 1].relative_file_path@));
            }
            if i < k {
                assert(n[i] == o[i]);
            } else if i == k {
                if j - 1 > k {
                    lemma_bytes_lt_transitive(
                        vstd::utf8::encode_utf8(rec.relative_file_path@),
                        vstd::utf8::encode_utf8(o[k as int].relative_file_path@),
                        vstd::utf8::encode_utf8(o[j - 1].relative_file_path@),
                    );
                }
            } else {
                assert(n[i] == o[i - 1]);
            }
        } else if j == k {
            assert(n[i] == o[i]);
        } else {
            assert(n[i] == o[i]);
            assert(n[j] == o[j]);
        }
    }
    assert forall|p: Seq<char>| #[trigger] holds_path(n, p) <==> holds_path(o, p) || p == path@ by {
        if holds_path(n, p) {
            let i = choose|i: int| 0 <= i < n.len() && (#[trigger] n[i]).relative_file_path@ == p;
            if i < k {
                assert(n[i] == o[i]);
            } else if i > k {
                assert(n[i] == o[i - 1]);
            }
        }
        if holds_path(o, p) {
            let i = choose|i: int| 0 <= i < o.len() && (#[trigger] o[i]).relative_file_path@ == p;
            if i < k {
                assert(n[i] == o[i]);
            } else {
                assert(n[i + 1] == o[i]);
            }
        }
        if p == path@ {
            assert(n[k as int] == rec);
        }
    }
}

/// The ordered set of records for the chosen paths, none with an alias.
pub fn records_from_paths(chosen: &Vec<String>) -> (r: Vec<NestedInstallerFiles>)
    ensures
        records_of_paths(r@, chosen.deep_view()),
{
    let ghost cs = chosen.deep_view();
    let mut r: Vec<NestedInstallerFiles> = Vec::new();
    let mut i: usize = 0;
    while i < chosen.len()
        invariant
            i <= chosen@.len(),
            cs == chosen.deep_view(),
            records_of_paths(r@, cs.subrange(0, i as int)),
        decreases chosen@.len() - i,
    {
        insert_record(&mut r, chosen[i].clone());
        assert forall|p: Seq<char>| #[trigger] holds_path(r@, p) <==> cs.subrange(0, i + 1).contains(p) by {
            if cs.subrange(0, i as int).contains(p) {
                let j = choose|j: int| 0 <= j < i && #[trigger] cs.subrange(0, i as int)[j] == p;
                assert(cs.subrange(0, i + 1)[j] == p);
            }
            if p == cs[i as int] {
                assert(cs.subrange(0, i + 1)[i as int] == p);
            }
            if cs.subrange(0, i + 1).contains(p) {
                let j = choose|j: int| 0 <= j < i + 1 && #[trigger] cs.subrange(0, i + 1)[j] == p;
                if j < i {
                    assert(cs.subrange(0, i as int)[j] == p);
                }
            }
        }
        i = i + 1;
    }
    assert(cs.subrange(0, i as int) =~= cs);
    r
}

/// Why a selection was refused.
#[derive(Clone, Copy, Debug, PartialEq, Eq, Structural)]
pub enum SelectionError {
    /// Nothing was chosen; at least one entry must be.
    EmptySelection,
    /// A chosen path is not among the pending entries.
    NotACandidate,
}

/// A selection is acceptable when it holds at least one entry.
pub fn is_valid_selection(chosen: &Vec<String>) -> (r: bool)
    ensures
        r == (chosen@.len() >= 1),
{
    chosen.len() >= 1
}

/// What an archive was found to hold: the installer's type and architecture, when
/// an entry was analysed, and the nested installers, once they are settled. Until
/// they are, the matching entries wait for a choice.
pub struct Zip {
    pub nested_installer_type: Option<NestedInstallerType>,
    pub nested_installer_files: Option<Vec<NestedInstallerFiles>>,
    pub architecture: Option<Architecture>,
    pub identified_files: Vec<String>,
}

/// The record set holds exactly one record, for `p`.
pub open spec fn single_record(files: Option<Vec<NestedInstallerFiles>>, p: Seq<char>) -> bool {
    files matches Some(v) && v@.len() == 1 && v@[0].relative_file_path@ == p
        && v@[0].portable_command_alias is None
}

impl Zip {
    /// The entries that wait for a choice, in archive order.
    pub open spec fn pending(&self) -> Seq<Seq<char>> {
        self.identified_files.deep_view()
    }

    /// Settled records are a valid set, and nothing waits once they are settled.
    pub open spec fn wf(&self) -> bool {
        self.nested_installer_files matches Some(v) ==> records_valid(v@) && self.pending().len()
            == 0
    }

    /// Builds the result of a resolution. `analysis` is what the content analyser
    /// found in the entry that [`Resolution::analysis_target`] names; it is used only
    /// for such an entry.
    pub fn new(resolution: Resolution, analysis: Option<FileAnalysis>) -> (r: Zip)
        ensures
            r.wf(),
            match resolution@ {
                Outcome::AutoResolved(n) | Outcome::ExplicitResolved(n) => {
                    &&& single_record(r.nested_installer_files, n)
                    &&& r.pending().len() == 0
                    &&& r.nested_installer_type == match analysis {
                        Some(a) => nested_of(a.installer_type),
                        None => None,
                    }
                    &&& r.architecture == match analysis {
                        Some(a) => a.architecture,
                        None => None,
                    }
                },
                Outcome::ExplicitMissing(p) => {
                    &&& single_record(r.nested_installer_files, p)
                    &&& r.pending().len() == 0
                    &&& r.nested_installer_type is None
                    &&& r.architecture is None
                },
                Outcome::Pending(c) => {
                    &&& r.nested_installer_files is None
                    &&& r.pending() == c
                    &&& r.nested_installer_type is None
                    &&& r.architecture is None
                },
            },
    {
        let (path, analysed) = match resolution {
            Resolution::Pending(identified_files) => {
                return Zip {
                    nested_installer_type: None,
                    nested_installer_files: None,
                    architecture: None,
                    identified_files,
                };
            },
            Resolution::AutoResolved(n) => (n, true),
            Resolution::ExplicitResolved(n) => (n, true),
            Resolution::ExplicitMissing(p) => (p, false),
        };
        let (nested_installer_type, architecture) = match analysis {
            Some(a) if analysed => (a.installer_type.to_nested(), a.architecture),
            _ => (None, None),
        };
        let mut files: Vec<NestedInstallerFiles> = Vec::new();
        files.push(NestedInstallerFiles { relative_file_path: path, portable_command_alias: None });
        Zip {
            nested_installer_type,
            nested_installer_files: Some(files),
            architecture,
            identified_files: Vec::new(),
        }
    }

    /// The entries that wait for a choice, in archive order.
    pub fn identified_files(&self) -> (r: &Vec<String>)
        ensures
            r.deep_view() == self.pending(),
    {
        &self.identified_files
    }

    /// Settles the waiting entries with the user's choice. With nothing waiting, the
    /// choice is ignored. An empty choice, or one naming an entry that is not waiting,
    /// is refused and changes nothing. Otherwise the waiting list is taken and left
    /// empty, and the chosen paths become the records, each once, ordered by path.
    pub fn prompt(&mut self, chosen: Vec<String>) -> (r: Result<(), SelectionError>)
        requires
            old(self).wf(),
        ensures
            final(self).wf(),
            old(self).pending().len() == 0 ==> r is Ok && *final(self) == *old(self),
            old(self).pending().len() > 0 ==> {
                &&& r == Err::<(), SelectionError>(SelectionError::EmptySelection) <==> chosen@.len()
                    == 0
                &&& r == Err::<(), SelectionError>(SelectionError::NotACandidate) <==> (
                chosen@.len() > 0 && exists|i: int|
                    0 <= i < chosen@.len() && !old(self).pending().contains(
                        #[trigger] chosen@[i]@,
                    ))
                &&& r is Err ==> *final(self) == *old(self)
                &&& r is Ok ==> {
                    &&& final(self).pending().len() == 0
                    &&& final(self).nested_installer_files matches Some(v) && records_of_paths(
                        v@,
                        chosen.deep_view(),
                    )
                    &&& forall|p: Seq<char>|
                        holds_path(final(self).nested_installer_files->Some_0@, p) ==> #[trigger] old(
                            self,
                        ).pending().contains(p)
                    &&& final(self).nested_installer_type == old(self).nested_installer_type
                    &&& final(self).architecture == old(self).architecture
                }
            },
    {
        if self.identified_files.len() == 0 {
            return Ok(());
        }
        if !is_valid_selection(&chosen) {
            return Err(SelectionError::EmptySelection);
        }
        let mut i: usize = 0;
        while i < chosen.len()
            invariant
                i <= chosen@.len(),
                chosen@.len() > 0,
                *self == *old(self),
                old(self).wf(),
                self.pending().len() > 0,
                forall|j: int| 0 <= j < i ==> self.pending().contains(#[trigger] chosen@[j]@),
            decreases chosen@.len() - i,
        {
            if !crate::resolve::contains_name(&self.identified_files, &chosen[i]) {
                return Err(SelectionError::NotACandidate);
            }
            i = i + 1;
        }
        let files = records_from_paths(&chosen);
        self.identified_files = Vec::new();
        self.nested_installer_files = Some(files);
        assert(self.pending() =~= Seq::<Seq<char>>::empty());
        Ok(())
    }
}

} // verus!
