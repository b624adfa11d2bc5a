//! The repository index (`repomd`) and mirrors of a repository.
use vstd::prelude::*;

use crate::error::SyncError;
use vstd::std_specs::cmp::PartialEqSpec;

verus! {

/// Directory of the metadata files, relative to the repository root.
pub const MD_DIR: &'static str = "repodata";

/// Path of the repository index, relative to the repository root.
pub const MD_PATH: &'static str = "repodata/repomd.xml";

/// One metadata document listed by the index.
#[derive(Debug)]
pub struct Data {
    /// The document's type: `primary`, `prestodelta`, `filelists`, ...
    pub datum: String,
    /// Its path, relative to the repository root.
    pub href: String,
}

/// The repository index.
#[derive(Debug)]
pub struct Repo {
    pub revision: Option<u64>,
    pub data: Vec<Data>,
}

/// The character sequences of a list of strings.
pub open spec fn views(v: Seq<String>) -> Seq<Seq<char>> {
    v.map_values(|s: String| s@)
}

/// Two indices stand for the same version when both carry a revision and
/// the revisions agree.
pub open spec fn same_revision(a: Option<u64>, b: Option<u64>) -> bool {
    a is Some && b is Some && a == b
}

/// The href of the first document of type `section`.
pub open spec fn first_href(data: Seq<(Seq<char>, Seq<char>)>, section: Seq<char>) -> Option<
    Seq<char>,
>
    decreases data.len(),
{
    if data.len() == 0 {
        None
    } else if data[0].0 == section {
        Some(data[0].1)
    } else {
        first_href(data.drop_first(), section)
    }
}

impl Repo {
    /// The listed documents as (type, href) pairs, in document order.
    pub open spec fn data_view(&self) -> Seq<(Seq<char>, Seq<char>)> {
        self.data@.map_values(|d: Data| (d.datum@, d.href@))
    }

    /// The paths of the metadata files, in order: the index itself, then
    /// each listed document.
    pub open spec fn meta_files_spec(&self) -> Seq<Seq<char>> {
        seq![MD_PATH@].add(self.data@.map_values(|d: Data| d.href@))
    }

    /// Paths of the metadata files to mirror: `repodata/repomd.xml`
    /// followed by the href of every listed document, in document order.
    pub fn meta_files(&self) -> (r: Vec<String>)
        ensures
            views(r@) == self.meta_files_spec(),
    {
        let mut files: Vec<String> = Vec::new();
        files.push(MD_PATH.to_owned());
        let mut i: usize = 0;
        while i < self.data.len()
            invariant
                0 <= i <= self.data.len(),
                files.len() == i + 1,
                files[0]@ == MD_PATH@,
                forall|k: int| 0 <= k < i ==> (#[trigger] files[k + 1])@ == self.data[k].href@,
            decreases self.data.len() - i,
        {
            files.push(self.data[i].href.clone());
            i += 1;
        }
        assert(views(files@) =~= self.meta_files_spec()) by {
            assert forall|k: int| 0 <= k < files.len() implies #[trigger] views(files@)[k]
                == self.meta_files_spec()[k] by {
                if k > 0 {
                    assert(files[(k - 1) + 1]@ == self.data[k - 1].href@);
                }
            }
        }
        files
    }

    /// The href of the first document of type `section`, if any.
    pub fn subsection_path(&self, section: &str) -> (r: Option<String>)
        ensures
            match r {
                Some(p) => first_href(self.data_view(), section@) == Some(p@),
                None => first_href(self.data_view(), section@) is None,
            },
    {
        let key = section.to_owned();
        let ghost d = self.data_view();
        let mut i: usize = 0;
        assert(d.subrange(0, d.len() as int) =~= d);
        while i < self.data.len()
            invariant
                key@ == section@,
                d == self.data_view(),
                0 <= i <= self.data.len(),
                first_href(d, section@) == first_href(d.subrange(i as int, d.len() as int), section@),
            decreases self.data.len() - i,
        {
            let ghost rest = d.subrange(i as int, d.len() as int);
            assert(rest.drop_first() =~= d.subrange(i + 1, d.len() as int));
            if self.data[i].datum == key {
                return Some(self.data[i].href.clone());
            }
            i += 1;
        }
        None
    }

    /// The href of the package list; an index without one is unusable.
    pub fn primary_path(&self) -> (r: Result<String, SyncError>)
        ensures
            match r {
                Ok(p) => first_href(self.data_view(), seq!['p', 'r', 'i', 'm', 'a', 'r', 'y'])
                    == Some(p@),
                Err(e) => e is MissingPrimary && first_href(
                    self.data_view(),
                    seq!['p', 'r', 'i', 'm', 'a', 'r', 'y'],
                ) is None,
            },
    {
        let section = "primary";
        proof {
            reveal_strlit("primary");
            assert(section@ =~= seq!['p', 'r', 'i', 'm', 'a', 'r', 'y']);
        }
        match self.subsection_path(section) {
            Some(p) => Ok(p),
            None => Err(SyncError::MissingPrimary),
        }
    }

    /// The href of the delta list, if the index lists one.
    pub fn prestodelta_path(&self) -> (r: Option<String>)
        ensures
            match r {
                Some(p) => first_href(
                    self.data_view(),
                    seq!['p', 'r', 'e', 's', 't', 'o', 'd', 'e', 'l', 't', 'a'],
                ) == Some(p@),
                None => first_href(
                    self.data_view(),
                    seq!['p', 'r', 'e', 's', 't', 'o', 'd', 'e', 'l', 't', 'a'],
                ) is None,
            },
    {
        let section = "prestodelta";
        proof {
            reveal_strlit("prestodelta");
            assert(section@ =~= seq!['p', 'r', 'e', 's', 't', 'o', 'd', 'e', 'l', 't', 'a']);
        }
        self.subsection_path(section)
    }
}

impl PartialEq for Repo {
    /// Equal when both revisions are present and agree; an index without a
    /// revision equals no index, itself included.
    fn eq(&self, other: &Repo) -> (r: bool) {
        match (self.revision, other.revision) {
            (Some(this), Some(that)) => this == that,
            _ => false,
        }
    }
}

impl vstd::std_specs::cmp::PartialEqSpecImpl for Repo {
    open spec fn obeys_eq_spec() -> bool {
        true
    }

    open spec fn eq_spec(&self, other: &Repo) -> bool {
        same_revision(self.revision, other.revision)
    }
}

/// Index equality: indices with the same present revision are equal, and an
/// index with no revision equals none.
pub proof fn lemma_index_equality(a: Repo, b: Repo)
    ensures
        a.revision is Some && a.revision == b.revision ==> a.eq_spec(&b),
        a.revision is None || b.revision is None ==> !a.eq_spec(&b),
{
}

/// A repository at a location: a remote URL or a local `file://` URL.
#[derive(Debug)]
pub struct Mirror {
    pub repo: Repo,
    pub location: String,
}

impl Mirror {
    pub fn new(repo: Repo, location: String) -> (r: Mirror)
        ensures
            r.repo == repo,
            r.location == location,
    {
        Mirror { repo, location }
    }

    /// Whether both mirrors hold the same version of the repository.
    pub fn same_version(&self, other: &Mirror) -> (r: bool)
        ensures
            r == same_revision(self.repo.revision, other.repo.revision),
    {
        self.repo.eq(&other.repo)
    }
}

} // verus!
