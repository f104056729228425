//! The path sandbox: a set of permitted root directories, canonicalized once
//! at startup, against which every incoming path is validated. A path is
//! accepted only when its canonical form (or, for a not-yet-existing target,
//! the canonical form of its directory part) is a descendant of a permitted
//! root.

use vstd::prelude::*;
use crate::strutil::{
    is_prefix_of, is_under, join_rel, join_rel_exec, parent_of, split_path, split_path_exec,
};

verus! {

/// Why a path was rejected.
#[derive(Debug, Clone, Copy, PartialEq, Eq)]
pub enum PathError {
    /// The path resolves outside every permitted directory.
    OutsideAllowedPaths,
    /// The path, and its directory part, do not exist.
    NotFound,
    /// The underlying storage failed while resolving the path.
    IoError,
}

/// What the operating system answered when asked to canonicalize a path.
#[derive(Debug, Clone, PartialEq, Eq)]
pub enum Resolution {
    /// The path exists; this is its canonical absolute form.
    Resolved(String),
    /// The path does not exist.
    Missing,
    /// Some other failure (for example, a permission error).
    Failed,
}

/// A path that passed validation: either the canonical form of an existing
/// path proven to lie under a permitted root, or the caller's original text
/// for a not-yet-existing target whose directory part lies under a permitted
/// root.
#[derive(Debug, Clone, PartialEq, Eq)]
pub enum ValidatedPath {
    Existing(String),
    Pending(String),
}

/// One permitted root: its canonical text and its `'/'`-separated components.
#[derive(Debug, Clone, PartialEq, Eq)]
pub struct CanonRoot {
    pub text: String,
    pub parts: Vec<String>,
}

/// Manages the set of permitted directories for filesystem operations.
#[derive(Debug, Clone)]
pub struct AllowedPaths {
    pub roots: Vec<CanonRoot>,
}

/// Relies on `std::path::Path::canonicalize`: resolves `.`, `..` and
/// symbolic links against the filesystem and returns the absolute canonical
/// path of an existing file or directory. The outcome depends on what is on
/// disk, so nothing is promised of it; callers state what holds of every
/// outcome.
#[verifier::external_body]
fn resolve_path(path: &String) -> Resolution {
    match std::path::Path::new(path.as_str()).canonicalize() {
        Ok(p) => Resolution::Resolved(p.to_string_lossy().into_owned()),
        Err(e) => {
            if e.kind() == std::io::ErrorKind::NotFound {
                Resolution::Missing
            } else {
                Resolution::Failed
            }
        },
    }
}

impl AllowedPaths {
    /// The component sequences of the permitted roots.
    pub open spec fn root_seqs(&self) -> Seq<Seq<Seq<char>>> {
        self.roots@.map_values(|r: CanonRoot| r.parts.deep_view())
    }

    /// Each stored component list matches the stored canonical text.
    pub open spec fn wf(&self) -> bool {
        forall|i: int|
            0 <= i < self.roots@.len() ==> (#[trigger] self.roots@[i].parts.deep_view())
                == split_path(self.roots@[i].text@)
    }

    /// The component sequence `parts` lies under at least one permitted root.
    pub open spec fn spec_allows(&self, parts: Seq<Seq<char>>) -> bool {
        exists|i: int| 0 <= i < self.root_seqs().len() && is_under(parts, #[trigger] self.root_seqs()[i])
    }

    /// Create a guard from a list of directory paths, canonicalizing each.
    /// An empty list, or any path that cannot be canonicalized, is refused.
    pub fn new(paths: Vec<String>) -> (r: Result<AllowedPaths, PathError>)
        ensures
            paths@.len() == 0 ==> r == Result::<AllowedPaths, PathError>::Err(PathError::IoError),
            r matches Ok(g) ==> g.wf() && g.roots@.len() == paths@.len(),
    {
        if paths.len() == 0 {
            return Result::Err(PathError::IoError);
        }
        let mut roots: Vec<CanonRoot> = Vec::new();
        for i in 0..paths.len()
            invariant
                roots@.len() == i,
                forall|j: int|
                    0 <= j < i ==> (#[trigger] roots@[j].parts.deep_view())
                        == split_path(roots@[j].text@),
            decreases paths.len() - i,
        {
            match resolve_path(&paths[i]) {
                Resolution::Resolved(canonical) => {
                    let parts = split_path_exec(canonical.as_str());
                    roots.push(CanonRoot { text: canonical, parts });
                },
                Resolution::Missing => {
                    return Result::Err(PathError::IoError);
                },
                Resolution::Failed => {
                    return Result::Err(PathError::IoError);
                },
            }
        }
        Result::Ok(AllowedPaths { roots })
    }

    /// Check whether a component sequence lies under any permitted root.
    pub fn is_path_allowed(&self, parts: &Vec<String>) -> (r: bool)
        ensures
            r == self.spec_allows(parts.deep_view()),
    {
        for i in 0..self.roots.len()
            invariant
                forall|j: int|
                    0 <= j < i ==> !is_under(parts.deep_view(), #[trigger] self.root_seqs()[j]),
            decreases self.roots.len() - i,
        {
            if is_prefix_of(&self.roots[i].parts, parts) {
                proof {
                    assert(self.root_seqs()[i as int] == self.roots@[i as int].parts.deep_view());
                }
                return true;
            }
        }
        false
    }

    /// The validation verdict, given what the filesystem answered: `primary`
    /// for the path itself and `parent` for its directory part (`None` when
    /// the directory part was never resolved, either because the path itself
    /// exists or because it has no directory part).
    pub open spec fn spec_outcome(
        &self,
        path: String,
        primary: Resolution,
        parent: Option<Resolution>,
    ) -> Result<ValidatedPath, PathError> {
        match primary {
            Resolution::Resolved(c) => if self.spec_allows(split_path(c@)) {
                Result::Ok(ValidatedPath::Existing(c))
            } else {
                Result::Err(PathError::OutsideAllowedPaths)
            },
            Resolution::Missing => match parent {
                Option::None => Result::Err(PathError::NotFound),
                Option::Some(Resolution::Resolved(pc)) => if self.spec_allows(split_path(pc@)) {
                    Result::Ok(ValidatedPath::Pending(path))
                } else {
                    Result::Err(PathError::OutsideAllowedPaths)
                },
                Option::Some(Resolution::Missing) => Result::Err(PathError::NotFound),
                Option::Some(Resolution::Failed) => Result::Err(PathError::IoError),
            },
            Resolution::Failed => Result::Err(PathError::IoError),
        }
    }

    /// Turn the filesystem's answers about a path into a verdict. This is
    /// the whole decision logic of `validate_path`, separated from the
    /// filesystem calls so that it is exact for every combination of
    /// answers.
    pub fn resolve_outcome(
        &self,
        path: &String,
        primary: Resolution,
        parent: Option<Resolution>,
    ) -> (r: Result<ValidatedPath, PathError>)
        ensures
            r == self.spec_outcome(*path, primary, parent),
    {
        match primary {
            Resolution::Resolved(c) => {
                let parts = split_path_exec(c.as_str());
                if self.is_path_allowed(&parts) {
                    Result::Ok(ValidatedPath::Existing(c))
                } else {
                    Result::Err(PathError::OutsideAllowedPaths)
                }
            },
            Resolution::Missing => {
                match parent {
                    Option::None => Result::Err(PathError::NotFound),
                    Option::Some(Resolution::Resolved(pc)) => {
                        let pparts = split_path_exec(pc.as_str());
                        if self.is_path_allowed(&pparts) {
                            Result::Ok(ValidatedPath::Pending(path.clone()))
                        } else {
                            Result::Err(PathError::OutsideAllowedPaths)
                        }
                    },
                    Option::Some(Resolution::Missing) => Result::Err(PathError::NotFound),
                    Option::Some(Resolution::Failed) => Result::Err(PathError::IoError),
                }
            },
            Resolution::Failed => Result::Err(PathError::IoError),
        }
    }

    /// Validate a path against the permitted roots. An existing path is
    /// accepted exactly when its canonical form lies under a permitted root;
    /// a missing path is accepted exactly when its directory part exists and
    /// lies under a permitted root, and is then returned unchanged for the
    /// caller to create.
    pub fn validate_path(&self, path: &String) -> (r: Result<ValidatedPath, PathError>)
        ensures
            r matches Ok(v) ==> match v {
                ValidatedPath::Existing(c) => self.spec_allows(split_path(c@)),
                ValidatedPath::Pending(o) => o@ == path@,
            },
    {
        let primary = resolve_path(path);
        match primary {
            Resolution::Missing => {
                let parent = parent_of(path.as_str());
                match parent {
                    Option::None => self.resolve_outcome(path, Resolution::Missing, Option::None),
                    Option::Some(p) => {
                        let pres = resolve_path(&p);
                        self.resolve_outcome(path, Resolution::Missing, Option::Some(pres))
                    },
                }
            },
            other => self.resolve_outcome(path, other, Option::None),
        }
    }

    /// Among the first `n` roots, the index of the one that is an ancestor
    /// of `parts` and leaves the fewest components when stripped; earlier
    /// roots win ties.
    pub open spec fn best_upto(&self, parts: Seq<Seq<char>>, n: int) -> Option<int>
        decreases n,
    {
        if n <= 0 {
            Option::None
        } else {
            let prev = self.best_upto(parts, n - 1);
            if is_under(parts, self.root_seqs()[n - 1]) {
                match prev {
                    Option::None => Option::Some(n - 1),
                    Option::Some(j) => if self.root_seqs()[n - 1].len() > self.root_seqs()[j].len() {
                        Option::Some(n - 1)
                    } else {
                        Option::Some(j)
                    },
                }
            } else {
                prev
            }
        }
    }

    /// The chosen root index is an ancestor; when none is chosen, no root is.
    pub proof fn lemma_best_upto_under(&self, parts: Seq<Seq<char>>, n: int)
        requires
            n <= self.root_seqs().len(),
        ensures
            match self.best_upto(parts, n) {
                Option::Some(i) => 0 <= i < n && is_under(parts, self.root_seqs()[i]),
                Option::None => forall|j: int| 0 <= j < n ==> !is_under(parts, #[trigger] self.root_seqs()[j]),
            },
        decreases n,
    {
        if n > 0 {
            self.lemma_best_upto_under(parts, n - 1);
        }
    }

    /// The most specific relative display form of a path: strip the ancestor
    /// root that leaves the fewest components; a path under no root is
    /// returned unmodified.
    pub fn closest_relative_path(&self, path: &String) -> (r: String)
        ensures
            ({
                let parts = split_path(path@);
                match self.best_upto(parts, self.root_seqs().len() as int) {
                    Option::None => r@ == path@,
                    Option::Some(i) => r@ == join_rel(parts.skip(self.root_seqs()[i].len() as int)),
                }
            }),
    {
        let parts = split_path_exec(path.as_str());
        let mut best: Option<usize> = Option::None;
        proof {
            assert(self.root_seqs().len() == self.roots@.len());
        }
        for i in 0..self.roots.len()
            invariant
                parts.deep_view() == split_path(path@),
                self.root_seqs().len() == self.roots@.len(),
                match best {
                    Option::None => self.best_upto(parts.deep_view(), i as int) is None,
                    Option::Some(b) => b < i && self.best_upto(parts.deep_view(), i as int)
                        == Option::Some(b as int),
                },
            decreases self.roots.len() - i,
        {
            proof {
                assert(self.root_seqs()[i as int] == self.roots@[i as int].parts.deep_view());
                assert(forall|k: int|
                    0 <= k < self.roots@.len() ==> (#[trigger] self.root_seqs()[k]).len()
                        == self.roots@[k].parts@.len());
            }
            if is_prefix_of(&self.roots[i].parts, &parts) {
                match best {
                    Option::None => {
                        best = Option::Some(i);
                    },
                    Option::Some(b) => {
                        if self.roots[i].parts.len() > self.roots[b].parts.len() {
                            best = Option::Some(i);
                        }
                    },
                }
            }
        }
        match best {
            Option::None => path.clone(),
            Option::Some(b) => {
                proof {
                    assert(self.root_seqs()[b as int] == self.roots@[b as int].parts.deep_view());
                    self.lemma_best_upto_under(parts.deep_view(), self.root_seqs().len() as int);
                }
                let rootlen = self.roots[b].parts.len();
                let mut rel: Vec<String> = Vec::new();
                proof {
                    assert(parts.deep_view().subrange(rootlen as int, rootlen as int)
                        =~= Seq::<Seq<char>>::empty());
                }
                for k in rootlen..parts.len()
                    invariant
                        rootlen <= k <= parts@.len(),
                        rel.deep_view() == parts.deep_view().subrange(rootlen as int, k as int),
                    decreases parts.len() - k,
                {
                    let ghost prev = rel.deep_view();
                    rel.push(parts[k].clone());
                    proof {
                        assert(rel.deep_view() =~= prev.push(parts.deep_view()[k as int]));
                        assert(parts.deep_view().subrange(rootlen as int, k as int + 1)
                            =~= parts.deep_view().subrange(rootlen as int, k as int).push(
                            parts.deep_view()[k as int]));
                    }
                }
                proof {
                    assert(rel.deep_view() =~= parts.deep_view().skip(rootlen as int));
                }
                join_rel_exec(&rel)
            },
        }
    }

    /// A canonical path that lies under a permitted root is accepted, and
    /// what is accepted is the canonical path itself, still under that root.
    pub proof fn lemma_validate_inside(
        &self,
        path: String,
        c: String,
        parent: Option<Resolution>,
        i: int,
    )
        requires
            0 <= i < self.root_seqs().len(),
            is_under(split_path(c@), self.root_seqs()[i]),
        ensures
            self.spec_outcome(path, Resolution::Resolved(c), parent)
                == Result::<ValidatedPath, PathError>::Ok(ValidatedPath::Existing(c)),
    {
    }

    /// A canonical path that lies under no permitted root is rejected as
    /// outside the sandbox, whatever was answered about its directory part.
    pub proof fn lemma_validate_outside(&self, path: String, c: String, parent: Option<Resolution>)
        requires
            forall|i: int|
                0 <= i < self.root_seqs().len() ==> !is_under(
                    split_path(c@),
                    #[trigger] self.root_seqs()[i],
                ),
        ensures
            self.spec_outcome(path, Resolution::Resolved(c), parent)
                == Result::<ValidatedPath, PathError>::Err(PathError::OutsideAllowedPaths),
    {
    }

    /// A missing path whose directory part resolves under no permitted root
    /// is likewise rejected as outside the sandbox.
    pub proof fn lemma_validate_parent_outside(&self, path: String, pc: String)
        requires
            forall|i: int|
                0 <= i < self.root_seqs().len() ==> !is_under(
                    split_path(pc@),
                    #[trigger] self.root_seqs()[i],
                ),
        ensures
            self.spec_outcome(path, Resolution::Missing, Option::Some(Resolution::Resolved(pc)))
                == Result::<ValidatedPath, PathError>::Err(PathError::OutsideAllowedPaths),
    {
    }

    /// The relative display form reconstructs the path: for a path under at
    /// least one permitted root, the chosen root's components followed by
    /// the stripped remainder are exactly the path's components.
    pub proof fn lemma_relative_display_reconstructs(&self, parts: Seq<Seq<char>>)
        requires
            self.spec_allows(parts),
        ensures
            self.best_upto(parts, self.root_seqs().len() as int) is Some,
            ({
                let i = self.best_upto(parts, self.root_seqs().len() as int)->Some_0;
                &&& 0 <= i < self.root_seqs().len()
                &&& is_under(parts, self.root_seqs()[i])
                &&& self.root_seqs()[i] + parts.skip(self.root_seqs()[i].len() as int) == parts
            }),
    {
        let n = self.root_seqs().len() as int;
        self.lemma_best_upto_under(parts, n);
        match self.best_upto(parts, n) {
            Option::None => {
                assert(false);
            },
            Option::Some(i) => {
                let root = self.root_seqs()[i];
                assert(parts.take(root.len() as int) == root);
                assert(root + parts.skip(root.len() as int) =~= parts);
            },
        }
    }

    /// The canonical texts of all permitted roots, in order.
    pub fn all_paths(&self) -> (r: Vec<String>)
        ensures
            r.deep_view() == self.roots@.map_values(|root: CanonRoot| root.text@),
    {
        let mut r: Vec<String> = Vec::new();
        for i in 0..self.roots.len()
            invariant
                r.deep_view() == self.roots@.map_values(|root: CanonRoot| root.text@).take(i as int),
            decreases self.roots.len() - i,
        {
            let ghost prev = r.deep_view();
            r.push(self.roots[i].text.clone());
            proof {
                assert(r.deep_view() =~= prev.push(self.roots@[i as int].text@));
                assert(self.roots@.map_values(|root: CanonRoot| root.text@).take(i as int + 1)
                    =~= self.roots@.map_values(|root: CanonRoot| root.text@).take(i as int).push(
                    self.roots@[i as int].text@));
            }
        }
        proof {
            assert(self.roots@.map_values(|root: CanonRoot| root.text@).take(self.roots@.len() as int)
                =~= self.roots@.map_values(|root: CanonRoot| root.text@));
        }
        r
    }
}

} // verus!
