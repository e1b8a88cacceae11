//! Per-tree configuration and runtime git data.
//!
//! Reading the configuration file itself is an outside concern; this module
//! holds the resolved descriptors, the runtime data built from them, and
//! the accessors through which downstream consumers reach a tree's history
//! data.  A tree without history support degrades to an explicit "history
//! data unavailable" answer, never a crash.

use vstd::prelude::*;

use crate::gitio::{index_blame, BuildError};
use crate::index::{index_of_log, outcome_model, BlameIndex, IndexModel};

verus! {

/// The resolved file-system locations of one tree, as the configuration
/// loader supplies them.
pub struct TreeConfigPaths {
    pub index_path: String,
    pub files_path: String,
    pub git_path: Option<String>,
    pub git_blame_path: Option<String>,
    pub objdir_path: String,
    pub hg_root: Option<String>,
}

/// The git runtime data of one tree: the repository handles and the blame
/// index built once at load time, immutable afterwards.
pub struct GitData {
    pub repo: git2::Repository,
    pub blame_repo: Option<git2::Repository>,
    pub index: BlameIndex,
    pub skipped_entries: usize,
}

impl GitData {
    pub open spec fn wf(&self) -> bool {
        self.index.wf()
    }

    /// Whether this data holds an empty index: no forward entries, no
    /// revision entries, nothing skipped.
    pub open spec fn index_is_empty(&self) -> bool {
        &&& self.index.forward_view() == Map::<Seq<u8>, Seq<u8>>::empty()
        &&& self.index.revision_view() == Map::<Seq<u8>, Seq<char>>::empty()
        &&& self.skipped_entries == 0
    }

    /// Builds one tree's runtime data.  The blame history is walked only
    /// when indexing is requested and a blame repository is configured;
    /// otherwise the index is empty and no walk happens.
    pub fn new(
        repo: git2::Repository,
        blame_repo: Option<git2::Repository>,
        need_indexes: bool,
    ) -> (r: Result<GitData, BuildError>)
        ensures
            r is Ok ==> r->Ok_0.wf(),
            !need_indexes ==> r is Ok && r->Ok_0.index_is_empty(),
            blame_repo is None ==> r is Ok && r->Ok_0.index_is_empty(),
            r is Ok ==> exists|log: Seq<(Seq<u8>, Seq<char>)>|
                index_of_log(log) == (IndexModel {
                    forward: r->Ok_0.index.forward_view(),
                    revisions: r->Ok_0.index.revision_view(),
                    skipped: r->Ok_0.skipped_entries as nat,
                }),
    {
        if need_indexes {
            match blame_repo {
                Some(br) => {
                    match index_blame(&repo, &br) {
                        Ok(outcome) => {
                            let ghost wlog = choose|log: Seq<(Seq<u8>, Seq<char>)>|
                                outcome_model(outcome) == index_of_log(log);
                            let g = GitData {
                                repo,
                                blame_repo: Some(br),
                                index: outcome.index,
                                skipped_entries: outcome.skipped,
                            };
                            proof {
                                assert(index_of_log(wlog) == (IndexModel {
                                    forward: g.index.forward_view(),
                                    revisions: g.index.revision_view(),
                                    skipped: g.skipped_entries as nat,
                                }));
                            }
                            Ok(g)
                        },
                        Err(e) => Err(e),
                    }
                },
                None => {
                    let g = GitData {
                        repo,
                        blame_repo: None,
                        index: BlameIndex::new(),
                        skipped_entries: 0,
                    };
                    proof {
                        assert(index_of_log(Seq::<(Seq<u8>, Seq<char>)>::empty())
                            == (IndexModel {
                            forward: g.index.forward_view(),
                            revisions: g.index.revision_view(),
                            skipped: g.skipped_entries as nat,
                        }));
                    }
                    Ok(g)
                },
            }
        } else {
            let g = GitData { repo, blame_repo, index: BlameIndex::new(), skipped_entries: 0 };
            proof {
                assert(index_of_log(Seq::<(Seq<u8>, Seq<char>)>::empty()) == (IndexModel {
                    forward: g.index.forward_view(),
                    revisions: g.index.revision_view(),
                    skipped: g.skipped_entries as nat,
                }));
            }
            Ok(g)
        }
    }
}

/// One tree: its resolved locations and, when configured, its git data.
pub struct TreeConfig {
    pub paths: TreeConfigPaths,
    pub git: Option<GitData>,
}

/// A tree's history data, or the explicit marker that this tree has none.
pub fn get_git(tree_config: &TreeConfig) -> (r: Result<&GitData, &'static str>)
    ensures
        r is Ok <==> tree_config.git is Some,
        r is Ok ==> *r->Ok_0 == tree_config.git->0,
        r is Err ==> r->Err_0@ == "History data unavailable"@,
{
    match &tree_config.git {
        Some(git) => Ok(git),
        None => Err("History data unavailable"),
    }
}

/// A tree's git repository path, or the explicit marker that this tree has
/// none.
pub fn get_git_path(tree_config: &TreeConfig) -> (r: Result<&str, &'static str>)
    ensures
        r is Ok <==> tree_config.paths.git_path is Some,
        r is Ok ==> r->Ok_0@ == tree_config.paths.git_path->0@,
        r is Err ==> r->Err_0@ == "History data unavailable"@,
{
    match &tree_config.paths.git_path {
        Some(git_path) => Ok(git_path.as_str()),
        None => Err("History data unavailable"),
    }
}

/// A tree's mercurial root.  A fixed default keeps configurations without
/// an explicit root working until they all carry one.
pub fn get_hg_root(tree_config: &TreeConfig) -> (r: String)
    ensures
        tree_config.paths.hg_root is Some ==> r@ == tree_config.paths.hg_root->0@,
        tree_config.paths.hg_root is None ==> r@ == "https://hg.mozilla.org/mozilla-central"@,
{
    match &tree_config.paths.hg_root {
        Some(hg_root) => hg_root.clone(),
        None => "https://hg.mozilla.org/mozilla-central".to_owned(),
    }
}

} // verus!
