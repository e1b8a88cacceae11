use blame_index::config::{get_git, get_git_path, get_hg_root, GitData, TreeConfig, TreeConfigPaths};
use blame_index::gitio::index_blame;
use blame_index::ids::{parse_commit_id, CommitId};
use git2::{Oid, Repository, Signature};
use tempfile::TempDir;

fn hex_a1() -> String {
    "aa11aa11aa11aa11aa11aa11aa11aa11aa11aa11".to_string()
}

fn hex_a2() -> String {
    "aa22aa22aa22aa22aa22aa22aa22aa22aa22aa22".to_string()
}

fn commit_id_of(oid: Oid) -> CommitId {
    CommitId::from_bytes(oid.as_bytes().to_vec()).unwrap()
}

/// Appends a commit with the given message to the repository's head.
fn add_commit(repo: &Repository, msg: &str) -> Oid {
    let sig = Signature::now("indexer", "indexer@example.com").unwrap();
    let tree_id = {
        let mut builder = repo.treebuilder(None).unwrap();
        builder.write().unwrap()
    };
    let tree = repo.find_tree(tree_id).unwrap();
    let parent = match repo.head() {
        Ok(head) => Some(head.peel_to_commit().unwrap()),
        Err(_) => None,
    };
    let parents: Vec<&git2::Commit> = parent.iter().collect();
    repo.commit(Some("HEAD"), &sig, &sig, msg, &tree, &parents).unwrap()
}

fn paths_with(git_path: Option<String>, hg_root: Option<String>) -> TreeConfigPaths {
    TreeConfigPaths {
        index_path: "/idx".to_string(),
        files_path: "/files".to_string(),
        git_path,
        git_blame_path: None,
        objdir_path: "/obj".to_string(),
        hg_root,
    }
}

#[test]
fn empty_history_builds_empty_index() {
    let primary_dir = TempDir::new().unwrap();
    let blame_dir = TempDir::new().unwrap();
    let primary = Repository::init(primary_dir.path()).unwrap();
    let blame = Repository::init(blame_dir.path()).unwrap();
    let outcome = index_blame(&primary, &blame).unwrap();
    assert_eq!(outcome.index.forward_len(), 0);
    assert_eq!(outcome.index.revision_len(), 0);
    assert_eq!(outcome.skipped, 0);
}

#[test]
fn walk_indexes_whole_history() {
    let primary_dir = TempDir::new().unwrap();
    let blame_dir = TempDir::new().unwrap();
    let primary = Repository::init(primary_dir.path()).unwrap();
    let blame = Repository::init(blame_dir.path()).unwrap();

    // Oldest first; the walk will visit them newest first.
    add_commit(&blame, "blame");
    let b2 = add_commit(&blame, &format!("blame {}", hex_a2()));
    let b1 = add_commit(&blame, &format!("blame {} rev r1", hex_a1()));

    let outcome = index_blame(&primary, &blame).unwrap();
    assert_eq!(outcome.index.forward_len(), 2);
    assert_eq!(outcome.index.revision_len(), 1);
    assert_eq!(outcome.skipped, 1);

    let a1 = parse_commit_id(&hex_a1()).unwrap();
    let a2 = parse_commit_id(&hex_a2()).unwrap();
    assert_eq!(outcome.index.blame_commit_for(&a1), Some(&commit_id_of(b1)));
    assert_eq!(outcome.index.blame_commit_for(&a2), Some(&commit_id_of(b2)));
    assert_eq!(
        outcome.index.external_revision_for(&a1),
        Some(&"r1".to_string())
    );
    assert!(outcome.index.external_revision_for(&a2).is_none());
}

#[test]
fn duplicate_original_resolves_to_most_recent_commit() {
    let primary_dir = TempDir::new().unwrap();
    let blame_dir = TempDir::new().unwrap();
    let primary = Repository::init(primary_dir.path()).unwrap();
    let blame = Repository::init(blame_dir.path()).unwrap();

    add_commit(&blame, &format!("blame {} rev r_old", hex_a1()));
    let newest = add_commit(&blame, &format!("blame {} rev r_new", hex_a1()));

    let outcome = index_blame(&primary, &blame).unwrap();
    let a1 = parse_commit_id(&hex_a1()).unwrap();
    assert_eq!(outcome.index.forward_len(), 1);
    assert_eq!(
        outcome.index.blame_commit_for(&a1),
        Some(&commit_id_of(newest))
    );
    assert_eq!(
        outcome.index.external_revision_for(&a1),
        Some(&"r_new".to_string())
    );
}

#[test]
fn building_twice_from_unchanged_history_is_identical() {
    let primary_dir = TempDir::new().unwrap();
    let blame_dir = TempDir::new().unwrap();
    let primary = Repository::init(primary_dir.path()).unwrap();
    let blame = Repository::init(blame_dir.path()).unwrap();
    add_commit(&blame, &format!("blame {} rev r1", hex_a1()));
    add_commit(&blame, &format!("blame {}", hex_a2()));

    let first = index_blame(&primary, &blame).unwrap();
    let second = index_blame(&primary, &blame).unwrap();
    assert_eq!(first.index.forward_len(), second.index.forward_len());
    assert_eq!(first.index.revision_len(), second.index.revision_len());
    assert_eq!(first.skipped, second.skipped);
    for hex in [hex_a1(), hex_a2()] {
        let id = parse_commit_id(&hex).unwrap();
        assert_eq!(
            first.index.blame_commit_for(&id),
            second.index.blame_commit_for(&id)
        );
        assert_eq!(
            first.index.external_revision_for(&id),
            second.index.external_revision_for(&id)
        );
    }
}

#[test]
fn skipping_indexes_builds_empty_index_without_walking() {
    let primary_dir = TempDir::new().unwrap();
    let blame_dir = TempDir::new().unwrap();
    let primary = Repository::init(primary_dir.path()).unwrap();
    let blame = Repository::init(blame_dir.path()).unwrap();
    // History that would produce entries if it were walked.
    add_commit(&blame, &format!("blame {} rev r1", hex_a1()));

    let data = GitData::new(primary, Some(blame), false).unwrap();
    assert_eq!(data.index.forward_len(), 0);
    assert_eq!(data.index.revision_len(), 0);
    assert_eq!(data.skipped_entries, 0);
}

#[test]
fn missing_blame_repository_means_empty_index() {
    let primary_dir = TempDir::new().unwrap();
    let primary = Repository::init(primary_dir.path()).unwrap();
    let data = GitData::new(primary, None, true).unwrap();
    assert!(data.blame_repo.is_none());
    assert_eq!(data.index.forward_len(), 0);
    assert_eq!(data.index.revision_len(), 0);
}

#[test]
fn requested_indexes_are_built_and_attached() {
    let primary_dir = TempDir::new().unwrap();
    let blame_dir = TempDir::new().unwrap();
    let primary = Repository::init(primary_dir.path()).unwrap();
    let blame = Repository::init(blame_dir.path()).unwrap();
    let b1 = add_commit(&blame, &format!("blame {} rev r1", hex_a1()));

    let data = GitData::new(primary, Some(blame), true).unwrap();
    let a1 = parse_commit_id(&hex_a1()).unwrap();
    assert_eq!(data.index.forward_len(), 1);
    assert_eq!(data.index.blame_commit_for(&a1), Some(&commit_id_of(b1)));
}

#[test]
fn unwalkable_history_is_a_fatal_build_error() {
    let primary_dir = TempDir::new().unwrap();
    let blame_dir = TempDir::new().unwrap();
    let primary = Repository::init(primary_dir.path()).unwrap();
    let blame = Repository::init(blame_dir.path()).unwrap();
    // Point the head branch at a blob: the head resolves, but no commit
    // walk can start from it.
    let blob = blame.blob(b"not a commit").unwrap();
    blame
        .reference("refs/heads/master", blob, true, "broken head")
        .unwrap();
    let result = index_blame(&primary, &blame);
    assert_eq!(result.err(), Some(blame_index::gitio::BuildError::RepositoryUnavailable));
}

#[test]
fn accessors_report_missing_history() {
    let tree = TreeConfig { paths: paths_with(None, None), git: None };
    assert_eq!(get_git(&tree).err(), Some("History data unavailable"));
    assert_eq!(get_git_path(&tree).err(), Some("History data unavailable"));
    assert_eq!(
        get_hg_root(&tree),
        "https://hg.mozilla.org/mozilla-central".to_string()
    );
}

#[test]
fn accessors_hand_out_configured_data() {
    let primary_dir = TempDir::new().unwrap();
    let primary = Repository::init(primary_dir.path()).unwrap();
    let data = GitData::new(primary, None, false).unwrap();
    let tree = TreeConfig {
        paths: paths_with(
            Some("/repo/.git".to_string()),
            Some("https://hg.example.com/root".to_string()),
        ),
        git: Some(data),
    };
    assert!(get_git(&tree).is_ok());
    assert_eq!(get_git_path(&tree).ok(), Some("/repo/.git"));
    assert_eq!(get_hg_root(&tree), "https://hg.example.com/root".to_string());
}
