use lookrd::engine::IndexEngine;
use lookrd::indexer::Indexer;
use lookrd::indexer::IndexerError;
use lookrd::indexer::COMMIT_THRESHOLD;
use lookrd::watcher::FsChange;
use lookrd::watcher::FsWatcher;
use lookrd::watcher::RootStatus;
use lookrd::watcher::WatchEvent;
use lookrd::watcher::WatcherError;
use lookrd::watcher::normalize_change;
use lookrd::secret::SecretError;
use lookrd::secret::SecretManager;

fn root(path: &str, present: bool, is_dir: bool) -> RootStatus {
    RootStatus { path: path.to_string(), present, is_dir }
}

#[test]
fn walk_of_a_root_commits_its_entries() {
    let mut ix = Indexer::new(IndexEngine::new());
    let entries = vec![
        "/root/a".to_string(),
        "/root/b/c".to_string(),
        "/root/b/c/d".to_string(),
    ];
    ix.index_root(&entries).unwrap();
    assert_eq!(3, ix.engine_ref().query("root").unwrap().len());
    assert_eq!(2, ix.engine_ref().query("c").unwrap().len());
}

#[test]
fn below_threshold_and_before_idle_nothing_commits() {
    let mut ix = Indexer::new(IndexEngine::new());
    for i in 0..(COMMIT_THRESHOLD - 1) {
        let ev = WatchEvent::Create(format!("/live/file_{}", i));
        ix.on_event(ev).unwrap();
    }
    // One short of the threshold, no idle period elapsed: no commit.
    assert_eq!(0, ix.engine_ref().query("live").unwrap().len());
}

#[test]
fn reaching_the_threshold_forces_one_commit() {
    let mut ix = Indexer::new(IndexEngine::new());
    for i in 0..COMMIT_THRESHOLD {
        let ev = WatchEvent::Create(format!("/live/file_{}", i));
        ix.on_event(ev).unwrap();
    }
    assert_eq!(COMMIT_THRESHOLD as usize, ix.engine_ref().query("live").unwrap().len());
}

#[test]
fn idle_timeout_flushes_once_and_only_with_new_mutations() {
    let mut ix = Indexer::new(IndexEngine::new());
    ix.on_event(WatchEvent::Create("/one/pending".to_string())).unwrap();
    assert_eq!(0, ix.engine_ref().query("pending").unwrap().len());

    // One pending mutation plus an elapsed idle timeout: exactly one commit.
    ix.on_timeout().unwrap();
    assert_eq!(1, ix.engine_ref().query("pending").unwrap().len());

    // A further timeout with nothing new commits nothing.
    ix.on_timeout().unwrap();
    assert_eq!(1, ix.engine_ref().query("pending").unwrap().len());
}

#[test]
fn rename_event_is_applied_as_one_unit() {
    let mut ix = Indexer::new(IndexEngine::new());
    ix.on_event(WatchEvent::Create("/dir/before".to_string())).unwrap();
    ix.on_timeout().unwrap();
    ix.on_event(WatchEvent::Rename("/dir/before".to_string(), "/dir/after".to_string()))
        .unwrap();
    ix.on_timeout().unwrap();
    assert_eq!(0, ix.engine_ref().query("before").unwrap().len());
    assert_eq!(1, ix.engine_ref().query("after").unwrap().len());
}

#[test]
fn remove_event_unindexes_the_document() {
    let mut ix = Indexer::new(IndexEngine::new());
    ix.on_event(WatchEvent::Create("/gone/soon".to_string())).unwrap();
    ix.on_timeout().unwrap();
    ix.on_event(WatchEvent::Remove("/gone/soon".to_string())).unwrap();
    ix.on_timeout().unwrap();
    assert_eq!(0, ix.engine_ref().query("soon").unwrap().len());
}

#[test]
fn normalize_forwards_tracked_changes_and_drops_the_rest() {
    assert!(matches!(
        normalize_change(FsChange::Create("/p".to_string())),
        Some(WatchEvent::Create(p)) if p == "/p"
    ));
    assert!(matches!(
        normalize_change(FsChange::Remove("/p".to_string())),
        Some(WatchEvent::Remove(p)) if p == "/p"
    ));
    assert!(matches!(
        normalize_change(FsChange::Rename("/a".to_string(), "/b".to_string())),
        Some(WatchEvent::Rename(a, b)) if a == "/a" && b == "/b"
    ));
    assert!(normalize_change(FsChange::Other).is_none());
}

#[test]
fn missing_root_aborts_validation_before_any_watching() {
    let roots = vec![root("/ok", true, true), root("/missing", false, false)];
    let r = FsWatcher::new(&roots);
    assert!(matches!(r, Err(WatcherError::PathDoesNotExist)));
}

#[test]
fn non_directory_root_aborts_validation() {
    let roots = vec![root("/a-file", true, false)];
    let r = FsWatcher::new(&roots);
    assert!(matches!(r, Err(WatcherError::PathIsNotADir)));
}

#[test]
fn missing_root_is_reported_before_a_later_non_directory() {
    let roots = vec![root("/missing", false, false), root("/a-file", true, false)];
    let r = FsWatcher::new(&roots);
    assert!(matches!(r, Err(WatcherError::PathDoesNotExist)));
}

#[test]
fn all_valid_roots_are_accepted() {
    let roots = vec![root("/one", true, true), root("/two", true, true)];
    assert!(FsWatcher::new(&roots).is_ok());
}

#[test]
fn no_roots_is_a_valid_configuration() {
    let roots: Vec<RootStatus> = Vec::new();
    assert!(FsWatcher::new(&roots).is_ok());
}

#[test]
fn watcher_error_converts_into_indexer_error() {
    let e: IndexerError = IndexerError::from(WatcherError::PathIsNotADir);
    assert!(matches!(e, IndexerError::Watcher(WatcherError::PathIsNotADir)));
}

#[test]
fn secret_manager_requires_an_existing_directory() {
    assert_eq!(
        SecretManager::new(&root("/no/such", false, false)).err(),
        Some(SecretError::DataDirNotFound)
    );
    assert_eq!(
        SecretManager::new(&root("/a-file", true, false)).err(),
        Some(SecretError::DataDirInvalid)
    );
    assert!(SecretManager::new(&root("/data", true, true)).is_ok());
}

#[test]
fn secret_lookup_reports_no_secret_for_any_user() {
    assert_eq!(Ok(None), SecretManager::get_path_for_user("alice"));
    assert_eq!(Ok(None), SecretManager::get_path_for_user(""));
}
