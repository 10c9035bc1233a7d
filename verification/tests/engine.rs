use lookrd::engine::IndexEngine;
use lookrd::index::IndexItem;
use lookrd::rpc::LookrService;
use lookrd::rpc::QueryReq;

#[test]
fn buffered_mutations_are_invisible_until_commit() {
    let mut eng = IndexEngine::new();
    eng.insert(IndexItem::from_path("/foo/bar"));
    assert_eq!(0, eng.query("bar").unwrap().len());
    eng.commit().unwrap();
    assert_eq!(1, eng.query("bar").unwrap().len());
}

#[test]
fn double_insert_commits_to_one_document() {
    let mut eng = IndexEngine::new();
    eng.insert(IndexItem::from_path("/foo/bar"));
    eng.insert(IndexItem::from_path("/foo/bar"));
    eng.commit().unwrap();
    let r = eng.query("bar").unwrap();
    assert_eq!(1, r.len());
    assert_eq!("/foo/bar", r[0]);
}

#[test]
fn insert_then_delete_in_one_batch_leaves_no_match() {
    let mut eng = IndexEngine::new();
    eng.insert(IndexItem::from_path("/foo/bar"));
    eng.delete("/foo/bar");
    eng.commit().unwrap();
    assert_eq!(0, eng.query("bar").unwrap().len());
    assert_eq!(0, eng.query("foo").unwrap().len());
}

#[test]
fn rename_batch_is_atomic() {
    let mut eng = IndexEngine::new();
    eng.insert(IndexItem::from_path("/dir/oldname"));
    eng.commit().unwrap();
    assert_eq!(1, eng.query("oldname").unwrap().len());

    // The one logical rename unit: delete(src) + insert(dst).
    eng.delete("/dir/oldname");
    eng.insert(IndexItem::from_path("/dir/newname"));
    eng.commit().unwrap();

    // A token unique to the source matches nothing; a token unique to
    // the destination matches exactly the renamed document.
    assert_eq!(0, eng.query("oldname").unwrap().len());
    let r = eng.query("newname").unwrap();
    assert_eq!(1, r.len());
    assert_eq!("/dir/newname", r[0]);
}

#[test]
fn delete_of_absent_identity_commits_cleanly() {
    let mut eng = IndexEngine::new();
    eng.delete("/never/there");
    eng.commit().unwrap();
    assert_eq!(0, eng.query("never").unwrap().len());
}

#[test]
fn snapshot_is_stable_across_later_commits() {
    let mut eng = IndexEngine::new();
    eng.insert(IndexItem::from_path("/first/doc"));
    eng.commit().unwrap();

    // A reader acquires its snapshot, then a commit finishes "mid-query":
    // the snapshot still answers from the state it was taken against.
    let snap = eng.snapshot();
    eng.insert(IndexItem::from_path("/second/doc"));
    eng.commit().unwrap();

    assert_eq!(1, snap.query("doc").unwrap().len());
    assert_eq!(2, eng.query("doc").unwrap().len());
}

#[test]
fn service_returns_full_match_set_and_ignores_hints() {
    let mut eng = IndexEngine::new();
    eng.insert(IndexItem::from_path("/foo/one"));
    eng.insert(IndexItem::from_path("/foo/two"));
    eng.insert(IndexItem::from_path("/foo/three"));
    eng.commit().unwrap();

    let svc = LookrService::new();
    let full = svc
        .query(&eng, &QueryReq { query: "foo".to_string(), count: 0, offset: 0 })
        .unwrap();
    let hinted = svc
        .query(&eng, &QueryReq { query: "foo".to_string(), count: 1, offset: 2 })
        .unwrap();

    assert_eq!(3, full.results.len());
    assert_eq!(3, hinted.results.len());
    for r in &full.results {
        assert!(hinted.results.contains(r));
    }
}

#[test]
fn service_answers_unmatched_query_with_empty_results() {
    let eng = IndexEngine::new();
    let svc = LookrService::new();
    let resp = svc
        .query(&eng, &QueryReq { query: "nothing".to_string(), count: 0, offset: 0 })
        .unwrap();
    assert_eq!(0, resp.results.len());
}
