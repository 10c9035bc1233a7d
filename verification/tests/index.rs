use lookrd::index::Index;
use lookrd::index::IndexItem;
use lookrd::tokens::tokenize;

#[test]
fn test_index() {
    let mut idx = Index::new();

    idx.insert(IndexItem::from_path("/foo/bar/baz_1")).unwrap();
    idx.insert(IndexItem::from_path("/foo/bar/baz_2")).unwrap();
    idx.insert(IndexItem::from_path("/a/b/c/d/e")).unwrap();
    idx.insert(IndexItem::from_path("/fooo/bar/aaaaa")).unwrap();
    idx.insert(IndexItem::from_path("/1/2/3/4/5/aaa.b.foo")).unwrap();

    assert_eq!(4, idx.query("foo").unwrap().len());
    assert_eq!(0, idx.query("ABABA").unwrap().len());
    assert_eq!(3, idx.query("bar").unwrap().len());
    assert_eq!(3, idx.query("ba").unwrap().len());

    idx.remove(IndexItem::from_path("/foo/bar/baz_1")).unwrap();

    assert_eq!(3, idx.query("foo").unwrap().len());
}

#[test]
fn test_pb() {
    let item = IndexItem::from_path("/foo/bar/baz/some/file.f");
    for k in item.keys() {
        println!("{:?}", k);
    }
    println!("{:?}", item.value());

    for t in tokenize("/foo/bar/baz/some/file.f") {
        println!("NORMAL: {:?}", t);
    }
}

#[test]
fn tokenize_splits_on_separators() {
    let toks = tokenize("/foo/bar/baz_1");
    assert_eq!(toks, vec!["foo".to_string(), "bar".to_string(), "baz_1".to_string()]);
}

#[test]
fn tokenize_drops_empty_and_relative_components() {
    assert_eq!(tokenize(""), Vec::<String>::new());
    assert_eq!(tokenize("/"), Vec::<String>::new());
    assert_eq!(tokenize("//"), Vec::<String>::new());
    assert_eq!(tokenize("a//b/"), vec!["a".to_string(), "b".to_string()]);
    assert_eq!(tokenize("./a/../b"), vec!["a".to_string(), "b".to_string()]);
    assert_eq!(tokenize("..."), vec!["...".to_string()]);
}

#[test]
fn query_empty_string_matches_every_document() {
    let mut idx = Index::new();
    idx.insert(IndexItem::from_path("/x/one")).unwrap();
    idx.insert(IndexItem::from_path("/y/two")).unwrap();
    let r = idx.query("").unwrap();
    assert_eq!(2, r.len());
    assert!(r.contains(&"/x/one".to_string()));
    assert!(r.contains(&"/y/two".to_string()));
}

#[test]
fn query_returns_deduplicated_identities() {
    let mut idx = Index::new();
    // Both tokens of the path contain "aa": the identity must still
    // come back once.
    idx.insert(IndexItem::from_path("/aaa/baab")).unwrap();
    let r = idx.query("aa").unwrap();
    assert_eq!(1, r.len());
    assert_eq!("/aaa/baab", r[0]);
}

#[test]
fn query_on_empty_index_is_empty_not_an_error() {
    let idx = Index::new();
    assert_eq!(0, idx.query("anything").unwrap().len());
    assert_eq!(0, idx.query("").unwrap().len());
}

#[test]
fn insert_same_identity_twice_is_idempotent() {
    let mut idx = Index::new();
    idx.insert(IndexItem::from_path("/foo/bar")).unwrap();
    idx.insert(IndexItem::from_path("/foo/bar")).unwrap();
    let r = idx.query("bar").unwrap();
    assert_eq!(1, r.len());
}

#[test]
fn remove_of_absent_identity_is_a_noop() {
    let mut idx = Index::new();
    idx.insert(IndexItem::from_path("/keep/me")).unwrap();
    idx.remove(IndexItem::from_path("/never/inserted")).unwrap();
    assert_eq!(1, idx.query("keep").unwrap().len());
}

#[test]
fn duplicate_is_independent_of_the_original() {
    let mut idx = Index::new();
    idx.insert(IndexItem::from_path("/a/b")).unwrap();
    let copy = idx.duplicate();
    idx.remove(IndexItem::from_path("/a/b")).unwrap();
    assert_eq!(0, idx.query("b").unwrap().len());
    assert_eq!(1, copy.query("b").unwrap().len());
}
