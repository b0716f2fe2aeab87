use notebook_store::document::{Document, SeedFile};
use notebook_store::order::names_in_order;
use notebook_store::store::DocumentStore;
use notebook_store::StoreError;

fn seed(name: &str, contents: &str) -> SeedFile {
    SeedFile { name: name.to_string(), contents: contents.to_string() }
}

fn doc(identifier: u64, name: &str, version: u64, contents: &str) -> Document {
    Document { identifier, name: name.to_string(), version, contents: contents.to_string() }
}

fn id_of(store: &DocumentStore, name: &str) -> u64 {
    store.list_documents().iter().find(|s| s.name == name).unwrap().identifier
}

fn snapshot(store: &DocumentStore) -> Vec<(u64, String, u64, String)> {
    store
        .documents()
        .into_iter()
        .map(|d| (d.identifier, d.name, d.version, d.contents))
        .collect()
}

#[test]
fn example_two_files() {
    let mut store = DocumentStore::new();
    assert_eq!(store.reconcile(&vec![seed("a.md", "alpha"), seed("b.md", "beta")]), Ok(()));
    let listed: Vec<(String, u64)> =
        store.list_documents().into_iter().map(|s| (s.name, s.version)).collect();
    assert_eq!(listed, vec![("a.md".to_string(), 1), ("b.md".to_string(), 1)]);
    let b = id_of(&store, "b.md");
    let got = store.get_document(b).unwrap();
    assert_eq!(got.name, "b.md");
    assert_eq!(got.version, 1);
    assert_eq!(got.contents, "beta");
    assert_eq!(store.replace_content(b, "beta2".to_string()), Ok(()));
    assert_eq!(store.get_document(b).unwrap().contents, "beta2");
}

#[test]
fn reconcile_twice_changes_nothing() {
    let files = vec![seed("x.md", "one"), seed("y.md", "two"), seed("z.md", "three")];
    let mut store = DocumentStore::new();
    assert_eq!(store.reconcile(&files), Ok(()));
    let once = snapshot(&store);
    assert_eq!(store.reconcile(&files), Ok(()));
    assert_eq!(snapshot(&store), once);
    assert_eq!(store.next_identifier(), 4);
}

#[test]
fn reconcile_keeps_edited_contents() {
    let files = vec![seed("n.md", "on disk")];
    let mut store = DocumentStore::new();
    store.reconcile(&files).unwrap();
    let id = id_of(&store, "n.md");
    store.replace_content(id, "edited".to_string()).unwrap();
    store.reconcile(&files).unwrap();
    assert_eq!(store.list_documents().len(), 1);
    assert_eq!(store.get_document(id).unwrap().contents, "edited");
}

#[test]
fn every_seed_file_stored_once() {
    let files = vec![seed("q.md", "Q"), seed("p.md", "P"), seed("r.md", "")];
    let mut store = DocumentStore::new();
    store.reconcile(&files).unwrap();
    let listed = store.list_documents();
    for f in &files {
        let matching: Vec<_> = listed.iter().filter(|s| s.name == f.name).collect();
        assert_eq!(matching.len(), 1);
        assert_eq!(matching[0].version, 1);
        let d = store.get_document(matching[0].identifier).unwrap();
        assert_eq!(d.contents, f.contents);
    }
}

#[test]
fn empty_directory_is_a_no_op() {
    let mut store = DocumentStore::new();
    assert_eq!(store.reconcile(&Vec::new()), Ok(()));
    assert!(store.list_documents().is_empty());
    assert_eq!(store.next_identifier(), 1);
}

#[test]
fn repeated_lookup_gives_same_name() {
    let mut store = DocumentStore::new();
    store.reconcile(&vec![seed("k.md", "kappa"), seed("l.md", "lambda")]).unwrap();
    let id = id_of(&store, "l.md");
    let first = store.get_document(id).unwrap();
    let second = store.get_document(id).unwrap();
    assert_eq!(first.name, second.name);
    assert_eq!(first.identifier, id);
    let other = id_of(&store, "k.md");
    store.replace_content(other, "changed".to_string()).unwrap();
    store.replace_content(id, "changed too".to_string()).unwrap();
    assert_eq!(store.get_document(id).unwrap().name, "l.md");
}

#[test]
fn unknown_identifier_is_not_found() {
    let mut store = DocumentStore::new();
    store.reconcile(&vec![seed("a.md", "alpha")]).unwrap();
    let before = snapshot(&store);
    assert!(matches!(store.get_document(9999999), Err(StoreError::NotFound)));
    assert_eq!(store.replace_content(9999999, "x".to_string()), Err(StoreError::NotFound));
    assert_eq!(snapshot(&store), before);
    assert!(matches!(DocumentStore::new().get_document(1), Err(StoreError::NotFound)));
}

#[test]
fn update_is_visible_and_keeps_version() {
    let mut store = DocumentStore::new();
    store.reconcile(&vec![seed("a.md", "alpha"), seed("b.md", "beta")]).unwrap();
    let a = id_of(&store, "a.md");
    let b = id_of(&store, "b.md");
    store.replace_content(a, "new text".to_string()).unwrap();
    let got = store.get_document(a).unwrap();
    assert_eq!(got.contents, "new text");
    assert_eq!(got.version, 1);
    assert_eq!(store.get_document(b).unwrap().contents, "beta");
}

#[test]
fn listing_sorted_by_name() {
    let mut store = DocumentStore::new();
    let files = vec![
        seed("zeta.md", "z"),
        seed("Alpha.md", "A"),
        seed("alpha.md", "a"),
        seed("beta", "b"),
        seed("alpha", "a0"),
    ];
    store.reconcile(&files).unwrap();
    let names: Vec<String> = store.list_documents().into_iter().map(|s| s.name).collect();
    assert_eq!(names, vec!["Alpha.md", "alpha", "alpha.md", "beta", "zeta.md"]);
    let ids: Vec<u64> = store.list_documents().into_iter().map(|s| s.identifier).collect();
    assert_eq!(ids, vec![2, 5, 3, 4, 1]);
}

#[test]
fn name_order_is_byte_order() {
    let s = |x: &str| x.to_string();
    assert!(names_in_order(&s("a"), &s("b")));
    assert!(!names_in_order(&s("b"), &s("a")));
    assert!(names_in_order(&s("Z"), &s("a")));
    assert!(names_in_order(&s("ab"), &s("abc")));
    assert!(!names_in_order(&s("abc"), &s("ab")));
    assert!(names_in_order(&s(""), &s("")));
    assert!(names_in_order(&s("same"), &s("same")));
    assert!(names_in_order(&s("z"), &s("é")));
}

#[test]
fn later_replacement_wins() {
    let mut store = DocumentStore::new();
    store.reconcile(&vec![seed("a.md", "alpha"), seed("b.md", "beta")]).unwrap();
    let a = id_of(&store, "a.md");
    let b = id_of(&store, "b.md");
    store.replace_content(a, "first".to_string()).unwrap();
    store.replace_content(b, "other".to_string()).unwrap();
    store.replace_content(a, "second".to_string()).unwrap();
    assert_eq!(store.get_document(a).unwrap().contents, "second");
    assert_eq!(store.get_document(b).unwrap().contents, "other");
}

#[test]
fn distinct_replacements_commute() {
    let files = vec![seed("a.md", "alpha"), seed("b.md", "beta")];
    let mut one = DocumentStore::new();
    let mut two = DocumentStore::new();
    one.reconcile(&files).unwrap();
    two.reconcile(&files).unwrap();
    one.replace_content(1, "A".to_string()).unwrap();
    one.replace_content(2, "B".to_string()).unwrap();
    two.replace_content(2, "B".to_string()).unwrap();
    two.replace_content(1, "A".to_string()).unwrap();
    assert_eq!(snapshot(&one), snapshot(&two));
}

#[test]
fn restore_round_trip() {
    let mut store = DocumentStore::new();
    store.reconcile(&vec![seed("a.md", "alpha"), seed("b.md", "beta")]).unwrap();
    store.replace_content(2, "beta2".to_string()).unwrap();
    let back = DocumentStore::restore(store.documents()).unwrap();
    assert_eq!(snapshot(&back), snapshot(&store));
    assert_eq!(back.next_identifier(), 3);
}

#[test]
fn restore_rejects_bad_identifiers() {
    assert!(DocumentStore::restore(vec![doc(2, "a", 1, ""), doc(2, "b", 1, "")]).is_none());
    assert!(DocumentStore::restore(vec![doc(3, "a", 1, ""), doc(1, "b", 1, "")]).is_none());
    assert!(DocumentStore::restore(vec![doc(0, "a", 1, "")]).is_none());
    assert!(DocumentStore::restore(vec![doc(u64::MAX, "a", 1, "")]).is_none());
    let empty = DocumentStore::restore(Vec::new()).unwrap();
    assert_eq!(empty.next_identifier(), 1);
    let gaps = DocumentStore::restore(vec![doc(4, "a", 7, "t"), doc(9, "b", 1, "u")]).unwrap();
    assert_eq!(gaps.next_identifier(), 10);
    assert_eq!(gaps.get_document(4).unwrap().version, 7);
}

#[test]
fn identifiers_exhausted_is_storage_error() {
    let mut store = DocumentStore::restore(vec![doc(u64::MAX - 1, "old.md", 1, "o")]).unwrap();
    assert_eq!(store.next_identifier(), u64::MAX);
    assert_eq!(store.reconcile(&vec![seed("old.md", "again")]), Ok(()));
    assert_eq!(store.reconcile(&vec![seed("new.md", "n")]), Err(StoreError::StorageError));
}
