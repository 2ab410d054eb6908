use shareables::error::StoreError;
use shareables::item::Shareable;
use shareables::store::MemoryStore;

fn item(id: &str, title: &str) -> Shareable {
    Shareable {
        id: id.to_string(),
        title: title.to_string(),
        date: "2022-03-01".to_string(),
        url: format!("https://example.org/{}", id),
        source: "twitter".to_string(),
    }
}

fn ids(items: &[Shareable]) -> Vec<String> {
    items.iter().map(|i| i.id.clone()).collect()
}

fn has_no_duplicates(store: &MemoryStore) -> bool {
    let mut seen = store.list_known_ids();
    seen.sort();
    let before = seen.len();
    seen.dedup();
    seen.len() == before
}

#[test]
fn a_new_store_is_empty() {
    let store = MemoryStore::new();
    assert_eq!(store.len(), 0);
    assert!(store.list_all().is_empty());
    assert!(store.list_known_ids().is_empty());
}

#[test]
fn upsert_ignore_adds_new_rows_in_order() {
    let mut store = MemoryStore::new();
    assert!(store.upsert_ignore(vec![item("a", "1"), item("b", "2")]).is_ok());
    assert_eq!(store.len(), 2);
    assert_eq!(store.list_known_ids(), vec!["a", "b"]);
    assert_eq!(store.list_all(), vec![item("a", "1"), item("b", "2")]);
}

#[test]
fn upsert_ignore_skips_a_known_id_and_keeps_the_old_row() {
    let mut store = MemoryStore::new();
    store.upsert_ignore(vec![item("a", "old")]).unwrap();
    store.upsert_ignore(vec![item("a", "new"), item("b", "2")]).unwrap();
    assert_eq!(store.list_all(), vec![item("a", "old"), item("b", "2")]);
}

#[test]
fn upsert_ignore_skips_a_repeat_within_the_batch() {
    let mut store = MemoryStore::new();
    store.upsert_ignore(vec![item("a", "first"), item("a", "second"), item("b", "2")]).unwrap();
    assert_eq!(store.list_all(), vec![item("a", "first"), item("b", "2")]);
}

#[test]
fn upsert_ignore_of_an_empty_batch_is_success() {
    let mut store = MemoryStore::new();
    store.upsert_ignore(vec![item("a", "1")]).unwrap();
    assert!(store.upsert_ignore(Vec::new()).is_ok());
    assert_eq!(store.len(), 1);
}

#[test]
fn upsert_ignore_twice_is_upsert_ignore_once() {
    let batch = || vec![item("a", "1"), item("b", "2"), item("a", "3")];
    let mut store = MemoryStore::new();
    store.upsert_ignore(batch()).unwrap();
    let once = store.list_all();
    store.upsert_ignore(batch()).unwrap();
    assert_eq!(store.list_all(), once);
}

#[test]
fn no_sequence_of_upserts_leaves_a_duplicate() {
    let mut store = MemoryStore::new();
    let batches = vec![
        vec![item("a", "1"), item("b", "2")],
        vec![item("b", "3"), item("c", "4"), item("c", "5")],
        vec![],
        vec![item("a", "6"), item("d", "7"), item("b", "8")],
    ];
    for batch in batches {
        store.upsert_ignore(batch).unwrap();
        assert!(has_no_duplicates(&store));
    }
    assert_eq!(store.list_known_ids(), vec!["a", "b", "c", "d"]);
}

#[test]
fn insert_adds_the_whole_batch() {
    let mut store = MemoryStore::new();
    store.upsert_ignore(vec![item("a", "1")]).unwrap();
    assert!(store.insert(vec![item("b", "2"), item("c", "3")]).is_ok());
    assert_eq!(store.list_known_ids(), vec!["a", "b", "c"]);
}

#[test]
fn insert_of_an_empty_batch_is_success() {
    let mut store = MemoryStore::new();
    assert!(store.insert(Vec::new()).is_ok());
    assert_eq!(store.len(), 0);
}

#[test]
fn insert_of_a_stored_id_is_rejected_and_writes_nothing() {
    let mut store = MemoryStore::new();
    store.upsert_ignore(vec![item("a", "1")]).unwrap();
    let result = store.insert(vec![item("b", "2"), item("a", "3"), item("c", "4")]);
    match result {
        Err(StoreError::Rejected(id)) => assert_eq!(id, "a"),
        other => panic!("expected a rejection, got {:?}", other),
    }
    assert_eq!(store.list_all(), vec![item("a", "1")]);
}

#[test]
fn insert_of_a_batch_that_repeats_an_id_is_rejected_and_writes_nothing() {
    let mut store = MemoryStore::new();
    let result = store.insert(vec![item("x", "1"), item("y", "2"), item("x", "3")]);
    match result {
        Err(StoreError::Rejected(id)) => assert_eq!(id, "x"),
        other => panic!("expected a rejection, got {:?}", other),
    }
    assert_eq!(store.len(), 0);
}

#[test]
fn contains_id_knows_what_is_stored() {
    let mut store = MemoryStore::new();
    store.upsert_ignore(vec![item("a", "1")]).unwrap();
    assert!(store.contains_id(&"a".to_string()));
    assert!(!store.contains_id(&"b".to_string()));
}

#[test]
fn list_all_is_a_copy() {
    let mut store = MemoryStore::new();
    store.upsert_ignore(vec![item("a", "1")]).unwrap();
    let mut rows = store.list_all();
    rows.push(item("b", "2"));
    assert_eq!(ids(&store.list_all()), vec!["a"]);
}

#[test]
fn store_errors_carry_their_text() {
    assert_eq!(StoreError::Transport("down".to_string()).message(), "down");
    assert_eq!(StoreError::Rejected("twitter-1".to_string()).message(), "twitter-1");
}
