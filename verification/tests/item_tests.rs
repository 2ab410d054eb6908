use shareables::item::{make_id, Shareable};

fn item(id: &str, title: &str) -> Shareable {
    Shareable {
        id: id.to_string(),
        title: title.to_string(),
        date: "2022-01-01".to_string(),
        url: "https://example.org".to_string(),
        source: "twitter".to_string(),
    }
}

#[test]
fn id_joins_source_and_native_id() {
    assert_eq!(make_id("twitter", "1499"), "twitter-1499");
    assert_eq!(make_id("stackoverflow", "https://so/q/1"), "stackoverflow-https://so/q/1");
}

#[test]
fn id_is_stable_across_calls() {
    assert_eq!(make_id("twitter", "7"), make_id("twitter", "7"));
}

#[test]
fn same_entity_goes_by_id_alone() {
    let a = item("twitter-1", "first");
    let b = item("twitter-1", "second");
    let c = item("twitter-2", "first");
    assert!(a.same_entity(&b));
    assert!(!a.same_entity(&c));
    assert_ne!(a, b);
    assert_eq!(a, a.clone());
}
