use shareables::item::Shareable;
use shareables::listing::{
    hidden, insert_sorted, prepare_listing, render_entries, render_entry, render_title,
    sort_newest_first, stackoverflow_entries, twitter_entries,
};

fn item(id: &str, title: &str, date: &str, source: &str) -> Shareable {
    Shareable {
        id: id.to_string(),
        title: title.to_string(),
        date: date.to_string(),
        url: format!("https://example.org/{}", id),
        source: source.to_string(),
    }
}

fn ids(items: &[Shareable]) -> Vec<String> {
    items.iter().map(|i| i.id.clone()).collect()
}

#[test]
fn markers_become_symbols() {
    assert_eq!(render_title(":question: - why?"), "❓ - why?");
    assert_eq!(render_title(":white_check_mark: - done"), "✅ - done");
    assert_eq!(render_title(":waiting-spin: - soon"), "🔄 - soon");
    assert_eq!(render_title("plain"), "plain");
    assert_eq!(
        render_title(":question::waiting-spin::white_check_mark::question:"),
        "❓🔄✅❓"
    );
}

#[test]
fn dependency_updates_are_hidden() {
    assert!(hidden("[Dependency Updated] serde 1.0"));
    assert!(hidden("fyi: [Dependency Updated]"));
    assert!(!hidden("[dependency updated] serde"));
    assert!(!hidden("Dependency Updated"));
}

#[test]
fn an_entry_is_a_link_in_a_list_item() {
    assert_eq!(
        render_entry("https://example.org/1", "hello"),
        "<li><a href=\"https://example.org/1\">hello</a></li>"
    );
}

#[test]
fn entries_are_grouped_by_source() {
    let items = vec![
        item("t1", ":question: tweet", "2022-01-01", "twitter"),
        item("s1", ":question: - first", "2022-01-02", "stackoverflow"),
        item("t2", "other tweet", "2022-01-03", "twitter"),
        item("s2", ":white_check_mark: - second", "2022-01-04", "stackoverflow"),
    ];
    assert_eq!(
        twitter_entries(&items),
        "<li><a href=\"https://example.org/t1\">:question: tweet</a></li><li><a href=\"https://example.org/t2\">other tweet</a></li>"
    );
    assert_eq!(
        stackoverflow_entries(&items),
        "<li><a href=\"https://example.org/s1\">❓ - first</a></li><li><a href=\"https://example.org/s2\">✅ - second</a></li>"
    );
    assert_eq!(render_entries(&items, "mastodon", true), "");
}

#[test]
fn entries_of_no_items_are_empty() {
    assert_eq!(twitter_entries(&Vec::new()), "");
}

#[test]
fn insert_sorted_puts_an_item_behind_those_not_older() {
    let mut sorted = vec![
        item("c", "c", "2022-03-01", "twitter"),
        item("b", "b", "2022-02-01", "twitter"),
        item("a", "a", "2022-01-01", "twitter"),
    ];
    insert_sorted(&mut sorted, item("x", "x", "2022-02-01", "twitter"));
    assert_eq!(ids(&sorted), vec!["c", "b", "x", "a"]);
    insert_sorted(&mut sorted, item("y", "y", "2023-01-01", "twitter"));
    assert_eq!(ids(&sorted), vec!["y", "c", "b", "x", "a"]);
    insert_sorted(&mut sorted, item("z", "z", "2000-01-01", "twitter"));
    assert_eq!(ids(&sorted), vec!["y", "c", "b", "x", "a", "z"]);
}

#[test]
fn sort_is_newest_first_and_keeps_items_of_one_date_in_order() {
    let items = vec![
        item("1", "1", "2022-01-02", "twitter"),
        item("2", "2", "2022-01-03", "twitter"),
        item("3", "3", "2022-01-02", "twitter"),
        item("4", "4", "2022-01-01", "twitter"),
        item("5", "5", "2022-01-03", "twitter"),
    ];
    let sorted = sort_newest_first(items);
    assert_eq!(ids(&sorted), vec!["2", "5", "1", "3", "4"]);
}

#[test]
fn sort_agrees_with_a_stable_sort_by_date() {
    let dates = ["2022-01-02", "2021-12-31UTC", "2022-01-02", "", "2022-03-01UTC", "2022-01-02T10:00"];
    let items: Vec<Shareable> = dates
        .iter()
        .enumerate()
        .map(|(n, date)| item(&format!("{}", n), "t", date, "twitter"))
        .collect();
    let mut expected = items.clone();
    expected.sort_by(|a, b| b.date.cmp(&a.date));
    assert_eq!(sort_newest_first(items), expected);
}

#[test]
fn listing_shows_titles_hides_dependency_updates_and_orders_by_date() {
    let items = vec![
        item("1", ":question: - old", "2022-01-01UTC", "stackoverflow"),
        item("2", "[Dependency Updated] serde", "2022-01-05UTC", "twitter"),
        item("3", ":white_check_mark: - new", "2022-01-09UTC", "stackoverflow"),
        item("4", "a tweet", "2022-01-03T10:00:00.000Z", "twitter"),
    ];
    let listing = prepare_listing(items);
    assert_eq!(ids(&listing), vec!["3", "4", "1"]);
    assert_eq!(listing[0].title, "✅ - new");
    assert_eq!(listing[1].title, "a tweet");
    assert_eq!(listing[2].title, "❓ - old");
    assert_eq!(listing[0].url, "https://example.org/3");
    assert_eq!(listing[0].source, "stackoverflow");
}

#[test]
fn items_compare_by_date_alone() {
    let old = item("1", "b", "2022-01-01", "twitter");
    let new = item("2", "a", "2022-01-02", "twitter");
    let twin = item("3", "c", "2022-01-01", "stackoverflow");
    assert!(old < new);
    assert!(new > old);
    assert!(old <= twin && old >= twin);
    assert_eq!(old.partial_cmp(&new), Some(std::cmp::Ordering::Less));
    assert_eq!(new.partial_cmp(&old), Some(std::cmp::Ordering::Greater));
    assert_eq!(old.partial_cmp(&twin), Some(std::cmp::Ordering::Equal));
}
