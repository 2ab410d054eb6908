use shareables::cycle::{run_cycle, CycleOutcome};
use shareables::dedup::{gate, Strategy};
use shareables::error::FetchError;
use shareables::item::Shareable;
use shareables::pagination::Pager;
use shareables::stackoverflow;
use shareables::store::MemoryStore;
use shareables::twitter::{self, TwitterResponse, TwitterResponseItem, TwitterResponseMeta};

fn tweet(id: &str, text: &str) -> TwitterResponseItem {
    TwitterResponseItem {
        id: id.to_string(),
        text: text.to_string(),
        created_at: "2022-03-01T10:00:00.000Z".to_string(),
    }
}

fn response(tweets: Vec<TwitterResponseItem>, next: Option<&str>) -> TwitterResponse {
    TwitterResponse { data: tweets, meta: TwitterResponseMeta { next_token: next.map(|t| t.to_string()) } }
}

fn fetch_two_pages() -> (Result<Vec<Shareable>, FetchError>, Vec<Option<String>>) {
    let mut pager = Pager::new(100);
    let mut cursors = Vec::new();
    while let Some(request) = pager.next_request() {
        cursors.push(request.cursor.clone());
        let answer = match request.cursor.as_deref() {
            None => response(
                vec![tweet("1", "first"), tweet("2", "RT @x: second"), tweet("3", "third")],
                Some("T1"),
            ),
            Some("T1") => response(vec![tweet("4", "fourth"), tweet("5", "fifth")], None),
            Some(other) => panic!("a page was asked for with the cursor {}", other),
        };
        pager.accept(Ok(twitter::to_page(answer)));
    }
    (pager.finish(), cursors)
}

#[test]
fn two_pages_with_one_excluded_item_end_as_four_rows() {
    let (fetched, cursors) = fetch_two_pages();
    assert_eq!(cursors, vec![None, Some("T1".to_string())]);
    let candidates = fetched.unwrap();
    assert_eq!(candidates.len(), 4);
    let ids: Vec<&str> = candidates.iter().map(|i| i.id.as_str()).collect();
    assert_eq!(ids, vec!["twitter-1", "twitter-3", "twitter-4", "twitter-5"]);

    let batch = gate(Strategy::CheckThenWrite, candidates.clone(), &Vec::new());
    assert_eq!(batch.len(), 4);

    let mut store = MemoryStore::new();
    let outcome = run_cycle(&mut store, Strategy::IdempotentWrite, Ok(candidates));
    assert!(matches!(outcome, CycleOutcome::Persisted(4)));
    assert_eq!(store.len(), 4);
}

#[test]
fn the_two_pages_fetched_again_add_nothing() {
    let mut store = MemoryStore::new();
    let (first, _) = fetch_two_pages();
    let (second, _) = fetch_two_pages();
    assert!(matches!(run_cycle(&mut store, Strategy::IdempotentWrite, first), CycleOutcome::Persisted(4)));
    assert!(matches!(run_cycle(&mut store, Strategy::IdempotentWrite, second), CycleOutcome::Persisted(0)));
    assert_eq!(store.len(), 4);
}

#[test]
fn an_all_excluded_first_page_does_not_end_the_fetch() {
    let mut pager = Pager::new(100);
    pager.accept(Ok(twitter::to_page(response(vec![tweet("1", "RT a"), tweet("2", "RT b")], Some("T1")))));
    assert!(pager.wants_page());
    assert_eq!(pager.next_request().unwrap().cursor, Some("T1".to_string()));
    pager.accept(Ok(twitter::to_page(response(vec![tweet("3", "kept")], None))));
    let mut store = MemoryStore::new();
    let outcome = run_cycle(&mut store, Strategy::IdempotentWrite, pager.finish());
    assert!(matches!(outcome, CycleOutcome::Persisted(1)));
    assert_eq!(store.list_known_ids(), vec!["twitter-3"]);
}

#[test]
fn questions_are_checked_against_the_store_and_then_inserted() {
    let question = |link: &str, answered: bool| stackoverflow::StackOverflowQuestion {
        is_answered: answered,
        link: link.to_string(),
        title: "a question".to_string(),
        answer_count: 0,
        creation_date: 1646092800,
    };
    let mut store = MemoryStore::new();
    for round in 0..2 {
        let answer = stackoverflow::StackOverflowResponse {
            items: vec![question("https://so/q/1", false), question("https://so/q/2", true)],
        };
        let mut pager = Pager::new(100);
        assert_eq!(pager.next_request().unwrap().cursor, None);
        pager.accept(stackoverflow::to_page(&answer));
        assert!(!pager.wants_page());
        let outcome = run_cycle(&mut store, Strategy::CheckThenWrite, pager.finish());
        let expected = if round == 0 { 2 } else { 0 };
        assert!(matches!(outcome, CycleOutcome::Persisted(n) if n == expected));
        assert_eq!(store.len(), 2);
    }
    let rows = store.list_all();
    assert_eq!(rows[0].id, "stackoverflow-https://so/q/1");
    assert_eq!(rows[0].title, ":question: - a question");
    assert_eq!(rows[1].title, ":white_check_mark: - a question");
    assert_eq!(rows[1].date, "2022-03-01UTC");
}

#[test]
fn a_question_that_cannot_be_dated_fails_the_cycle_and_writes_nothing() {
    let answer = stackoverflow::StackOverflowResponse {
        items: vec![stackoverflow::StackOverflowQuestion {
            is_answered: false,
            link: "https://so/q/1".to_string(),
            title: "a question".to_string(),
            answer_count: 0,
            creation_date: i64::MAX,
        }],
    };
    let mut pager = Pager::new(100);
    pager.accept(stackoverflow::to_page(&answer));
    let mut store = MemoryStore::new();
    let outcome = run_cycle(&mut store, Strategy::CheckThenWrite, pager.finish());
    assert!(matches!(outcome, CycleOutcome::FetchFailed(FetchError::Decode(_))));
    assert_eq!(store.len(), 0);
}

#[test]
fn fetch_errors_carry_their_text() {
    assert_eq!(FetchError::Transport("down".to_string()).message(), "down");
    assert_eq!(FetchError::Decode("bad".to_string()).message(), "bad");
    let copy = FetchError::Decode("bad".to_string()).clone();
    assert!(matches!(copy, FetchError::Decode(m) if m == "bad"));
}
