use shareables::error::FetchError;
use shareables::item::Shareable;
use shareables::stackoverflow::{
    build_search_url, marker, normalize, question_to_item, to_page, StackOverflowQuestion,
    StackOverflowResponse,
};

fn question(link: &str, is_answered: bool, answer_count: i32, creation_date: i64) -> StackOverflowQuestion {
    StackOverflowQuestion {
        is_answered,
        link: link.to_string(),
        title: "How do I verify this?".to_string(),
        answer_count,
        creation_date,
    }
}

#[test]
fn search_url_carries_the_query() {
    assert_eq!(
        build_search_url("verus"),
        "https://api.stackexchange.com/2.3/search/advanced?order=desc&sort=activity&site=stackoverflow&q=verus"
    );
}

#[test]
fn the_question_keyword_is_one_value_of_the_query_whatever_it_holds() {
    assert_eq!(
        build_search_url("a&site=x"),
        "https://api.stackexchange.com/2.3/search/advanced?order=desc&sort=activity&site=stackoverflow&q=a%26site%3Dx"
    );
    assert_eq!(
        build_search_url("c# généric"),
        "https://api.stackexchange.com/2.3/search/advanced?order=desc&sort=activity&site=stackoverflow&q=c%23%20g%C3%A9n%C3%A9ric"
    );
}

#[test]
fn the_address_has_each_parameter_once() {
    for keyword in ["plain", "a&site=x", "a&q=b", "#", "order=asc"] {
        let url = build_search_url(keyword);
        let query = url.split('?').nth(1).unwrap();
        let names: Vec<&str> = query.split('&').map(|p| p.split('=').next().unwrap()).collect();
        assert_eq!(names, vec!["order", "sort", "site", "q"]);
        assert!(!url.contains('#'));
    }
}

#[test]
fn marker_has_three_states() {
    assert_eq!(marker(true, 0), ":white_check_mark:");
    assert_eq!(marker(true, 3), ":white_check_mark:");
    assert_eq!(marker(false, 1), ":waiting-spin:");
    assert_eq!(marker(false, 0), ":question:");
    assert_eq!(marker(false, -1), ":question:");
}

#[test]
fn question_and_date_become_an_item() {
    let q = question("https://stackoverflow.com/q/1", false, 2, 0);
    let got = question_to_item(&q, "some day".to_string());
    let expected = Shareable {
        id: "stackoverflow-https://stackoverflow.com/q/1".to_string(),
        title: ":waiting-spin: - How do I verify this?".to_string(),
        date: "some day".to_string(),
        url: "https://stackoverflow.com/q/1".to_string(),
        source: "stackoverflow".to_string(),
    };
    assert_eq!(got, expected);
}

#[test]
fn creation_date_becomes_a_utc_date() {
    let q = question("https://stackoverflow.com/q/2", true, 1, 1646092800);
    let item = normalize(&q).unwrap();
    assert_eq!(item.date, "2022-03-01UTC");
    assert_eq!(item.title, ":white_check_mark: - How do I verify this?");
}

#[test]
fn creation_date_at_the_end_of_a_day_stays_on_that_day() {
    let q = question("https://stackoverflow.com/q/3", false, 0, 86399);
    assert_eq!(normalize(&q).unwrap().date, "1970-01-01UTC");
    let q = question("https://stackoverflow.com/q/3", false, 0, 86400);
    assert_eq!(normalize(&q).unwrap().date, "1970-01-02UTC");
    let q = question("https://stackoverflow.com/q/3", false, 0, -1);
    assert_eq!(normalize(&q).unwrap().date, "1969-12-31UTC");
}

#[test]
fn creation_date_out_of_range_gives_no_item() {
    assert_eq!(normalize(&question("https://stackoverflow.com/q/4", false, 0, i64::MAX)), None);
    assert_eq!(normalize(&question("https://stackoverflow.com/q/4", false, 0, i64::MIN)), None);
}

#[test]
fn a_response_becomes_one_page_without_token() {
    let response = StackOverflowResponse {
        items: vec![
            question("https://stackoverflow.com/q/1", false, 0, 0),
            question("https://stackoverflow.com/q/2", true, 1, 1646092800),
        ],
    };
    let page = to_page(&response).unwrap();
    assert_eq!(page.next_cursor, None);
    let ids: Vec<&str> = page.items.iter().map(|i| i.id.as_str()).collect();
    assert_eq!(
        ids,
        vec!["stackoverflow-https://stackoverflow.com/q/1", "stackoverflow-https://stackoverflow.com/q/2"]
    );
    assert_eq!(page.items[0].date, "1970-01-01UTC");
    assert_eq!(page.items[1].date, "2022-03-01UTC");
}

#[test]
fn an_empty_response_becomes_an_empty_page() {
    let page = to_page(&StackOverflowResponse { items: Vec::new() }).unwrap();
    assert!(page.items.is_empty());
    assert_eq!(page.next_cursor, None);
}

#[test]
fn a_response_with_a_date_out_of_range_is_a_decode_failure() {
    let response = StackOverflowResponse {
        items: vec![
            question("https://stackoverflow.com/q/1", false, 0, 0),
            question("https://stackoverflow.com/q/2", false, 0, i64::MAX),
        ],
    };
    match to_page(&response) {
        Err(FetchError::Decode(message)) => assert_eq!(message, "creation_date out of range"),
        other => panic!("expected a decode failure, got {:?}", other),
    }
}
