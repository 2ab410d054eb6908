use shareables::item::Shareable;
use shareables::twitter::{
    build_search_url, normalize, normalize_all, to_page, TwitterResponse, TwitterResponseItem,
    TwitterResponseMeta,
};

fn tweet(id: &str, text: &str) -> TwitterResponseItem {
    TwitterResponseItem {
        id: id.to_string(),
        text: text.to_string(),
        created_at: "2022-03-01T10:00:00.000Z".to_string(),
    }
}

#[test]
fn first_page_url_carries_the_query_only() {
    assert_eq!(
        build_search_url("rustlang", &None),
        "https://api.twitter.com/2/tweets/search/recent?max_results=100&tweet.fields=created_at&query=rustlang"
    );
}

#[test]
fn next_page_url_carries_the_token() {
    assert_eq!(
        build_search_url("rustlang", &Some("T1".to_string())),
        "https://api.twitter.com/2/tweets/search/recent?max_results=100&tweet.fields=created_at&query=rustlang&next_token=T1"
    );
}

#[test]
fn the_keyword_is_one_value_of_the_query_whatever_it_holds() {
    assert_eq!(
        build_search_url("a&max_results=10", &None),
        "https://api.twitter.com/2/tweets/search/recent?max_results=100&tweet.fields=created_at&query=a%26max_results%3D10"
    );
    assert_eq!(
        build_search_url("#rust lang", &None),
        "https://api.twitter.com/2/tweets/search/recent?max_results=100&tweet.fields=created_at&query=%23rust%20lang"
    );
}

#[test]
fn the_cursor_is_one_value_of_the_query_whatever_it_holds() {
    assert_eq!(
        build_search_url("rust", &Some("b26v89c19zqg8o3f&x=1".to_string())),
        "https://api.twitter.com/2/tweets/search/recent?max_results=100&tweet.fields=created_at&query=rust&next_token=b26v89c19zqg8o3f%26x%3D1"
    );
}

#[test]
fn every_address_has_each_parameter_once() {
    for keyword in ["plain", "a&max_results=10", "a&query=b", "x&next_token=y", "#"] {
        let url = build_search_url(keyword, &Some("T1".to_string()));
        let query = url.split('?').nth(1).unwrap();
        let names: Vec<&str> = query.split('&').map(|p| p.split('=').next().unwrap()).collect();
        assert_eq!(names, vec!["max_results", "tweet.fields", "query", "next_token"]);
        assert!(!url.contains('#'));
    }
}

#[test]
fn a_tweet_becomes_an_item() {
    let got = normalize(&tweet("1499", "verus is neat"));
    let expected = Shareable {
        id: "twitter-1499".to_string(),
        title: "verus is neat".to_string(),
        date: "2022-03-01T10:00:00.000Z".to_string(),
        url: "https://twitter.com/twitter/status/1499".to_string(),
        source: "twitter".to_string(),
    };
    assert_eq!(got, Some(expected));
}

#[test]
fn a_retweet_is_left_out() {
    assert_eq!(normalize(&tweet("1", "RT @a: verus is neat")), None);
    assert_eq!(normalize(&tweet("2", "look: RT")), None);
}

#[test]
fn the_same_tweet_gives_the_same_id_each_time() {
    let a = normalize(&tweet("77", "again")).unwrap();
    let b = normalize(&tweet("77", "again")).unwrap();
    assert_eq!(a.id, b.id);
    assert_eq!(a, b);
}

#[test]
fn normalize_all_keeps_order_and_drops_retweets() {
    let data = vec![
        tweet("1", "first"),
        tweet("2", "RT second"),
        tweet("3", "third"),
        tweet("4", "fourth RT"),
    ];
    let items = normalize_all(&data);
    let ids: Vec<&str> = items.iter().map(|i| i.id.as_str()).collect();
    assert_eq!(ids, vec!["twitter-1", "twitter-3"]);
    assert!(items.iter().all(|i| !i.title.contains("RT")));
}

#[test]
fn normalize_all_of_nothing_is_nothing() {
    assert!(normalize_all(&Vec::new()).is_empty());
}

#[test]
fn a_response_of_retweets_gives_an_empty_page_that_keeps_its_token() {
    let response = TwitterResponse {
        data: vec![tweet("1", "RT a"), tweet("2", "RT b")],
        meta: TwitterResponseMeta { next_token: Some("T9".to_string()) },
    };
    let page = to_page(response);
    assert!(page.items.is_empty());
    assert_eq!(page.next_cursor, Some("T9".to_string()));
}

#[test]
fn a_last_response_gives_a_page_without_token() {
    let response = TwitterResponse {
        data: vec![tweet("1", "a")],
        meta: TwitterResponseMeta { next_token: None },
    };
    let page = to_page(response);
    assert_eq!(page.items.len(), 1);
    assert_eq!(page.next_cursor, None);
}
