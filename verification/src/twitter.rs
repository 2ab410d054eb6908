//! The tweet search source: cursor-paged keyword search whose retweets are
//! left out.

use vstd::prelude::*;
use crate::item::{item_id, make_id, Shareable, ShareableView};
use crate::pagination::{text_of, Page, PageView};
use crate::text::{contains, contains_text};
use crate::url::{
    decoded_value, encode_value, encoded_value, leading_value, lemma_decoded_value,
    lemma_encoded_chars, lemma_encoded_value_is_leading,
};
use vstd::utf8::encode_utf8;

verus! {

/// One tweet as the search endpoint returns it.
#[derive(Debug)]
pub struct TwitterResponseItem {
    pub id: String,
    pub text: String,
    pub created_at: String,
}

/// The paging data of a search response.
#[derive(Debug)]
pub struct TwitterResponseMeta {
    pub next_token: Option<String>,
}

/// One decoded search response.
#[derive(Debug)]
pub struct TwitterResponse {
    pub data: Vec<TwitterResponseItem>,
    pub meta: TwitterResponseMeta,
}

/// What a `TwitterResponseItem` stands for.
pub struct TweetView {
    pub id: Seq<char>,
    pub text: Seq<char>,
    pub created_at: Seq<char>,
}

impl View for TwitterResponseItem {
    type V = TweetView;

    open spec fn view(&self) -> TweetView {
        TweetView { id: self.id@, text: self.text@, created_at: self.created_at@ }
    }
}

impl DeepView for TwitterResponseItem {
    type V = TweetView;

    open spec fn deep_view(&self) -> TweetView {
        self@
    }
}

/// The fixed part of every address: the endpoint and the parameters that
/// do not depend on the keyword, up to and with `query=`.
pub open spec fn search_prefix() -> Seq<char> {
    "https://api.twitter.com/2/tweets/search/recent?max_results=100&tweet.fields=created_at&query="@
}

/// What stands between the keyword and the cursor.
pub open spec fn cursor_prefix() -> Seq<char> {
    "&next_token="@
}

/// The address of the first page of results for `query`: the fixed part,
/// then the keyword as a value of the query.
pub open spec fn first_page_url(query: Seq<char>) -> Seq<char> {
    search_prefix() + encoded_value(query)
}

/// The address of the page of results for `query` that `cursor` leads to:
/// that of the first page, followed by the cursor as a value of the query
/// where there is one.
pub open spec fn search_url(query: Seq<char>, cursor: Option<Seq<char>>) -> Seq<char> {
    match cursor {
        None => first_page_url(query),
        Some(token) => first_page_url(query) + cursor_prefix() + encoded_value(token),
    }
}

/// A tweet is a retweet when its text holds the marker `RT`.
pub open spec fn is_retweet(text: Seq<char>) -> bool {
    contains_text(text, "RT"@)
}

/// The item that a tweet becomes.
pub open spec fn tweet_item(t: TweetView) -> ShareableView {
    ShareableView {
        id: item_id("twitter"@, t.id),
        title: t.text,
        date: t.created_at,
        url: "https://twitter.com/twitter/status/"@ + t.id,
        source: "twitter"@,
    }
}

/// The item that a tweet becomes, or `None` for a retweet.
pub open spec fn normalize_tweet(t: TweetView) -> Option<ShareableView> {
    if is_retweet(t.text) {
        None
    } else {
        Some(tweet_item(t))
    }
}

/// The items of the tweets that are no retweets, in the order of the tweets.
pub open spec fn normalize_tweets(tweets: Seq<TweetView>) -> Seq<ShareableView> {
    tweets.filter_map(|t: TweetView| normalize_tweet(t))
}

/// The page that a search response becomes.
pub open spec fn response_page(data: Seq<TweetView>, next_token: Option<Seq<char>>) -> PageView {
    PageView { items: normalize_tweets(data), next_cursor: next_token }
}

/// Builds the address to ask for the results for `query`, from the start or
/// from where `cursor` points.
pub fn build_search_url(query: &str, cursor: &Option<String>) -> (url: String)
    ensures
        url@ == search_url(query@, text_of(*cursor)),
{
    let mut url = String::from_str(
        "https://api.twitter.com/2/tweets/search/recent?max_results=100&tweet.fields=created_at&query=",
    );
    url.append(encode_value(query).as_str());
    match cursor {
        None => {},
        Some(token) => {
            url.append("&next_token=");
            url.append(encode_value(token.as_str()).as_str());
        },
    }
    url
}

/// Every address carries the keyword, whatever characters it holds: the
/// value behind `query=` is the encoded keyword and decodes to the keyword,
/// and the fixed parameters before it stand as they are. Where there is a
/// cursor, the value behind `next_token=` is the encoded cursor and decodes
/// to the cursor; where there is none, the address ends with the keyword.
/// Nothing behind the fixed parameters is a `#`.
pub proof fn lemma_search_url_carries_query(query: Seq<char>, cursor: Option<Seq<char>>)
    ensures
        search_prefix().is_prefix_of(search_url(query, cursor)),
        leading_value(search_url(query, cursor).skip(search_prefix().len() as int))
            == encoded_value(query),
        decoded_value(
            leading_value(search_url(query, cursor).skip(search_prefix().len() as int)),
        ) == query,
        match cursor {
            None => search_url(query, cursor).len() == search_prefix().len() + encoded_value(
                query,
            ).len(),
            Some(token) => {
                let at: int = (search_prefix().len() + encoded_value(query).len()) as int;
                let end: int = at + cursor_prefix().len();
                &&& search_url(query, cursor).subrange(at, end) == cursor_prefix()
                &&& search_url(query, cursor).skip(end) == encoded_value(token)
                &&& leading_value(search_url(query, cursor).skip(end)) == encoded_value(token)
                &&& decoded_value(encoded_value(token)) == token
            },
        },
        forall|k: int|
            search_prefix().len() <= k < search_url(query, cursor).len() ==> (
            #[trigger] search_url(query, cursor)[k]) != '#',
{
    assert forall|k: int|
        search_prefix().len() <= k < search_url(query, cursor).len() implies (
    #[trigger] search_url(query, cursor)[k]) != '#' by {
        let start = search_prefix().len() as int;
        let mid = start + encoded_value(query).len();
        if k < mid {
            lemma_encoded_chars(encode_utf8(query), k - start);
        } else {
            let token = cursor->0;
            let end = mid + cursor_prefix().len();
            reveal_strlit("&next_token=");
            if k < end {
                assert(search_url(query, cursor)[k] == cursor_prefix()[k - mid]);
            } else {
                lemma_encoded_chars(encode_utf8(token), k - end);
            }
        }
    }
    let url = search_url(query, cursor);
    let prefix = search_prefix();
    let value = encoded_value(query);
    lemma_decoded_value(query);
    match cursor {
        None => {
            assert(url.skip(prefix.len() as int) =~= value + Seq::<char>::empty());
            lemma_encoded_value_is_leading(query, Seq::<char>::empty());
        },
        Some(token) => {
            let rest = cursor_prefix() + encoded_value(token);
            reveal_strlit("&next_token=");
            assert(rest[0] == '&');
            assert(url.skip(prefix.len() as int) =~= value + rest);
            lemma_encoded_value_is_leading(query, rest);
            let at: int = (prefix.len() + value.len()) as int;
            let end: int = at + cursor_prefix().len();
            assert(url.subrange(at, end) =~= cursor_prefix());
            assert(url.skip(end) =~= encoded_value(token));
            assert(encoded_value(token) + Seq::<char>::empty() =~= encoded_value(token));
            lemma_encoded_value_is_leading(token, Seq::<char>::empty());
            lemma_decoded_value(token);
        },
    }
}

/// Turns one tweet into an item; a retweet gives `None`.
pub fn normalize(item: &TwitterResponseItem) -> (r: Option<Shareable>)
    ensures
        r.deep_view() == normalize_tweet(item@),
{
    if contains(item.text.as_str(), "RT") {
        return None;
    }
    let mut url = String::from_str("https://twitter.com/twitter/status/");
    url.append(item.id.as_str());
    Some(
        Shareable {
            id: make_id("twitter", item.id.as_str()),
            title: item.text.clone(),
            date: item.created_at.clone(),
            url,
            source: String::from_str("twitter"),
        },
    )
}

/// Turns the tweets of one response into items, leaving the retweets out.
pub fn normalize_all(data: &Vec<TwitterResponseItem>) -> (items: Vec<Shareable>)
    ensures
        items.deep_view() == normalize_tweets(data.deep_view()),
{
    let mut items: Vec<Shareable> = Vec::new();
    let ghost f = |t: TweetView| normalize_tweet(t);
    let mut i: usize = 0;
    while i < data.len()
        invariant
            i <= data.len(),
            f == (|t: TweetView| normalize_tweet(t)),
            items.deep_view() == data.deep_view().take(i as int).filter_map(f),
        decreases data.len() - i,
    {
        let ghost before = items.deep_view();
        proof {
            data.deep_view().lemma_filter_map_take_succ(f, i as int);
        }
        match normalize(&data[i]) {
            Some(item) => {
                items.push(item);
                assert(items.deep_view() =~= before + seq![item@]);
            },
            None => {},
        }
        i += 1;
    }
    assert(data.deep_view().take(data.len() as int) =~= data.deep_view());
    items
}

/// Turns one decoded response into a page for the pagination driver.
pub fn to_page(response: TwitterResponse) -> (page: Page)
    ensures
        page@ == response_page(response.data.deep_view(), text_of(response.meta.next_token)),
{
    let items = normalize_all(&response.data);
    Page { items, next_cursor: response.meta.next_token }
}

/// Exclusion is exact: an item is among the normalized ones if and only if
/// some tweet of the batch that is no retweet becomes it.
pub proof fn lemma_only_unexcluded_surface(tweets: Seq<TweetView>, x: ShareableView)
    ensures
        normalize_tweets(tweets).contains(x) <==> exists|i: int|
            0 <= i < tweets.len() && !is_retweet((#[trigger] tweets[i]).text) && tweet_item(
                tweets[i],
            ) == x,
    decreases tweets.len(),
{
    let f = |t: TweetView| normalize_tweet(t);
    if tweets.len() > 0 {
        let rest = tweets.drop_last();
        let last = tweets.last();
        lemma_only_unexcluded_surface(rest, x);
        let out_rest = rest.filter_map(f);
        if normalize_tweets(tweets).contains(x) {
            let k = choose|k: int|
                0 <= k < normalize_tweets(tweets).len() && normalize_tweets(tweets)[k] == x;
            if k < out_rest.len() {
                assert(out_rest[k] == x);
                assert(out_rest.contains(x));
                let i = choose|i: int|
                    0 <= i < rest.len() && !is_retweet((#[trigger] rest[i]).text) && tweet_item(
                        rest[i],
                    ) == x;
                assert(tweets[i] == rest[i]);
            } else {
                assert(tweets[tweets.len() - 1] == last);
            }
        }
        if exists|i: int|
            0 <= i < tweets.len() && !is_retweet((#[trigger] tweets[i]).text) && tweet_item(
                tweets[i],
            ) == x {
            let i = choose|i: int|
                0 <= i < tweets.len() && !is_retweet((#[trigger] tweets[i]).text) && tweet_item(
                    tweets[i],
                ) == x;
            if i < rest.len() {
                assert(rest[i] == tweets[i]);
                assert(out_rest.contains(x));
                let k = choose|k: int| 0 <= k < out_rest.len() && out_rest[k] == x;
                assert(normalize_tweets(tweets)[k] == x);
            } else {
                assert(normalize_tweets(tweets) == out_rest + seq![x]);
                assert(normalize_tweets(tweets)[out_rest.len() as int] == x);
            }
        }
    }
}

/// No retweet is ever handed on: none of the normalized items carries the
/// retweet marker in its title.
pub proof fn lemma_no_retweet_surfaces(tweets: Seq<TweetView>, k: int)
    requires
        0 <= k < normalize_tweets(tweets).len(),
    ensures
        !is_retweet(normalize_tweets(tweets)[k].title),
{
    let x = normalize_tweets(tweets)[k];
    assert(normalize_tweets(tweets).contains(x));
    lemma_only_unexcluded_surface(tweets, x);
}

/// A response whose tweets are all retweets gives a page without items that
/// still carries the response's token on.
pub proof fn lemma_all_excluded_page(data: Seq<TweetView>, next_token: Option<Seq<char>>)
    requires
        forall|i: int| 0 <= i < data.len() ==> is_retweet((#[trigger] data[i]).text),
    ensures
        response_page(data, next_token).items.len() == 0,
        response_page(data, next_token).next_cursor == next_token,
    decreases data.len(),
{
    if data.len() > 0 {
        assert(data.drop_last().len() < data.len());
        assert forall|i: int| 0 <= i < data.drop_last().len() implies is_retweet(
            (#[trigger] data.drop_last()[i]).text,
        ) by {
            assert(data.drop_last()[i] == data[i]);
        }
        lemma_all_excluded_page(data.drop_last(), next_token);
        assert(is_retweet(data[data.len() - 1].text));
    }
}

} // verus!
