//! The question search source: one page of questions per keyword, each with
//! a state marker in its title and a display date.

use chrono::TimeZone;
use chrono::Utc;
use vstd::prelude::*;
use crate::error::{FetchError, FetchErrorView};
use crate::item::{item_id, make_id, Shareable, ShareableView};
use crate::pagination::{text_of, Page, PageView};
use crate::url::{
    decoded_value, encode_value, encoded_value, is_value_char, leading_value,
    lemma_decoded_value, lemma_encoded_chars, lemma_encoded_value_is_leading,
};
use vstd::utf8::encode_utf8;

verus! {

/// One question as the search endpoint returns it.
#[derive(Debug)]
pub struct StackOverflowQuestion {
    pub is_answered: bool,
    pub link: String,
    pub title: String,
    pub answer_count: i32,
    /// Seconds since the start of 1970, UTC.
    pub creation_date: i64,
}

/// One decoded search response.
#[derive(Debug)]
pub struct StackOverflowResponse {
    pub items: Vec<StackOverflowQuestion>,
}

/// What a `StackOverflowQuestion` stands for.
pub struct QuestionView {
    pub is_answered: bool,
    pub link: Seq<char>,
    pub title: Seq<char>,
    pub answer_count: int,
    pub creation_date: int,
}

impl View for StackOverflowQuestion {
    type V = QuestionView;

    open spec fn view(&self) -> QuestionView {
        QuestionView {
            is_answered: self.is_answered,
            link: self.link@,
            title: self.title@,
            answer_count: self.answer_count as int,
            creation_date: self.creation_date as int,
        }
    }
}

impl DeepView for StackOverflowQuestion {
    type V = QuestionView;

    open spec fn deep_view(&self) -> QuestionView {
        self@
    }
}

/// The text that chrono writes for the UTC calendar date of the moment
/// `secs` seconds after the start of 1970, or `None` where chrono has no
/// date for that moment.
pub uninterp spec fn utc_date_text(secs: int) -> Option<Seq<char>>;

/// Calls chrono: `Utc.timestamp_opt(secs, 0)`, then `single`, `date` and
/// `to_string`. The contract claims only that the answer is the same for the
/// same `secs`; it says nothing of what the text looks like, nor of which
/// moments have one. None of the calls panics: a moment out of range gives
/// `None`, and UTC has no offset that could push a date out of range.
#[verifier::external_body]
#[allow(deprecated)]
fn utc_date(secs: i64) -> (r: Option<String>)
    ensures
        text_of(r) == utc_date_text(secs as int),
{
    let moment = Utc.timestamp_opt(secs, 0).single()?;
    Some(moment.date().to_string())
}

/// The fixed part of every address: the endpoint and the parameters that
/// do not depend on the keyword, up to and with `q=`.
pub open spec fn search_prefix() -> Seq<char> {
    "https://api.stackexchange.com/2.3/search/advanced?order=desc&sort=activity&site=stackoverflow&q="@
}

/// The address of the results for `query`: the fixed part, then the keyword
/// as a value of the query.
pub open spec fn search_url(query: Seq<char>) -> Seq<char> {
    search_prefix() + encoded_value(query)
}

/// The marker for the state of a question: resolved, has answers, or open.
pub open spec fn state_marker(is_answered: bool, answer_count: int) -> Seq<char> {
    if is_answered {
        ":white_check_mark:"@
    } else if answer_count > 0 {
        ":waiting-spin:"@
    } else {
        ":question:"@
    }
}

/// The item that a question with the display date `date` becomes.
pub open spec fn question_item(q: QuestionView, date: Seq<char>) -> ShareableView {
    ShareableView {
        id: item_id("stackoverflow"@, q.link),
        title: state_marker(q.is_answered, q.answer_count) + " - "@ + q.title,
        date,
        url: q.link,
        source: "stackoverflow"@,
    }
}

/// The item that a question becomes, or `None` where its creation date has
/// no display date.
pub open spec fn normalize_question(q: QuestionView) -> Option<ShareableView> {
    match utc_date_text(q.creation_date) {
        Some(date) => Some(question_item(q, date)),
        None => None,
    }
}

/// Every question has a display date.
pub open spec fn all_dated(qs: Seq<QuestionView>) -> bool {
    forall|i: int| 0 <= i < qs.len() ==> utc_date_text((#[trigger] qs[i]).creation_date) is Some
}

/// The items of the questions, in the order of the questions.
pub open spec fn question_items(qs: Seq<QuestionView>) -> Seq<ShareableView> {
    qs.map_values(|q: QuestionView| question_item(q, utc_date_text(q.creation_date).unwrap()))
}

/// The page that a search response becomes: all its questions as items and
/// no token, or a decode failure where a creation date has no display date.
pub open spec fn response_page(qs: Seq<QuestionView>) -> Result<PageView, FetchErrorView> {
    if all_dated(qs) {
        Ok(PageView { items: question_items(qs), next_cursor: None })
    } else {
        Err(FetchErrorView::Decode("creation_date out of range"@))
    }
}

/// Builds the address to ask for the results for `query`.
pub fn build_search_url(query: &str) -> (url: String)
    ensures
        url@ == search_url(query@),
{
    let mut url = String::from_str(
        "https://api.stackexchange.com/2.3/search/advanced?order=desc&sort=activity&site=stackoverflow&q=",
    );
    url.append(encode_value(query).as_str());
    url
}

/// The address carries the keyword, whatever characters it holds: the value
/// behind `q=` is the encoded keyword and decodes to the keyword, the
/// address ends with it, the fixed parameters before it stand as they are,
/// and nothing behind them is a `#`, a `&` or any other delimiter.
pub proof fn lemma_search_url_carries_query(query: Seq<char>)
    ensures
        search_prefix().is_prefix_of(search_url(query)),
        search_url(query).skip(search_prefix().len() as int) == encoded_value(query),
        leading_value(search_url(query).skip(search_prefix().len() as int)) == encoded_value(
            query,
        ),
        decoded_value(leading_value(search_url(query).skip(search_prefix().len() as int)))
            == query,
        forall|k: int|
            search_prefix().len() <= k < search_url(query).len() ==> is_value_char(
                #[trigger] search_url(query)[k],
            ),
{
    let value = encoded_value(query);
    assert forall|k: int| search_prefix().len() <= k < search_url(query).len() implies is_value_char(
        #[trigger] search_url(query)[k],
    ) by {
        lemma_encoded_chars(encode_utf8(query), k - search_prefix().len());
    }
    assert(search_url(query).skip(search_prefix().len() as int) =~= value);
    assert(value + Seq::<char>::empty() =~= value);
    lemma_encoded_value_is_leading(query, Seq::<char>::empty());
    lemma_decoded_value(query);
}

/// The marker for the state of a question.
pub fn marker(is_answered: bool, answer_count: i32) -> (m: &'static str)
    ensures
        m@ == state_marker(is_answered, answer_count as int),
{
    if is_answered {
        ":white_check_mark:"
    } else if answer_count > 0 {
        ":waiting-spin:"
    } else {
        ":question:"
    }
}

/// Turns a question and its display date into an item.
pub fn question_to_item(q: &StackOverflowQuestion, date: String) -> (item: Shareable)
    ensures
        item@ == question_item(q@, date@),
{
    let mut title = String::from_str(marker(q.is_answered, q.answer_count));
    title.append(" - ");
    title.append(q.title.as_str());
    Shareable {
        id: make_id("stackoverflow", q.link.as_str()),
        title,
        date,
        url: q.link.clone(),
        source: String::from_str("stackoverflow"),
    }
}

/// Turns one question into an item; `None` where its creation date has no
/// display date.
pub fn normalize(q: &StackOverflowQuestion) -> (r: Option<Shareable>)
    ensures
        r.deep_view() == normalize_question(q@),
{
    match utc_date(q.creation_date) {
        Some(date) => Some(question_to_item(q, date)),
        None => None,
    }
}

/// Turns one decoded response into a page for the pagination driver.
pub fn to_page(response: &StackOverflowResponse) -> (r: Result<Page, FetchError>)
    ensures
        crate::pagination::response_view(r) == response_page(response.items.deep_view()),
{
    let mut items: Vec<Shareable> = Vec::new();
    let ghost qs = response.items.deep_view();
    let mut i: usize = 0;
    while i < response.items.len()
        invariant
            i <= response.items.len(),
            qs == response.items.deep_view(),
            all_dated(qs.take(i as int)),
            items.deep_view() == question_items(qs.take(i as int)),
        decreases response.items.len() - i,
    {
        let ghost before = items.deep_view();
        match normalize(&response.items[i]) {
            Some(item) => {
                items.push(item);
                assert(items.deep_view() =~= before.push(item@));
                assert(qs.take(i + 1) =~= qs.take(i as int).push(qs[i as int]));
                assert(question_items(qs.take(i + 1)) =~= question_items(qs.take(i as int)).push(
                    item@,
                ));
                assert forall|k: int| 0 <= k < qs.take(i + 1).len() implies utc_date_text(
                    (#[trigger] qs.take(i + 1)[k]).creation_date,
                ) is Some by {
                    if k < i {
                        assert(qs.take(i as int)[k] == qs.take(i + 1)[k]);
                    }
                }
            },
            None => {
                assert(utc_date_text(qs[i as int].creation_date) is None);
                return Err(FetchError::Decode(String::from_str("creation_date out of range")));
            },
        }
        i += 1;
    }
    assert(qs.take(i as int) =~= qs);
    Ok(Page { items, next_cursor: None })
}

} // verus!
