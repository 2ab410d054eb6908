//! What the listing shows: titles with their state markers turned into
//! symbols, items grouped by source, and items ordered by date.

use vstd::prelude::*;
use crate::item::{Shareable, ShareableView};
use crate::text::{
    contains, contains_text, lemma_text_lt_asymmetric, lemma_text_not_lt_chain, less_than,
    replace_all, replace_text, text_lt,
};

verus! {

/// A title as it is shown: each state marker replaced by its symbol.
pub open spec fn shown_title(title: Seq<char>) -> Seq<char> {
    replace_text(
        replace_text(
            replace_text(title, ":question:"@, "❓"@),
            ":white_check_mark:"@,
            "✅"@,
        ),
        ":waiting-spin:"@,
        "🔄"@,
    )
}

/// Items whose title says that a dependency was updated are not listed.
pub open spec fn is_hidden(title: Seq<char>) -> bool {
    contains_text(title, "[Dependency Updated]"@)
}

/// One entry of a list: a link to `url` that reads `title`.
pub open spec fn entry_html(url: Seq<char>, title: Seq<char>) -> Seq<char> {
    "<li><a href=\""@ + url + "\">"@ + title + "</a></li>"@
}

/// The title that an entry of `item` reads.
pub open spec fn entry_title(item: ShareableView, symbols: bool) -> Seq<char> {
    if symbols {
        shown_title(item.title)
    } else {
        item.title
    }
}

/// The entries of the items of `source`, in the order of the items, one
/// behind the other.
pub open spec fn source_entries(items: Seq<ShareableView>, source: Seq<char>, symbols: bool) -> Seq<
    char,
>
    decreases items.len(),
{
    if items.len() == 0 {
        Seq::empty()
    } else if items.last().source == source {
        source_entries(items.drop_last(), source, symbols) + entry_html(
            items.last().url,
            entry_title(items.last(), symbols),
        )
    } else {
        source_entries(items.drop_last(), source, symbols)
    }
}

/// An item as it is listed: its title shown, the rest as it is.
pub open spec fn shown(item: ShareableView) -> ShareableView {
    ShareableView { title: shown_title(item.title), ..item }
}

/// The item as it is listed, or `None` for a hidden one.
pub open spec fn listed(item: ShareableView) -> Option<ShareableView> {
    if is_hidden(shown_title(item.title)) {
        None
    } else {
        Some(shown(item))
    }
}

/// `sorted` with `x` put behind every item that is not older than `x`.
pub open spec fn insert_by_date(sorted: Seq<ShareableView>, x: ShareableView) -> Seq<
    ShareableView,
>
    decreases sorted.len(),
{
    if sorted.len() == 0 {
        seq![x]
    } else if text_lt(sorted.last().date, x.date) {
        insert_by_date(sorted.drop_last(), x).push(sorted.last())
    } else {
        sorted.push(x)
    }
}

/// The items from the newest date to the oldest; items of one date keep the
/// order they came in.
pub open spec fn newest_first(items: Seq<ShareableView>) -> Seq<ShareableView>
    decreases items.len(),
{
    if items.len() == 0 {
        Seq::empty()
    } else {
        insert_by_date(newest_first(items.drop_last()), items.last())
    }
}

/// No item stands before a newer one.
pub open spec fn dates_descend(items: Seq<ShareableView>) -> bool {
    forall|i: int, j: int| 0 <= i < j < items.len() ==> !text_lt(items[i].date, items[j].date)
}

/// The listing of `items`: the listed ones, shown, from the newest date to
/// the oldest.
pub open spec fn listing_of(items: Seq<ShareableView>) -> Seq<ShareableView> {
    newest_first(items.filter_map(|i: ShareableView| listed(i)))
}

/// Replaces each state marker in `title` by its symbol.
pub fn render_title(title: &str) -> (r: String)
    ensures
        r@ == shown_title(title@),
{
    let a = replace_all(title, ":question:", "❓");
    let b = replace_all(a.as_str(), ":white_check_mark:", "✅");
    replace_all(b.as_str(), ":waiting-spin:", "🔄")
}

/// Whether an item with this title is left out of the listing.
pub fn hidden(title: &str) -> (r: bool)
    ensures
        r == is_hidden(title@),
{
    contains(title, "[Dependency Updated]")
}

/// Writes one entry of a list.
pub fn render_entry(url: &str, title: &str) -> (r: String)
    ensures
        r@ == entry_html(url@, title@),
{
    let mut r = String::from_str("<li><a href=\"");
    r.append(url);
    r.append("\">");
    r.append(title);
    r.append("</a></li>");
    r
}

/// Writes the entries of the items of `source`, in the order of the items.
/// With `symbols` set, the state markers in the titles become symbols.
pub fn render_entries(items: &Vec<Shareable>, source: &str, symbols: bool) -> (r: String)
    ensures
        r@ == source_entries(items.deep_view(), source@, symbols),
{
    let wanted = String::from_str(source);
    let mut r = String::new();
    let ghost all = items.deep_view();
    let mut i: usize = 0;
    while i < items.len()
        invariant
            i <= items.len(),
            all == items.deep_view(),
            wanted@ == source@,
            r@ == source_entries(all.take(i as int), source@, symbols),
        decreases items.len() - i,
    {
        proof {
            assert(all.take(i + 1).drop_last() =~= all.take(i as int));
            assert(all.take(i + 1).last() == items[i as int]@);
        }
        if items[i].source == wanted {
            let entry = if symbols {
                let title = render_title(items[i].title.as_str());
                render_entry(items[i].url.as_str(), title.as_str())
            } else {
                render_entry(items[i].url.as_str(), items[i].title.as_str())
            };
            r.append(entry.as_str());
        }
        i += 1;
    }
    assert(all.take(i as int) =~= all);
    r
}

/// The entries of the tweets among `items`, titles as they are.
pub fn twitter_entries(items: &Vec<Shareable>) -> (r: String)
    ensures
        r@ == source_entries(items.deep_view(), "twitter"@, false),
{
    render_entries(items, "twitter", false)
}

/// The entries of the questions among `items`, state markers as symbols.
pub fn stackoverflow_entries(items: &Vec<Shareable>) -> (r: String)
    ensures
        r@ == source_entries(items.deep_view(), "stackoverflow"@, true),
{
    render_entries(items, "stackoverflow", true)
}

/// Where the last `sorted.len() - at` items are older than `x` and the one
/// before them is not, `x` goes in at `at`.
pub proof fn lemma_insert_position(sorted: Seq<ShareableView>, x: ShareableView, at: int)
    requires
        0 <= at <= sorted.len(),
        forall|k: int| at <= k < sorted.len() ==> text_lt((#[trigger] sorted[k]).date, x.date),
        at > 0 ==> !text_lt(sorted[at - 1].date, x.date),
    ensures
        insert_by_date(sorted, x) == sorted.insert(at, x),
    decreases sorted.len() - at,
{
    if at == sorted.len() {
        assert(sorted.insert(at, x) =~= sorted.push(x));
    } else {
        let init = sorted.drop_last();
        assert(text_lt(sorted[sorted.len() - 1].date, x.date));
        assert forall|k: int| at <= k < init.len() implies text_lt(
            (#[trigger] init[k]).date,
            x.date,
        ) by {
            assert(init[k] == sorted[k]);
        }
        lemma_insert_position(init, x, at);
        assert(init.insert(at, x).push(sorted.last()) =~= sorted.insert(at, x));
    }
}

/// Puts `x` into `sorted`, behind every item that is not older than `x`.
pub fn insert_sorted(sorted: &mut Vec<Shareable>, x: Shareable)
    ensures
        final(sorted).deep_view() == insert_by_date(old(sorted).deep_view(), x@),
{
    let mut at: usize = sorted.len();
    while at > 0 && less_than(sorted[at - 1].date.as_str(), x.date.as_str())
        invariant
            at <= sorted.len(),
            forall|k: int|
                at <= k < sorted.len() ==> text_lt(
                    (#[trigger] sorted.deep_view()[k]).date,
                    x@.date,
                ),
        decreases at,
    {
        at -= 1;
    }
    proof {
        lemma_insert_position(sorted.deep_view(), x@, at as int);
    }
    let ghost before = sorted.deep_view();
    sorted.insert(at, x);
    assert(sorted.deep_view() =~= before.insert(at as int, x@));
}

/// Orders `items` from the newest date to the oldest; items of one date
/// keep the order they came in.
pub fn sort_newest_first(items: Vec<Shareable>) -> (sorted: Vec<Shareable>)
    ensures
        sorted.deep_view() == newest_first(items.deep_view()),
{
    let mut sorted: Vec<Shareable> = Vec::new();
    let ghost all = items.deep_view();
    assert(all.take(0) =~= Seq::empty());
    assert(sorted.deep_view() =~= Seq::empty());
    for item in it: items
        invariant
            it.seq() == items@,
            all == items.deep_view(),
            sorted.deep_view() == newest_first(all.take(it.index())),
    {
        proof {
            let i = it.index();
            assert(all.take(i + 1).drop_last() =~= all.take(i));
            assert(all.take(i + 1).last() == item@);
        }
        insert_sorted(&mut sorted, item);
    }
    assert(all.take(all.len() as int) =~= all);
    sorted
}

/// Prepares the listing: turns the state markers of each title into
/// symbols, leaves the hidden items out, and orders the rest from the newest
/// date to the oldest.
pub fn prepare_listing(items: Vec<Shareable>) -> (listing: Vec<Shareable>)
    ensures
        listing.deep_view() == listing_of(items.deep_view()),
{
    let mut kept: Vec<Shareable> = Vec::new();
    let ghost all = items.deep_view();
    let ghost f = |i: ShareableView| listed(i);
    assert(all.take(0) =~= Seq::empty());
    assert(kept.deep_view() =~= Seq::empty());
    for item in it: items
        invariant
            it.seq() == items@,
            all == items.deep_view(),
            f == (|i: ShareableView| listed(i)),
            kept.deep_view() == all.take(it.index()).filter_map(f),
    {
        let ghost before = kept.deep_view();
        proof {
            assert(all[it.index()] == item@);
            all.lemma_filter_map_take_succ(f, it.index());
        }
        let title = render_title(item.title.as_str());
        if !hidden(title.as_str()) {
            let Shareable { id, title: _, date, url, source } = item;
            let entry = Shareable { id, title, date, url, source };
            kept.push(entry);
            assert(kept.deep_view() =~= before + seq![entry@]);
        }
    }
    assert(all.take(all.len() as int) =~= all);
    sort_newest_first(kept)
}

/// Putting an item in adds that item and nothing else.
pub proof fn lemma_insert_permutes(sorted: Seq<ShareableView>, x: ShareableView)
    ensures
        insert_by_date(sorted, x).to_multiset() == sorted.to_multiset().insert(x),
    decreases sorted.len(),
{
    let r = insert_by_date(sorted, x);
    if sorted.len() == 0 {
        let none = Seq::<ShareableView>::empty();
        none.to_multiset_ensures();
        assert(sorted =~= none);
        assert(r =~= none.push(x));
        assert(none.push(x).to_multiset() =~= none.to_multiset().insert(x));
    } else if text_lt(sorted.last().date, x.date) {
        let init = sorted.drop_last();
        let last = sorted.last();
        let head = insert_by_date(init, x);
        lemma_insert_permutes(init, x);
        head.to_multiset_ensures();
        init.to_multiset_ensures();
        assert(init.push(last) =~= sorted);
        assert(r == head.push(last));
        assert(head.push(last).to_multiset() =~= head.to_multiset().insert(last));
        assert(init.push(last).to_multiset() =~= init.to_multiset().insert(last));
        assert(init.to_multiset().insert(x).insert(last) =~= init.to_multiset().insert(
            last,
        ).insert(x));
    } else {
        sorted.to_multiset_ensures();
        assert(r == sorted.push(x));
        assert(sorted.push(x).to_multiset() =~= sorted.to_multiset().insert(x));
    }
}

/// Putting an item into items whose dates descend leaves the dates
/// descending.
pub proof fn lemma_insert_descends(sorted: Seq<ShareableView>, x: ShareableView)
    requires
        dates_descend(sorted),
    ensures
        dates_descend(insert_by_date(sorted, x)),
    decreases sorted.len(),
{
    let r = insert_by_date(sorted, x);
    if sorted.len() == 0 {
    } else if text_lt(sorted.last().date, x.date) {
        let init = sorted.drop_last();
        let last = sorted.last();
        let head = insert_by_date(init, x);
        assert forall|i: int, j: int| 0 <= i < j < init.len() implies !text_lt(
            init[i].date,
            init[j].date,
        ) by {
            assert(init[i] == sorted[i] && init[j] == sorted[j]);
        }
        lemma_insert_descends(init, x);
        lemma_insert_permutes(init, x);
        head.to_multiset_ensures();
        init.to_multiset_ensures();
        assert forall|i: int, j: int| 0 <= i < j < r.len() implies !text_lt(
            r[i].date,
            r[j].date,
        ) by {
            if j == head.len() {
                let e = head[i];
                assert(head.contains(e));
                assert(head.to_multiset().count(e) > 0);
                if e == x {
                    lemma_text_lt_asymmetric(last.date, x.date);
                } else {
                    assert(init.to_multiset().count(e) > 0);
                    assert(init.contains(e));
                    let k = choose|k: int| 0 <= k < init.len() && init[k] == e;
                    assert(sorted[k] == e);
                    assert(!text_lt(sorted[k].date, sorted[sorted.len() - 1].date));
                }
            } else {
                assert(r[i] == head[i] && r[j] == head[j]);
            }
        }
    } else {
        assert forall|i: int, j: int| 0 <= i < j < r.len() implies !text_lt(
            r[i].date,
            r[j].date,
        ) by {
            if j == sorted.len() {
                if i < sorted.len() - 1 {
                    assert(!text_lt(sorted[i].date, sorted[sorted.len() - 1].date));
                    lemma_text_not_lt_chain(sorted[i].date, sorted.last().date, x.date);
                }
            }
        }
    }
}

/// The ordered items are the given items, each as often as it was given,
/// and no item stands before a newer one.
pub proof fn lemma_newest_first(items: Seq<ShareableView>)
    ensures
        newest_first(items).to_multiset() == items.to_multiset(),
        dates_descend(newest_first(items)),
    decreases items.len(),
{
    if items.len() == 0 {
        assert(newest_first(items) =~= items);
    } else {
        let init = items.drop_last();
        let last = items.last();
        lemma_newest_first(init);
        lemma_insert_permutes(newest_first(init), last);
        lemma_insert_descends(newest_first(init), last);
        init.to_multiset_ensures();
        assert(init.push(last) =~= items);
        assert(init.push(last).to_multiset() =~= init.to_multiset().insert(last));
        assert(newest_first(items).to_multiset() =~= items.to_multiset());
    }
}

} // verus!
