//! The item model: one discoverable unit of content and its identity.

use std::cmp::Ordering;
use vstd::prelude::*;
use vstd::std_specs::cmp::PartialEqSpecImpl;
use vstd::std_specs::cmp::PartialOrdSpecImpl;
use crate::text::{less_than, text_lt};

verus! {

/// One discoverable unit of content, as handed to the store.
#[derive(Debug)]
pub struct Shareable {
    /// `"<source>-<native id>"`; the only deduplication key.
    pub id: String,
    pub title: String,
    /// Display date; plays no part in identity.
    pub date: String,
    pub url: String,
    /// Name of the adapter that produced the item.
    pub source: String,
}

/// What a `Shareable` stands for: its five texts.
pub struct ShareableView {
    pub id: Seq<char>,
    pub title: Seq<char>,
    pub date: Seq<char>,
    pub url: Seq<char>,
    pub source: Seq<char>,
}

impl View for Shareable {
    type V = ShareableView;

    open spec fn view(&self) -> ShareableView {
        ShareableView {
            id: self.id@,
            title: self.title@,
            date: self.date@,
            url: self.url@,
            source: self.source@,
        }
    }
}

impl DeepView for Shareable {
    type V = ShareableView;

    open spec fn deep_view(&self) -> ShareableView {
        self@
    }
}

/// The identifier of the item that `source` knows as `native`.
pub open spec fn item_id(source: Seq<char>, native: Seq<char>) -> Seq<char> {
    source + seq!['-'] + native
}

/// Two items are the same entity exactly when their identifiers agree.
pub open spec fn same_entity(a: ShareableView, b: ShareableView) -> bool {
    a.id == b.id
}

/// The identifiers of `items`, in order.
pub open spec fn ids_of(items: Seq<ShareableView>) -> Seq<Seq<char>> {
    items.map_values(|s: ShareableView| s.id)
}

/// Builds the identifier of the item that `source` knows as `native`.
pub fn make_id(source: &str, native: &str) -> (id: String)
    ensures
        id@ == item_id(source@, native@),
{
    let mut id = String::from_str(source);
    proof {
        reveal_strlit("-");
    }
    id.append("-");
    id.append(native);
    assert(id@ =~= item_id(source@, native@));
    id
}

impl Shareable {
    /// Whether `self` and `other` are the same entity.
    pub fn same_entity(&self, other: &Shareable) -> (r: bool)
        ensures
            r == same_entity(self@, other@),
    {
        self.id == other.id
    }
}

impl Clone for Shareable {
    fn clone(&self) -> (r: Self)
        ensures
            r == *self,
    {
        Shareable {
            id: self.id.clone(),
            title: self.title.clone(),
            date: self.date.clone(),
            url: self.url.clone(),
            source: self.source.clone(),
        }
    }
}

impl PartialEq for Shareable {
    fn eq(&self, other: &Shareable) -> (r: bool) {
        self.id == other.id && self.title == other.title && self.date == other.date && self.url
            == other.url && self.source == other.source
    }
}

impl PartialEqSpecImpl for Shareable {
    open spec fn obeys_eq_spec() -> bool {
        true
    }

    open spec fn eq_spec(&self, other: &Shareable) -> bool {
        self@ == other@
    }
}

/// How two display dates stand to each other in the order of strings.
pub open spec fn date_order(a: Seq<char>, b: Seq<char>) -> Ordering {
    if text_lt(a, b) {
        Ordering::Less
    } else if text_lt(b, a) {
        Ordering::Greater
    } else {
        Ordering::Equal
    }
}

/// Items are ordered by their display date alone.
impl PartialOrd for Shareable {
    fn partial_cmp(&self, other: &Shareable) -> (r: Option<Ordering>) {
        if less_than(self.date.as_str(), other.date.as_str()) {
            Some(Ordering::Less)
        } else if less_than(other.date.as_str(), self.date.as_str()) {
            Some(Ordering::Greater)
        } else {
            Some(Ordering::Equal)
        }
    }
}

impl PartialOrdSpecImpl for Shareable {
    open spec fn obeys_partial_cmp_spec() -> bool {
        true
    }

    open spec fn partial_cmp_spec(&self, other: &Shareable) -> Option<Ordering> {
        Some(date_order(self.date@, other.date@))
    }
}

} // verus!
