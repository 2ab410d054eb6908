//! The failures a fetch cycle can meet.

use vstd::prelude::*;

verus! {

/// Why a source gave no items.
#[derive(Debug)]
pub enum FetchError {
    /// The source could not be reached.
    Transport(String),
    /// The response did not have the expected shape.
    Decode(String),
}

/// What a `FetchError` stands for.
pub enum FetchErrorView {
    Transport(Seq<char>),
    Decode(Seq<char>),
}

impl View for FetchError {
    type V = FetchErrorView;

    open spec fn view(&self) -> FetchErrorView {
        match self {
            FetchError::Transport(m) => FetchErrorView::Transport(m@),
            FetchError::Decode(m) => FetchErrorView::Decode(m@),
        }
    }
}

impl FetchError {
    /// The text that came with the failure.
    pub fn message(&self) -> (m: String)
        ensures
            m@ == match self@ {
                FetchErrorView::Transport(t) => t,
                FetchErrorView::Decode(t) => t,
            },
    {
        match self {
            FetchError::Transport(m) => m.clone(),
            FetchError::Decode(m) => m.clone(),
        }
    }
}

impl Clone for FetchError {
    fn clone(&self) -> (r: Self)
        ensures
            r == *self,
    {
        match self {
            FetchError::Transport(m) => FetchError::Transport(m.clone()),
            FetchError::Decode(m) => FetchError::Decode(m.clone()),
        }
    }
}

/// Why the store refused a call.
#[derive(Debug)]
pub enum StoreError {
    /// The store could not be reached.
    Transport(String),
    /// The store turned the write down; the text says why.
    Rejected(String),
}

/// What a `StoreError` stands for.
pub enum StoreErrorView {
    Transport(Seq<char>),
    Rejected(Seq<char>),
}

impl View for StoreError {
    type V = StoreErrorView;

    open spec fn view(&self) -> StoreErrorView {
        match self {
            StoreError::Transport(m) => StoreErrorView::Transport(m@),
            StoreError::Rejected(m) => StoreErrorView::Rejected(m@),
        }
    }
}

impl StoreError {
    /// The text that came with the failure.
    pub fn message(&self) -> (m: String)
        ensures
            m@ == match self@ {
                StoreErrorView::Transport(t) => t,
                StoreErrorView::Rejected(t) => t,
            },
    {
        match self {
            StoreError::Transport(m) => m.clone(),
            StoreError::Rejected(m) => m.clone(),
        }
    }
}

impl Clone for StoreError {
    fn clone(&self) -> (r: Self)
        ensures
            r == *self,
    {
        match self {
            StoreError::Transport(m) => StoreError::Transport(m.clone()),
            StoreError::Rejected(m) => StoreError::Rejected(m.clone()),
        }
    }
}

} // verus!
