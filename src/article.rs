//! An article link, as a scraper collects them.
use vstd::prelude::*;

verus! {

/// A titled link.
#[derive(Clone, Debug, PartialEq, Eq)]
pub struct Article {
    pub title: String,
    pub link: String,
}

} // verus!
