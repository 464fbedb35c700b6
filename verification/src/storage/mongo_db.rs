//! The record stored for each crawled page.
use vstd::prelude::*;

verus! {

/// A crawled page as it is stored: its URL, title, description and text.
#[derive(Debug)]
pub struct Page {
    pub url: String,
    pub title: String,
    pub description: String,
    pub content: String,
}

/// The contents of a `Page`.
pub struct PageRecord {
    pub url: Seq<char>,
    pub title: Seq<char>,
    pub description: Seq<char>,
    pub content: Seq<char>,
}

impl View for Page {
    type V = PageRecord;

    open spec fn view(&self) -> PageRecord {
        PageRecord {
            url: self.url@,
            title: self.title@,
            description: self.description@,
            content: self.content@,
        }
    }
}

} // verus!
