//! Articles as the digest builder receives them.
use vstd::prelude::*;

verus! {

/// The feed an article came from: its name, its position among the feeds and its
/// category, if it has one.
#[derive(Debug, Clone)]
pub struct ArticleSource {
    pub source: String,
    pub position: i64,
    pub category: Option<String>,
}

/// One article of a digest. `pub_date` is the publication time in seconds since the
/// Unix epoch, UTC.
#[derive(Debug, Clone)]
pub struct Article {
    pub title: String,
    pub link: String,
    pub content: String,
    pub pub_date: i64,
    pub article_source: ArticleSource,
}

/// The name of the source of `a`.
pub open spec fn source_name(a: Article) -> Seq<char> {
    a.article_source.source@
}

} // verus!
