//! The steps of building a digest that decide rather than fetch: the window of articles,
//! the file names, the temporary path, and the articles of a "read it later" digest.
use vstd::prelude::*;
use crate::feed::{Article, ArticleSource};
use crate::links::opt_view;
use crate::text::{push_str, string_of};

verus! {

/// Why no digest is built.
#[derive(Debug, Clone, Copy, PartialEq, Eq, Structural)]
pub enum ProcessorError {
    NoArticles,
    NoContent,
}

impl ProcessorError {
    /// The message that reports the error.
    pub fn message(&self) -> (m: String)
        ensures
            m@ == match *self {
                ProcessorError::NoArticles => "No articles found in the last 24 hours."@,
                ProcessorError::NoContent => "No content could be fetched."@,
            },
    {
        match self {
            ProcessorError::NoArticles => "No articles found in the last 24 hours.".to_owned(),
            ProcessorError::NoContent => "No content could be fetched.".to_owned(),
        }
    }
}

/// An RSS digest needs at least one article from the window.
pub fn check_articles_found(count: usize) -> (r: Result<(), ProcessorError>)
    ensures
        r is Ok <==> count > 0,
        r is Err ==> r == Err::<(), ProcessorError>(ProcessorError::NoArticles),
{
    if count == 0 {
        Err(ProcessorError::NoArticles)
    } else {
        Ok(())
    }
}

/// A "read it later" digest needs at least one article.
pub fn check_content_fetched(count: usize) -> (r: Result<(), ProcessorError>)
    ensures
        r is Ok <==> count > 0,
        r is Err ==> r == Err::<(), ProcessorError>(ProcessorError::NoContent),
{
    if count == 0 {
        Err(ProcessorError::NoContent)
    } else {
        Ok(())
    }
}

/// The number of hours of articles to take: the schedule's override, else the setting.
pub fn effective_fetch_hours(override_hours: Option<i32>, configured: i32) -> (h: i32)
    ensures
        h == match override_hours {
            Some(o) => o,
            None => configured,
        },
{
    match override_hours {
        Some(o) => o,
        None => configured,
    }
}

/// The oldest publication time, in seconds, of the articles a digest takes at time `now`.
pub fn fetch_since(now: i64, hours: i32) -> (since: i64)
    requires
        i64::MIN <= now - hours * 3600 <= i64::MAX,
    ensures
        since == now - hours * 3600,
{
    now - (hours as i64) * 3600
}

/// The file name of an RSS digest built at the time written `stamp`.
pub fn rss_digest_filename(stamp: &str) -> (r: String)
    ensures
        r@ == "rss_digest_"@ + stamp@ + ".epub"@,
{
    let mut out: Vec<char> = Vec::new();
    push_str(&mut out, "rss_digest_");
    push_str(&mut out, stamp);
    push_str(&mut out, ".epub");
    string_of(&out)
}

/// The file name of a "read it later" digest built at the time written `stamp`.
pub fn read_it_later_filename(stamp: &str) -> (r: String)
    ensures
        r@ == "read_it_later_"@ + stamp@ + ".epub"@,
{
    let mut out: Vec<char> = Vec::new();
    push_str(&mut out, "read_it_later_");
    push_str(&mut out, stamp);
    push_str(&mut out, ".epub");
    string_of(&out)
}

/// The path of file `filename` in directory `dir`.
pub fn output_path(dir: &str, filename: &str) -> (r: String)
    ensures
        r@ == dir@ + "/"@ + filename@,
{
    let mut out: Vec<char> = Vec::new();
    push_str(&mut out, dir);
    push_str(&mut out, "/");
    push_str(&mut out, filename);
    string_of(&out)
}

/// What `Path::parent` returns for the path `p`.
pub uninterp spec fn std_path_parent(p: Seq<char>) -> Option<Seq<char>>;

/// What `Path::file_name` returns for the path `p`.
pub uninterp spec fn std_path_file_name(p: Seq<char>) -> Option<Seq<char>>;

/// What `Path::join` returns for base `base` and path `name`.
pub uninterp spec fn std_path_join(base: Seq<char>, name: Seq<char>) -> Seq<char>;

/// `Path::new(p).parent()`. The contract claims only that the result is the standard
/// library's parent of `p`, a function of `p` alone; how paths are split is not stated.
#[verifier::external_body]
fn path_parent(p: &str) -> (r: Option<String>)
    ensures
        opt_view(r) == std_path_parent(p@),
{
    match std::path::Path::new(p).parent() {
        Some(d) => Some(d.to_string_lossy().into_owned()),
        None => None,
    }
}

/// `Path::new(p).file_name()`. The contract claims only that the result is the standard
/// library's last component of `p`, a function of `p` alone.
#[verifier::external_body]
fn path_file_name(p: &str) -> (r: Option<String>)
    ensures
        opt_view(r) == std_path_file_name(p@),
{
    match std::path::Path::new(p).file_name() {
        Some(n) => Some(n.to_string_lossy().into_owned()),
        None => None,
    }
}

/// `Path::new(base).join(name)`. The contract claims only that the result is the
/// standard library's join, a function of its arguments alone.
#[verifier::external_body]
fn path_join(base: &str, name: &str) -> (r: String)
    ensures
        r@ == std_path_join(base@, name@),
{
    std::path::Path::new(base).join(name).to_string_lossy().into_owned()
}

/// The temporary path a digest is written to before it is moved to `output_path`: the
/// file name with `.part` appended, in the same directory (the current one when the
/// path has no parent).
pub open spec fn temp_path_of(output_path: Seq<char>) -> Seq<char> {
    let dir = match std_path_parent(output_path) {
        Some(d) => d,
        None => "."@,
    };
    let name = match std_path_file_name(output_path) {
        Some(n) => n,
        None => Seq::empty(),
    };
    std_path_join(dir, name + ".part"@)
}

/// The temporary path a digest is written to before it is moved to `output_path`.
pub fn get_temp_file_path(output_path: &str) -> (r: String)
    ensures
        r@ == temp_path_of(output_path@),
{
    let dir = match path_parent(output_path) {
        Some(d) => d,
        None => ".".to_owned(),
    };
    let name = match path_file_name(output_path) {
        Some(n) => n,
        None => String::new(),
    };
    let mut out: Vec<char> = Vec::new();
    push_str(&mut out, name.as_str());
    push_str(&mut out, ".part");
    let temp_name = string_of(&out);
    path_join(dir.as_str(), temp_name.as_str())
}

/// The publication time, in seconds, that chrono reads from an RFC 3339 timestamp, or
/// `None` when chrono does not accept it.
pub uninterp spec fn rfc3339_seconds(s: Seq<char>) -> Option<i64>;

/// `DateTime::parse_from_rfc3339(s)` followed by `timestamp()`. The contract claims only
/// that the result is chrono's reading of `s`, a function of `s` alone.
#[verifier::external_body]
fn parse_rfc3339_seconds(s: &str) -> (r: Option<i64>)
    ensures
        r == rfc3339_seconds(s@),
{
    match chrono::DateTime::parse_from_rfc3339(s) {
        Ok(d) => Some(d.timestamp()),
        Err(_) => None,
    }
}

/// The result of fetching the full content of a saved link: its title and content, or
/// the text of the error.
pub enum FetchOutcome {
    Fetched { title: String, content: String },
    Failed { error: String },
}

/// The article of a "read it later" digest for saved link `url`, at time `now`, when
/// the date it was saved reads as `saved_at`: the fetched page under the source `Read It
/// Later`, dated `saved_at` (or now if that date could not be read); or, when the fetch
/// failed, a page that reports the error under the source `Read It Later Errors`, dated now.
pub fn saved_link_article(url: &str, saved_at: Option<i64>, now: i64, outcome: FetchOutcome) -> (a: Article)
    ensures
        a.link@ == url@,
        a.article_source.position == 0,
        a.article_source.category is None,
        match outcome {
            FetchOutcome::Fetched { title, content } => {
                &&& a.title@ == title@
                &&& a.content@ == content@
                &&& a.article_source.source@ == "Read It Later"@
                &&& a.pub_date == match saved_at {
                    Some(t) => t,
                    None => now,
                }
            },
            FetchOutcome::Failed { error } => {
                &&& a.title@ == "Error: "@ + url@
                &&& a.content@ == "<p>Failed to fetch content: "@ + error@ + "</p>"@
                &&& a.article_source.source@ == "Read It Later Errors"@
                &&& a.pub_date == now
            },
        },
{
    match outcome {
        FetchOutcome::Fetched { title, content } => {
            let pub_date = match saved_at {
                Some(t) => t,
                None => now,
            };
            Article {
                title,
                link: url.to_owned(),
                content,
                pub_date,
                article_source: ArticleSource {
                    source: "Read It Later".to_owned(),
                    position: 0,
                    category: None,
                },
            }
        },
        FetchOutcome::Failed { error } => {
            let mut t: Vec<char> = Vec::new();
            push_str(&mut t, "Error: ");
            push_str(&mut t, url);
            let mut c: Vec<char> = Vec::new();
            push_str(&mut c, "<p>Failed to fetch content: ");
            push_str(&mut c, error.as_str());
            push_str(&mut c, "</p>");
            Article {
                title: string_of(&t),
                link: url.to_owned(),
                content: string_of(&c),
                pub_date: now,
                article_source: ArticleSource {
                    source: "Read It Later Errors".to_owned(),
                    position: 0,
                    category: None,
                },
            }
        },
    }
}

/// The article of a "read it later" digest for saved link `url`, saved at `created_at`
/// (an RFC 3339 timestamp), at time `now`.
pub fn read_it_later_article(url: &str, created_at: &str, now: i64, outcome: FetchOutcome) -> (a: Article)
    ensures
        a.link@ == url@,
        a.article_source.position == 0,
        a.article_source.category is None,
        match outcome {
            FetchOutcome::Fetched { title, content } => {
                &&& a.title@ == title@
                &&& a.content@ == content@
                &&& a.article_source.source@ == "Read It Later"@
                &&& a.pub_date == match rfc3339_seconds(created_at@) {
                    Some(t) => t,
                    None => now,
                }
            },
            FetchOutcome::Failed { error } => {
                &&& a.title@ == "Error: "@ + url@
                &&& a.content@ == "<p>Failed to fetch content: "@ + error@ + "</p>"@
                &&& a.article_source.source@ == "Read It Later Errors"@
                &&& a.pub_date == now
            },
        },
{
    let saved_at = match outcome {
        FetchOutcome::Fetched { .. } => parse_rfc3339_seconds(created_at),
        FetchOutcome::Failed { .. } => None,
    };
    saved_link_article(url, saved_at, now, outcome)
}

} // verus!
