//! The decisions of the storage layer: the query for saved links and the form in which
//! a domain override is stored.
use vstd::prelude::*;
use crate::text::{push_str, string_of};
use crate::unicode::{to_lowercase, unicode_lowercase, is_ascii_text, ascii_lower_char};

verus! {

/// The query that lists saved links, newest first, only the unread ones when asked.
pub open spec fn read_it_later_query_text(unread_only: bool) -> Seq<char> {
    "SELECT id, url, read, created_at FROM read_it_later"@ + (if unread_only {
        " WHERE read = 0"@
    } else {
        Seq::empty()
    }) + " ORDER BY created_at DESC"@
}

/// The query that lists saved links.
pub fn read_it_later_query(unread_only: bool) -> (q: String)
    ensures
        q@ == read_it_later_query_text(unread_only),
{
    let mut out: Vec<char> = Vec::new();
    push_str(&mut out, "SELECT id, url, read, created_at FROM read_it_later");
    if unread_only {
        push_str(&mut out, " WHERE read = 0");
    }
    push_str(&mut out, " ORDER BY created_at DESC");
    assert(out@ =~= read_it_later_query_text(unread_only));
    string_of(&out)
}

/// The form in which a domain override is stored: the domain in lower case.
pub fn normalize_domain(domain: &str) -> (d: String)
    ensures
        d@ == unicode_lowercase(domain@),
        is_ascii_text(domain@) ==> d@ == domain@.map_values(|c: char| ascii_lower_char(c)),
{
    to_lowercase(domain)
}

} // verus!
