//! Cleaning article HTML before it goes into a chapter: script elements are removed.
use vstd::prelude::*;
use crate::text::string_of;
use crate::unicode::ascii_lower_char;

verus! {

/// Character `c` is the lower-case pattern character `p`, ignoring ASCII case.
pub open spec fn ci_char_eq(c: char, p: char) -> bool {
    ascii_lower_char(c) == p
}

/// The lower-case pattern `pat` occurs in `s` at position `i`, ignoring ASCII case.
pub open spec fn matches_at(s: Seq<char>, i: int, pat: Seq<char>) -> bool {
    &&& 0 <= i
    &&& i + pat.len() <= s.len()
    &&& forall|j: int| 0 <= j < pat.len() ==> ci_char_eq(#[trigger] s[i + j], pat[j])
}

/// The first position at or after `i` where `pat` occurs in `s`, ignoring ASCII case.
pub open spec fn find_from(s: Seq<char>, pat: Seq<char>, i: int) -> Option<int>
    decreases s.len() - i,
{
    if i < 0 || i + pat.len() > s.len() {
        None
    } else if matches_at(s, i, pat) {
        Some(i)
    } else {
        find_from(s, pat, i + 1)
    }
}

/// The opening of a script element.
pub open spec fn script_open() -> Seq<char> {
    seq!['<', 's', 'c', 'r', 'i', 'p', 't']
}

/// The closing tag of a script element.
pub open spec fn script_close() -> Seq<char> {
    seq!['<', '/', 's', 'c', 'r', 'i', 'p', 't', '>']
}

/// What `find_from` finds lies where the pattern occurs, at or after `i`.
pub proof fn lemma_find_from(s: Seq<char>, pat: Seq<char>, i: int)
    ensures
        find_from(s, pat, i) matches Some(k) ==> i <= k && matches_at(s, k, pat),
        0 <= i && find_from(s, pat, i) is None ==> forall|k: int| i <= k && #[trigger] matches_at(s, k, pat) ==> false,
    decreases s.len() - i,
{
    if i < 0 || i + pat.len() > s.len() {
    } else if matches_at(s, i, pat) {
    } else {
        lemma_find_from(s, pat, i + 1);
        assert forall|k: int| i <= k && #[trigger] matches_at(s, k, pat) implies k != i && i + 1 <= k by {}
    }
}

/// Where a script element whose opening ends at `i` ends: just after the first
/// `</script>` from `i` on, or at the end of `s` when it is never closed.
pub open spec fn script_end(s: Seq<char>, i: int) -> int {
    match find_from(s, script_close(), i) {
        Some(j) => j + 9,
        None => s.len() as int,
    }
}

/// `s` with every script element removed: from each `<script` (in any ASCII case) to the
/// end of the next `</script>`, or to the end of `s`, until none is left.
pub open spec fn strip_scripts(s: Seq<char>) -> Seq<char>
    decreases s.len(),
{
    match find_from(s, script_open(), 0) {
        Some(i) => {
            proof {
                lemma_find_from(s, script_open(), 0);
                lemma_find_from(s, script_close(), i + 7);
            }
            strip_scripts(s.take(i) + s.skip(script_end(s, i + 7)))
        },
        None => s,
    }
}

/// No script element is left in cleaned HTML.
pub proof fn lemma_no_script_left(s: Seq<char>)
    ensures
        find_from(strip_scripts(s), script_open(), 0) is None,
    decreases s.len(),
{
    match find_from(s, script_open(), 0) {
        Some(i) => {
            lemma_find_from(s, script_open(), 0);
            lemma_find_from(s, script_close(), i + 7);
            lemma_no_script_left(s.take(i) + s.skip(script_end(s, i + 7)));
        },
        None => {},
    }
}

fn lower_ascii(c: char) -> (r: char)
    ensures
        r == ascii_lower_char(c),
{
    if 'A' <= c && c <= 'Z' {
        let b: u8 = c as u8;
        assert(b as int == c as int);
        ((b + 32) as char)
    } else {
        c
    }
}

fn matches_here(s: &Vec<char>, i: usize, pat: &Vec<char>) -> (b: bool)
    requires
        i + pat.len() <= s.len(),
    ensures
        b == matches_at(s@, i as int, pat@),
{
    let mut j: usize = 0;
    while j < pat.len()
        invariant
            i + pat.len() <= s.len(),
            j <= pat.len(),
            forall|k: int| 0 <= k < j ==> ci_char_eq(#[trigger] s@[i + k], pat@[k]),
        decreases pat.len() - j,
    {
        if lower_ascii(s[i + j]) != pat[j] {
            assert(!ci_char_eq(s@[i + j as int], pat@[j as int]));
            return false;
        }
        j = j + 1;
    }
    true
}

fn find_ci(s: &Vec<char>, pat: &Vec<char>, from: usize) -> (r: Option<usize>)
    ensures
        match r {
            Some(k) => find_from(s@, pat@, from as int) == Some(k as int),
            None => find_from(s@, pat@, from as int) is None,
        },
{
    if pat.len() > s.len() {
        return None;
    }
    let mut i = from;
    while i <= s.len() - pat.len()
        invariant
            pat.len() <= s.len(),
            from <= i,
            find_from(s@, pat@, from as int) == find_from(s@, pat@, i as int),
        decreases s.len() - i,
    {
        if matches_here(s, i, pat) {
            return Some(i);
        }
        i = i + 1;
    }
    None
}

/// The article HTML `content` with every script element removed.
pub fn clean_html(content: &str) -> (r: String)
    ensures
        r@ == strip_scripts(content@),
        find_from(r@, script_open(), 0) is None,
{
    proof {
        lemma_no_script_left(content@);
    }
    let open: Vec<char> = vec!['<', 's', 'c', 'r', 'i', 'p', 't'];
    let close: Vec<char> = vec!['<', '/', 's', 'c', 'r', 'i', 'p', 't', '>'];
    assert(open@ =~= script_open());
    assert(close@ =~= script_close());
    let mut cur: Vec<char> = crate::text::chars_of(content);
    loop
        invariant
            open@ == script_open(),
            close@ == script_close(),
            strip_scripts(cur@) == strip_scripts(content@),
        decreases cur.len(),
    {
        match find_ci(&cur, &open, 0) {
            None => {
                return string_of(&cur);
            },
            Some(i) => {
                proof {
                    lemma_find_from(cur@, script_open(), 0);
                    lemma_find_from(cur@, script_close(), i + 7);
                }
                let end = match find_ci(&cur, &close, i + 7) {
                    Some(j) => j + 9,
                    None => cur.len(),
                };
                assert(end as int == script_end(cur@, i + 7));
                let mut next: Vec<char> = Vec::new();
                let mut k: usize = 0;
                while k < i
                    invariant
                        i + 7 <= cur.len(),
                        k <= i,
                        next@ == cur@.take(k as int),
                    decreases i - k,
                {
                    next.push(cur[k]);
                    k = k + 1;
                    assert(next@ =~= cur@.take(k as int));
                }
                let mut k: usize = end;
                while k < cur.len()
                    invariant
                        end <= k <= cur.len(),
                        next@ == cur@.take(i as int) + cur@.subrange(end as int, k as int),
                    decreases cur.len() - k,
                {
                    next.push(cur[k]);
                    k = k + 1;
                    assert(next@ =~= cur@.take(i as int) + cur@.subrange(end as int, k as int));
                }
                assert(next@ =~= cur@.take(i as int) + cur@.skip(end as int));
                cur = next;
            },
        }
    }
}

} // verus!
