//! The layout of a digest: which sources it has and in what order, which articles
//! belong to each, the file names of the pages and the order in which they are written.
use vstd::prelude::*;
use crate::feed::{Article, source_name};
use crate::order::{seq_lt, chars_eq, chars_lt, lemma_seq_lt_irreflexive, lemma_seq_lt_asymmetric,
    lemma_seq_lt_transitive, lemma_seq_lt_total};
use crate::text::{chars_of, decimal, push_decimal, push_str, string_of};
use crate::unicode::{unicode_alphanumeric, unicode_lowercase, is_alphanumeric, to_lowercase, is_ascii_text,
    is_ascii_char, ascii_alnum, ascii_lower_char};

verus! {

/// The smallest position among the articles of source `s`; one more than `i64::MAX`
/// when no article has that source.
pub open spec fn min_pos(arts: Seq<Article>, s: Seq<char>) -> int
    decreases arts.len(),
{
    if arts.len() == 0 {
        i64::MAX + 1
    } else {
        let m = min_pos(arts.drop_last(), s);
        let a = arts.last();
        if source_name(a) == s && (a.article_source.position as int) < m {
            a.article_source.position as int
        } else {
            m
        }
    }
}

/// Source `s` comes before source `t` in the digest: its smallest position is smaller,
/// or the two are equal and its name sorts first.
pub open spec fn source_before(arts: Seq<Article>, s: Seq<char>, t: Seq<char>) -> bool {
    ||| min_pos(arts, s) < min_pos(arts, t)
    ||| min_pos(arts, s) == min_pos(arts, t) && seq_lt(s, t)
}

/// Some article of `arts` has source `s`.
pub open spec fn has_source(arts: Seq<Article>, s: Seq<char>) -> bool {
    exists|i: int| 0 <= i < arts.len() && source_name(arts[i]) == s
}

/// `r` lists every source of `arts` exactly once, in digest order.
pub open spec fn sources_in_order(arts: Seq<Article>, r: Seq<Seq<char>>) -> bool {
    &&& forall|i: int| 0 <= i < arts.len() ==> r.contains(#[trigger] source_name(arts[i]))
    &&& forall|k: int|
        0 <= k < r.len() ==> has_source(arts, #[trigger] r[k])
    &&& forall|j: int, k: int| 0 <= j < k < r.len() ==> source_before(arts, r[j], r[k])
}

/// The position of a source is the smallest position among its articles.
pub proof fn lemma_min_pos(arts: Seq<Article>, s: Seq<char>)
    ensures
        forall|i: int|
            0 <= i < arts.len() && source_name(arts[i]) == s ==> min_pos(arts, s)
                <= #[trigger] arts[i].article_source.position,
        (exists|i: int| 0 <= i < arts.len() && source_name(arts[i]) == s) ==> exists|i: int|
            0 <= i < arts.len() && source_name(arts[i]) == s && min_pos(arts, s)
                == arts[i].article_source.position,
        min_pos(arts, s) <= i64::MAX + 1,
        !(exists|i: int| 0 <= i < arts.len() && source_name(arts[i]) == s) ==> min_pos(arts, s)
            == i64::MAX + 1,
    decreases arts.len(),
{
    if arts.len() > 0 {
        let p = arts.drop_last();
        lemma_min_pos(p, s);
        assert forall|i: int|
            0 <= i < arts.len() && source_name(arts[i]) == s implies min_pos(arts, s)
                <= #[trigger] arts[i].article_source.position by {
            if i < arts.len() - 1 {
                assert(arts[i] == p[i]);
            }
        }
        let a = arts.last();
        if source_name(a) == s && (a.article_source.position as int) < min_pos(p, s) {
            assert(source_name(arts[arts.len() - 1]) == s);
        } else if exists|i: int| 0 <= i < p.len() && source_name(p[i]) == s {
            let w = choose|w: int|
                0 <= w < p.len() && source_name(p[w]) == s && min_pos(p, s)
                    == p[w].article_source.position;
            assert(arts[w] == p[w]);
        } else if exists|i: int| 0 <= i < arts.len() && source_name(arts[i]) == s {
            let i = choose|i: int| 0 <= i < arts.len() && source_name(arts[i]) == s;
            if i < arts.len() - 1 {
                assert(arts[i] == p[i]);
            }
        }
    }
}

/// No source comes before itself.
pub proof fn lemma_source_before_irreflexive(arts: Seq<Article>, s: Seq<char>)
    ensures
        !source_before(arts, s, s),
{
    lemma_seq_lt_irreflexive(s);
}

/// The order of sources is transitive.
pub proof fn lemma_source_before_transitive(
    arts: Seq<Article>,
    s: Seq<char>,
    t: Seq<char>,
    u: Seq<char>,
)
    requires
        source_before(arts, s, t),
        source_before(arts, t, u),
    ensures
        source_before(arts, s, u),
{
    if min_pos(arts, s) == min_pos(arts, t) && min_pos(arts, t) == min_pos(arts, u) {
        lemma_seq_lt_transitive(s, t, u);
    }
}

/// Of two different sources, one comes before the other.
pub proof fn lemma_source_before_total(arts: Seq<Article>, s: Seq<char>, t: Seq<char>)
    requires
        s != t,
    ensures
        source_before(arts, s, t) || source_before(arts, t, s),
{
    lemma_seq_lt_total(s, t);
}

/// Two sources never come each before the other.
pub proof fn lemma_source_before_asymmetric(arts: Seq<Article>, s: Seq<char>, t: Seq<char>)
    ensures
        !(source_before(arts, s, t) && source_before(arts, t, s)),
{
    lemma_seq_lt_asymmetric(s, t);
}

/// The characters of each article's source name.
fn source_names(articles: &Vec<Article>) -> (names: Vec<Vec<char>>)
    ensures
        names.len() == articles.len(),
        forall|i: int| 0 <= i < names.len() ==> (#[trigger] names@[i])@ == source_name(articles@[i]),
{
    let mut names: Vec<Vec<char>> = Vec::new();
    let mut i: usize = 0;
    while i < articles.len()
        invariant
            i <= articles.len(),
            names.len() == i,
            forall|j: int| 0 <= j < i ==> (#[trigger] names@[j])@ == source_name(articles@[j]),
        decreases articles.len() - i,
    {
        names.push(chars_of(articles[i].article_source.source.as_str()));
        i = i + 1;
    }
    names
}

/// The smaller of two integers.
pub open spec fn min_int(a: int, b: int) -> int {
    if a < b {
        a
    } else {
        b
    }
}

/// The smallest position among the articles whose source is that of article `i`.
fn min_position(articles: &Vec<Article>, names: &Vec<Vec<char>>, i: usize) -> (m: i64)
    requires
        i < articles.len(),
        names.len() == articles.len(),
        forall|j: int| 0 <= j < names.len() ==> (#[trigger] names@[j])@ == source_name(articles@[j]),
    ensures
        m == min_pos(articles@, source_name(articles@[i as int])),
{
    let ghost s = source_name(articles@[i as int]);
    let mut cur = articles[i].article_source.position;
    let mut j: usize = 0;
    proof {
        lemma_min_pos(articles@, s);
    }
    while j < articles.len()
        invariant
            j <= articles.len(),
            i < articles.len(),
            names.len() == articles.len(),
            forall|k: int| 0 <= k < names.len() ==> (#[trigger] names@[k])@ == source_name(articles@[k]),
            s == source_name(articles@[i as int]),
            cur as int == min_int(articles@[i as int].article_source.position as int, min_pos(articles@.take(j as int), s)),
        decreases articles.len() - j,
    {
        assert(articles@.take(j + 1).drop_last() =~= articles@.take(j as int));
        if chars_eq(&names[j], &names[i]) && articles[j].article_source.position < cur {
            cur = articles[j].article_source.position;
        }
        j = j + 1;
    }
    assert(articles@.take(articles.len() as int) =~= articles@);
    cur
}

/// The indices of the articles of source `s`, in input order.
pub open spec fn indices_of(arts: Seq<Article>, s: Seq<char>) -> Seq<usize>
    decreases arts.len(),
{
    if arts.len() == 0 {
        Seq::empty()
    } else {
        let p = indices_of(arts.drop_last(), s);
        if source_name(arts.last()) == s {
            p.push((arts.len() - 1) as usize)
        } else {
            p
        }
    }
}

/// The article indices of a source are in range, increasing, name exactly the
/// articles of that source, and are all of them.
pub proof fn lemma_indices_of(arts: Seq<Article>, s: Seq<char>)
    requires
        arts.len() <= usize::MAX,
    ensures
        forall|m: int| 0 <= m < indices_of(arts, s).len() ==> #[trigger] indices_of(arts, s)[m] < arts.len(),
        forall|m: int|
            0 <= m < indices_of(arts, s).len() ==> source_name(arts[#[trigger] indices_of(arts, s)[m] as int]) == s,
        forall|a: int, b: int|
            0 <= a < b < indices_of(arts, s).len() ==> #[trigger] indices_of(arts, s)[a] < #[trigger] indices_of(arts, s)[b],
        forall|i: int|
            0 <= i < arts.len() && source_name(#[trigger] arts[i]) == s ==> indices_of(arts, s).contains(i as usize),
        indices_of(arts, s).len() <= arts.len(),
    decreases arts.len(),
{
    if arts.len() > 0 {
        let p = arts.drop_last();
        lemma_indices_of(p, s);
        let ip = indices_of(p, s);
        let ia = indices_of(arts, s);
        assert forall|m: int| 0 <= m < ip.len() implies source_name(arts[#[trigger] ip[m] as int]) == s by {
            assert(arts[ip[m] as int] == p[ip[m] as int]);
        }
        assert forall|i: int| 0 <= i < arts.len() && source_name(#[trigger] arts[i]) == s implies ia.contains(i as usize) by {
            if i < arts.len() - 1 {
                assert(arts[i] == p[i]);
                let m = choose|m: int| 0 <= m < ip.len() && ip[m] == i as usize;
                assert(ia[m] == ip[m]);
            } else {
                assert(ia[ia.len() - 1] == i as usize);
            }
        }
    }
}

/// `r` holds no name twice.
pub open spec fn distinct_names(r: Seq<Seq<char>>) -> bool {
    forall|j: int, k: int| 0 <= j < r.len() && 0 <= k < r.len() && j != k ==> r[j] != r[k]
}

/// Sources listed in order are listed once each.
pub proof fn lemma_in_order_distinct(arts: Seq<Article>, r: Seq<Seq<char>>)
    requires
        sources_in_order(arts, r),
    ensures
        distinct_names(r),
{
    assert forall|j: int, k: int| 0 <= j < r.len() && 0 <= k < r.len() && j != k implies r[j] != r[k] by {
        if j < k {
            assert(source_before(arts, r[j], r[k]));
            lemma_source_before_irreflexive(arts, r[j]);
        } else {
            assert(source_before(arts, r[k], r[j]));
            lemma_source_before_irreflexive(arts, r[k]);
        }
    }
}

/// The number of articles of the first `k` sources of `r`.
pub open spec fn count_sum(arts: Seq<Article>, r: Seq<Seq<char>>, k: int) -> nat
    decreases k,
{
    if k <= 0 {
        0
    } else {
        count_sum(arts, r, k - 1) + indices_of(arts, r[k - 1]).len()
    }
}

/// Some of the first `k` names of `r` is `s`.
pub open spec fn in_prefix(r: Seq<Seq<char>>, k: int, s: Seq<char>) -> bool {
    exists|j: int| 0 <= j < k && r[j] == s
}

proof fn lemma_count_sum_step(arts: Seq<Article>, r: Seq<Seq<char>>, k: int)
    requires
        arts.len() > 0,
        distinct_names(r),
        0 <= k <= r.len(),
    ensures
        count_sum(arts, r, k) == count_sum(arts.drop_last(), r, k) + (if in_prefix(r, k, source_name(arts.last())) { 1int } else { 0int }),
    decreases k,
{
    if k > 0 {
        lemma_count_sum_step(arts, r, k - 1);
        if in_prefix(r, k - 1, source_name(arts.last())) {
            let j = choose|j: int| 0 <= j < k - 1 && r[j] == source_name(arts.last());
            assert(r[k - 1] != r[j]);
        }
        if r[k - 1] == source_name(arts.last()) {
            assert(in_prefix(r, k, source_name(arts.last())));
        } else if in_prefix(r, k, source_name(arts.last())) {
            let j = choose|j: int| 0 <= j < k && r[j] == source_name(arts.last());
            assert(in_prefix(r, k - 1, source_name(arts.last())));
        }
    }
}

/// The articles of distinct sources number at most all the articles, and exactly all of
/// them when every article's source is among the sources.
pub proof fn lemma_count_sum_total(arts: Seq<Article>, r: Seq<Seq<char>>)
    requires
        distinct_names(r),
    ensures
        count_sum(arts, r, r.len() as int) <= arts.len(),
        (forall|i: int| 0 <= i < arts.len() ==> r.contains(#[trigger] source_name(arts[i])))
            ==> count_sum(arts, r, r.len() as int) == arts.len(),
    decreases arts.len(),
{
    if arts.len() == 0 {
        lemma_count_sum_zero(arts, r, r.len() as int);
    } else {
        let p = arts.drop_last();
        lemma_count_sum_total(p, r);
        lemma_count_sum_step(arts, r, r.len() as int);
        if forall|i: int| 0 <= i < arts.len() ==> r.contains(#[trigger] source_name(arts[i])) {
            assert forall|i: int| 0 <= i < p.len() implies r.contains(#[trigger] source_name(p[i])) by {
                assert(p[i] == arts[i]);
                assert(r.contains(source_name(arts[i])));
            }
            assert(r.contains(source_name(arts[arts.len() - 1])));
            let j = choose|j: int| 0 <= j < r.len() && r[j] == source_name(arts.last());
            assert(in_prefix(r, r.len() as int, source_name(arts.last())));
        }
    }
}

proof fn lemma_count_sum_zero(arts: Seq<Article>, r: Seq<Seq<char>>, k: int)
    requires
        arts.len() == 0,
    ensures
        count_sum(arts, r, k) == 0,
    decreases k,
{
    if k > 0 {
        lemma_count_sum_zero(arts, r, k - 1);
    }
}

proof fn lemma_count_sum_monotone(arts: Seq<Article>, r: Seq<Seq<char>>, j: int, k: int)
    requires
        j <= k,
    ensures
        count_sum(arts, r, j) <= count_sum(arts, r, k),
    decreases k - j,
{
    if j < k {
        lemma_count_sum_monotone(arts, r, j, k - 1);
    }
}

/// The write order of the part that is the table of contents of source `k`: the master
/// table of contents comes first, then each source's table of contents followed by its
/// articles.
pub open spec fn source_part_id(arts: Seq<Article>, r: Seq<Seq<char>>, k: int) -> int {
    1 + k + count_sum(arts, r, k)
}

/// The name of the table of contents of source `s` is made of `s` with every character
/// that is not alphanumeric replaced by `_`, then lower-cased. For an ASCII name that is
/// each digit and letter, in lower case, and `_` for every other character.
pub open spec fn slug(s: Seq<char>) -> Seq<char> {
    if is_ascii_text(s) {
        Seq::new(s.len(), |i: int| if ascii_alnum(s[i]) { ascii_lower_char(s[i]) } else { '_' })
    } else {
        unicode_lowercase(Seq::new(s.len(), |i: int| if unicode_alphanumeric(s[i]) { s[i] } else { '_' }))
    }
}

/// The file name of the table of contents of source `s`.
pub open spec fn toc_filename(s: Seq<char>) -> Seq<char> {
    "toc_"@ + slug(s) + ".xhtml"@
}

/// The file name of the page of article `i`.
pub open spec fn chapter_filename(i: nat) -> Seq<char> {
    "chapter_"@ + decimal(i) + ".xhtml"@
}

/// The category under which source `s` is listed: that of its first article, or
/// `Uncategorized`.
pub open spec fn source_category(arts: Seq<Article>, s: Seq<char>) -> Seq<char> {
    let idx = indices_of(arts, s);
    if idx.len() > 0 {
        match arts[idx[0] as int].article_source.category {
            Some(c) => c@,
            None => "Uncategorized"@,
        }
    } else {
        "Uncategorized"@
    }
}

/// Different articles have different page file names.
pub proof fn lemma_chapter_filename_injective(i: nat, j: nat)
    ensures
        chapter_filename(i) == chapter_filename(j) ==> i == j,
{
    if chapter_filename(i) == chapter_filename(j) {
        reveal_strlit("chapter_");
        reveal_strlit(".xhtml");
        let a = chapter_filename(i);
        let b = chapter_filename(j);
        let di = decimal(i);
        let dj = decimal(j);
        assert("chapter_"@.len() == 8);
        assert(".xhtml"@.len() == 6);
        assert(a.len() == 14 + di.len());
        assert(b.len() == 14 + dj.len());
        assert(di.len() == dj.len());
        assert(a.subrange(8, 8 + di.len() as int) =~= di);
        assert(b.subrange(8, 8 + dj.len() as int) =~= dj);
        crate::text::lemma_decimal(i);
        crate::text::lemma_decimal(j);
    }
}

/// The slug of a source name.
pub fn source_slug(name: &str) -> (r: String)
    ensures
        r@ == slug(name@),
{
    let v = chars_of(name);
    let mut w: Vec<char> = Vec::new();
    let mut i: usize = 0;
    while i < v.len()
        invariant
            i <= v.len(),
            v@ == name@,
            w.len() == i,
            forall|j: int| 0 <= j < i ==> #[trigger] w@[j] == (if unicode_alphanumeric(v@[j]) { v@[j] } else { '_' }),
            forall|j: int| 0 <= j < i && is_ascii_char(v@[j]) ==> #[trigger] w@[j] == (if ascii_alnum(v@[j]) { v@[j] } else { '_' }),
        decreases v.len() - i,
    {
        let c = v[i];
        if is_alphanumeric(c) {
            w.push(c);
        } else {
            w.push('_');
        }
        i = i + 1;
    }
    let replaced = string_of(&w);
    assert(replaced@ =~= Seq::new(name@.len(), |i: int| if unicode_alphanumeric(name@[i]) { name@[i] } else { '_' }));
    let lower = to_lowercase(replaced.as_str());
    proof {
        if is_ascii_text(name@) {
            assert forall|j: int| 0 <= j < replaced@.len() implies is_ascii_char(#[trigger] replaced@[j]) by {
                assert(is_ascii_char(name@[j]));
                assert(is_ascii_char('_'));
            }
            assert forall|j: int| 0 <= j < name@.len() implies #[trigger] replaced@[j] == (if ascii_alnum(name@[j]) { name@[j] } else { '_' }) by {
                assert(is_ascii_char(name@[j]));
                assert(replaced@[j] == w@[j]);
            }
            assert(lower@ =~= slug(name@));
        }
    }
    lower
}

/// The file name of the table of contents of a source.
pub fn source_toc_filename(name: &str) -> (r: String)
    ensures
        r@ == toc_filename(name@),
{
    let sl = source_slug(name);
    let mut out: Vec<char> = Vec::new();
    push_str(&mut out, "toc_");
    push_str(&mut out, sl.as_str());
    push_str(&mut out, ".xhtml");
    assert(out@ =~= toc_filename(name@));
    string_of(&out)
}

/// The file name of the page of article `i`.
pub fn chapter_file_name(i: usize) -> (r: String)
    ensures
        r@ == chapter_filename(i as nat),
{
    let mut out: Vec<char> = Vec::new();
    push_str(&mut out, "chapter_");
    push_decimal(&mut out, i as u64);
    push_str(&mut out, ".xhtml");
    assert(out@ =~= chapter_filename(i as nat));
    string_of(&out)
}

/// The indices of the articles of the source named `name`, in input order.
pub fn source_articles(articles: &Vec<Article>, name: &str) -> (r: Vec<usize>)
    ensures
        r@ == indices_of(articles@, name@),
{
    let target = chars_of(name);
    let mut r: Vec<usize> = Vec::new();
    let mut i: usize = 0;
    while i < articles.len()
        invariant
            i <= articles.len(),
            target@ == name@,
            r@ == indices_of(articles@.take(i as int), name@),
        decreases articles.len() - i,
    {
        assert(articles@.take(i + 1).drop_last() =~= articles@.take(i as int));
        let sv = chars_of(articles[i].article_source.source.as_str());
        if chars_eq(&sv, &target) {
            r.push(i);
        }
        i = i + 1;
    }
    assert(articles@.take(articles.len() as int) =~= articles@);
    r
}

/// The category under which the source named `name` is listed.
pub fn category_of_source(articles: &Vec<Article>, name: &str) -> (r: String)
    ensures
        r@ == source_category(articles@, name@),
{
    let idx = source_articles(articles, name);
    proof {
        assert(articles@.len() == articles.len());
        lemma_indices_of(articles@, name@);
    }
    if idx.len() > 0 {
        match &articles[idx[0]].article_source.category {
            Some(c) => c.clone(),
            None => "Uncategorized".to_owned(),
        }
    } else {
        "Uncategorized".to_owned()
    }
}


/// One source of a digest: its name, the file name of its table of contents, its
/// category, the indices of its articles and the write order of its table of contents.
pub struct SourcePlan {
    pub name: String,
    pub toc_filename: String,
    pub category: String,
    pub articles: Vec<usize>,
    pub part_id: usize,
}

/// The layout of a digest.
pub struct EpubPlan {
    pub sources: Vec<SourcePlan>,
    pub chapter_filenames: Vec<String>,
    pub article_part_ids: Vec<usize>,
    pub total_parts: usize,
}

/// The names of the sources of a plan, in order.
pub open spec fn plan_names(p: EpubPlan) -> Seq<Seq<char>> {
    p.sources@.map_values(|s: SourcePlan| s.name@)
}

/// `p` is the layout of a digest of `arts`.
pub open spec fn plan_describes(arts: Seq<Article>, p: EpubPlan) -> bool {
    let r = plan_names(p);
    &&& sources_in_order(arts, r)
    &&& forall|k: int|
        0 <= k < r.len() ==> {
            &&& (#[trigger] p.sources@[k]).toc_filename@ == toc_filename(r[k])
            &&& p.sources@[k].category@ == source_category(arts, r[k])
            &&& p.sources@[k].articles@ == indices_of(arts, r[k])
            &&& p.sources@[k].part_id == source_part_id(arts, r, k)
        }
    &&& p.chapter_filenames.len() == arts.len()
    &&& forall|i: int|
        0 <= i < arts.len() ==> (#[trigger] p.chapter_filenames@[i])@ == chapter_filename(i as nat)
    &&& p.article_part_ids.len() == arts.len()
    &&& forall|k: int, m: int|
        0 <= k < r.len() && 0 <= m < indices_of(arts, r[k]).len() ==> p.article_part_ids@[#[trigger] indices_of(
            arts,
            r[k],
        )[m] as int] == source_part_id(arts, r, k) + 1 + m
    &&& p.total_parts == 1 + r.len() + arts.len()
}

proof fn lemma_count_sum_at_least(arts: Seq<Article>, r: Seq<Seq<char>>, k: int)
    requires
        0 <= k <= r.len(),
        arts.len() <= usize::MAX,
        forall|j: int| 0 <= j < r.len() ==> indices_of(arts, #[trigger] r[j]).len() > 0,
    ensures
        count_sum(arts, r, k) >= k,
    decreases k,
{
    if k > 0 {
        lemma_count_sum_at_least(arts, r, k - 1);
        assert(indices_of(arts, r[k - 1]).len() > 0);
    }
}

/// Lays out the digest of `articles`.
pub fn plan_epub(articles: &Vec<Article>) -> (p: EpubPlan)
    requires
        articles.len() <= usize::MAX / 4,
    ensures
        plan_describes(articles@, p),
{
    let names = ordered_sources(articles);
    let ghost arts = articles@;
    let ghost r = names@.map_values(|s: String| s@);
    let n = articles.len();
    proof {
        lemma_in_order_distinct(arts, r);
        lemma_count_sum_total(arts, r);
        assert forall|j: int| 0 <= j < r.len() implies indices_of(arts, #[trigger] r[j]).len() > 0 by {
            let i = choose|i: int| 0 <= i < arts.len() && source_name(arts[i]) == r[j];
            lemma_indices_of(arts, r[j]);
            assert(indices_of(arts, r[j]).contains(i as usize));
        }
        lemma_count_sum_at_least(arts, r, r.len() as int);
    }
    let mut chapter_filenames: Vec<String> = Vec::new();
    let mut article_part_ids: Vec<usize> = Vec::new();
    let mut i: usize = 0;
    while i < n
        invariant
            n == articles.len(),
            i <= n,
            chapter_filenames.len() == i,
            article_part_ids.len() == i,
            forall|j: int| 0 <= j < i ==> (#[trigger] chapter_filenames@[j])@ == chapter_filename(j as nat),
        decreases n - i,
    {
        chapter_filenames.push(chapter_file_name(i));
        article_part_ids.push(0);
        i = i + 1;
    }
    let mut sources: Vec<SourcePlan> = Vec::new();
    let mut next_part: usize = 1;
    let mut k: usize = 0;
    while k < names.len()
        invariant
            arts == articles@,
            n == articles.len(),
            n <= usize::MAX / 4,
            r == names@.map_values(|s: String| s@),
            sources_in_order(arts, r),
            distinct_names(r),
            count_sum(arts, r, r.len() as int) == n,
            r.len() <= n,
            k <= names.len(),
            sources.len() == k,
            next_part == source_part_id(arts, r, k as int),
            article_part_ids.len() == n,
            forall|q: int|
                0 <= q < k ==> {
                    &&& (#[trigger] sources@[q]).name@ == r[q]
                    &&& sources@[q].toc_filename@ == toc_filename(r[q])
                    &&& sources@[q].category@ == source_category(arts, r[q])
                    &&& sources@[q].articles@ == indices_of(arts, r[q])
                    &&& sources@[q].part_id == source_part_id(arts, r, q)
                },
            forall|q: int, m: int|
                0 <= q < k && 0 <= m < indices_of(arts, r[q]).len() ==> article_part_ids@[#[trigger] indices_of(
                    arts,
                    r[q],
                )[m] as int] == source_part_id(arts, r, q) + 1 + m,
        decreases names.len() - k,
    {
        let name = names[k].as_str();
        assert(name@ == r[k as int]);
        let idx = source_articles(articles, name);
        let part_id = next_part;
        proof {
            lemma_indices_of(arts, r[k as int]);
            lemma_count_sum_monotone(arts, r, k + 1, r.len() as int);
            assert(count_sum(arts, r, k + 1) == count_sum(arts, r, k as int) + idx.len());
        }
        let ghost before = article_part_ids@;
        let mut m: usize = 0;
        while m < idx.len()
            invariant
                arts == articles@,
                k < r.len(),
                idx@ == indices_of(arts, r[k as int]),
                forall|a: int| 0 <= a < idx.len() ==> #[trigger] idx@[a] < n,
                forall|a: int| 0 <= a < idx.len() ==> source_name(arts[#[trigger] idx@[a] as int]) == r[k as int],
                forall|a: int, b: int| 0 <= a < b < idx.len() ==> #[trigger] idx@[a] < #[trigger] idx@[b],
                part_id as int + idx.len() <= usize::MAX / 2,
                article_part_ids.len() == n,
                m <= idx.len(),
                forall|a: int| 0 <= a < m ==> article_part_ids@[#[trigger] idx@[a] as int] == part_id + 1 + a,
                forall|x: int| 0 <= x < n && !(exists|a: int| 0 <= a < m && idx@[a] == x) ==> #[trigger] article_part_ids@[x] == before[x],
            decreases idx.len() - m,
        {
            article_part_ids.set(idx[m], part_id + 1 + m);
            m = m + 1;
        }
        proof {
            assert forall|q: int, a: int|
                0 <= q < k + 1 && 0 <= a < indices_of(arts, r[q]).len() implies article_part_ids@[#[trigger] indices_of(
                    arts,
                    r[q],
                )[a] as int] == source_part_id(arts, r, q) + 1 + a by {
                if q < k {
                    lemma_indices_of(arts, r[q]);
                    let x = indices_of(arts, r[q])[a] as int;
                    assert(source_name(arts[x]) == r[q]);
                    assert(r[q] != r[k as int]);
                    if exists|b: int| 0 <= b < idx.len() && idx@[b] == x {
                        let b = choose|b: int| 0 <= b < idx.len() && idx@[b] == x;
                        assert(source_name(arts[idx@[b] as int]) == r[k as int]);
                    }
                }
            }
        }
        let sp = SourcePlan {
            name: names[k].clone(),
            toc_filename: source_toc_filename(name),
            category: category_of_source(articles, name),
            articles: idx,
            part_id,
        };
        sources.push(sp);
        next_part = part_id + 1 + sp_len(&sources, k);
        k = k + 1;
    }
    let p = EpubPlan { sources, chapter_filenames, article_part_ids, total_parts: next_part };
    assert(plan_names(p) =~= r);
    p
}

fn sp_len(sources: &Vec<SourcePlan>, k: usize) -> (l: usize)
    requires
        k < sources.len(),
    ensures
        l == sources@[k as int].articles.len(),
{
    sources[k].articles.len()
}

/// `reps` holds article indices below `bound` whose sources are listed in digest order,
/// each source once, and `keys` their smallest positions.
pub open spec fn reps_sorted(arts: Seq<Article>, reps: Seq<usize>, keys: Seq<i64>, bound: int) -> bool {
    &&& reps.len() == keys.len()
    &&& forall|k: int| 0 <= k < reps.len() ==> #[trigger] reps[k] < bound
    &&& forall|k: int|
        0 <= k < reps.len() ==> #[trigger] keys[k] as int == min_pos(
            arts,
            source_name(arts[reps[k] as int]),
        )
    &&& forall|j: int, k: int|
        0 <= j < k < reps.len() ==> source_before(
            arts,
            source_name(arts[#[trigger] reps[j] as int]),
            source_name(arts[#[trigger] reps[k] as int]),
        )
}

/// Every article below `bound` has its source among those of `reps`.
pub open spec fn reps_cover(arts: Seq<Article>, reps: Seq<usize>, bound: int) -> bool {
    forall|j: int|
        0 <= j < bound ==> exists|k: int|
            0 <= k < reps.len() && source_name(arts[reps[k] as int]) == source_name(
                #[trigger] arts[j],
            )
}

/// Inserts article `i`, whose source is new, at its place in digest order.
fn insert_rep(
    articles: &Vec<Article>,
    names: &Vec<Vec<char>>,
    reps: &mut Vec<usize>,
    keys: &mut Vec<i64>,
    i: usize,
    mp: i64,
)
    requires
        i < articles.len(),
        names.len() == articles.len(),
        forall|q: int| 0 <= q < names.len() ==> (#[trigger] names@[q])@ == source_name(articles@[q]),
        reps_sorted(articles@, old(reps)@, old(keys)@, i as int),
        forall|k: int| 0 <= k < old(reps)@.len() ==> source_name(articles@[#[trigger] old(reps)@[k] as int]) != source_name(articles@[i as int]),
        mp as int == min_pos(articles@, source_name(articles@[i as int])),
    ensures
        reps_sorted(articles@, final(reps)@, final(keys)@, i + 1),
        forall|k: int| 0 <= k < old(reps)@.len() ==> final(reps)@.contains(#[trigger] old(reps)@[k]),
        final(reps)@.contains(i),
{
    let ghost arts = articles@;
    let ghost s = source_name(arts[i as int]);
    let mut p: usize = 0;
    while p < reps.len() && (keys[p] < mp || (keys[p] == mp && chars_lt(&names[reps[p]], &names[i])))
        invariant
            p <= reps.len(),
            reps@ == old(reps)@,
            keys@ == old(keys)@,
            i < articles.len(),
            names.len() == articles.len(),
            forall|q: int| 0 <= q < names.len() ==> (#[trigger] names@[q])@ == source_name(arts[q]),
            arts == articles@,
            reps_sorted(arts, reps@, keys@, i as int),
            mp as int == min_pos(arts, s),
            s == source_name(arts[i as int]),
            forall|k: int| 0 <= k < p ==> source_before(arts, source_name(arts[#[trigger] reps@[k] as int]), s),
        decreases reps.len() - p,
    {
        p = p + 1;
    }
    proof {
        if p < reps.len() {
            let t = source_name(arts[reps@[p as int] as int]);
            assert(t != s);
            lemma_source_before_total(arts, s, t);
            assert(!source_before(arts, t, s));
            assert(source_before(arts, s, t));
            assert forall|k: int| p <= k < reps.len() implies source_before(arts, s, source_name(arts[#[trigger] reps@[k] as int])) by {
                if k > p {
                    lemma_source_before_transitive(arts, s, t, source_name(arts[reps@[k] as int]));
                }
            }
        }
    }
    let ghost old_reps = reps@;
    reps.insert(p, i);
    keys.insert(p, mp);
    proof {
        assert forall|j: int, k: int|
            0 <= j < k < reps.len() implies source_before(
                arts,
                source_name(arts[#[trigger] reps@[j] as int]),
                source_name(arts[#[trigger] reps@[k] as int]),
            ) by {
            if j < p && k > p {
                assert(reps@[j] == old_reps[j]);
                assert(reps@[k] == old_reps[k - 1]);
                lemma_source_before_transitive(arts, source_name(arts[reps@[j] as int]), s, source_name(arts[reps@[k] as int]));
            } else if j < p && k < p {
                assert(reps@[j] == old_reps[j]);
                assert(reps@[k] == old_reps[k]);
            } else if j > p && k > p {
                assert(reps@[j] == old_reps[j - 1]);
                assert(reps@[k] == old_reps[k - 1]);
            } else if j < p && k == p {
                assert(reps@[j] == old_reps[j]);
            } else {
                assert(reps@[k] == old_reps[k - 1]);
            }
        }
        assert forall|k: int| 0 <= k < reps.len() implies #[trigger] keys@[k] as int == min_pos(arts, source_name(arts[reps@[k] as int])) by {
            if k < p {
                assert(reps@[k] == old_reps[k]);
            } else if k > p {
                assert(reps@[k] == old_reps[k - 1]);
            }
        }
        assert forall|k: int| 0 <= k < old_reps.len() implies reps@.contains(#[trigger] old_reps[k]) by {
            if k < p {
                assert(reps@[k] == old_reps[k]);
            } else {
                assert(reps@[k + 1] == old_reps[k]);
            }
        }
        assert(reps@[p as int] == i);
    }
}

/// Whether some article before `i` has the same source as article `i`.
fn seen_before(articles: &Vec<Article>, names: &Vec<Vec<char>>, i: usize) -> (seen: bool)
    requires
        i < articles.len(),
        names.len() == articles.len(),
        forall|q: int| 0 <= q < names.len() ==> (#[trigger] names@[q])@ == source_name(articles@[q]),
    ensures
        seen == exists|q: int| 0 <= q < i && source_name(articles@[q]) == source_name(articles@[i as int]),
{
    let mut seen = false;
    let mut j: usize = 0;
    while j < i
        invariant
            i < articles.len(),
            j <= i,
            names.len() == articles.len(),
            forall|q: int| 0 <= q < names.len() ==> (#[trigger] names@[q])@ == source_name(articles@[q]),
            seen == exists|q: int| 0 <= q < j && source_name(articles@[q]) == source_name(articles@[i as int]),
        decreases i - j,
    {
        if chars_eq(&names[j], &names[i]) {
            seen = true;
        }
        j = j + 1;
    }
    seen
}

/// Takes article `i` into account: its source is added unless an earlier article had it.
#[verifier::spinoff_prover]
#[verifier::rlimit(50)]
fn add_article(
    articles: &Vec<Article>,
    names: &Vec<Vec<char>>,
    reps: &mut Vec<usize>,
    keys: &mut Vec<i64>,
    i: usize,
)
    requires
        i < articles.len(),
        names.len() == articles.len(),
        forall|q: int| 0 <= q < names.len() ==> (#[trigger] names@[q])@ == source_name(articles@[q]),
        reps_sorted(articles@, old(reps)@, old(keys)@, i as int),
        reps_cover(articles@, old(reps)@, i as int),
    ensures
        reps_sorted(articles@, final(reps)@, final(keys)@, i + 1),
        reps_cover(articles@, final(reps)@, i + 1),
{
    let ghost arts = articles@;
    let seen = seen_before(articles, names, i);
    let ghost old_reps = reps@;
    if seen {
        proof {
            let q = choose|q: int| 0 <= q < i && source_name(arts[q]) == source_name(arts[i as int]);
            assert(source_name(arts[q]) == source_name(arts[q]));
            assert forall|j: int| 0 <= j < i + 1 implies exists|k: int|
                0 <= k < reps@.len() && source_name(arts[reps@[k] as int]) == source_name(#[trigger] arts[j]) by {
                if j == i {
                    assert(source_name(arts[q]) == source_name(arts[q]));
                }
            }
            assert forall|k: int| 0 <= k < reps@.len() implies #[trigger] reps@[k] < i + 1 by {}
        }
    } else {
        let mp = min_position(articles, names, i);
        assert forall|k: int| 0 <= k < reps@.len() implies source_name(arts[#[trigger] reps@[k] as int]) != source_name(arts[i as int]) by {
            assert(reps@[k] < i);
        }
        insert_rep(articles, names, reps, keys, i, mp);
        proof {
            assert forall|j: int| 0 <= j < i + 1 implies exists|k: int|
                0 <= k < reps@.len() && source_name(arts[reps@[k] as int]) == source_name(#[trigger] arts[j]) by {
                if j == i {
                    assert(reps@.contains(i));
                } else {
                    let k = choose|k: int| 0 <= k < old_reps.len() && source_name(arts[old_reps[k] as int]) == source_name(arts[j]);
                    assert(reps@.contains(old_reps[k]));
                }
            }
        }
    }
}

/// The sources of `articles`, each once, in digest order.
pub fn ordered_sources(articles: &Vec<Article>) -> (r: Vec<String>)
    ensures
        sources_in_order(articles@, r@.map_values(|s: String| s@)),
{
    let names = source_names(articles);
    // one representative article of each source, in digest order
    let mut reps: Vec<usize> = Vec::new();
    let mut keys: Vec<i64> = Vec::new();
    let ghost arts = articles@;
    let mut i: usize = 0;
    while i < articles.len()
        invariant
            arts == articles@,
            i <= articles.len(),
            names.len() == articles.len(),
            forall|j: int| 0 <= j < names.len() ==> (#[trigger] names@[j])@ == source_name(arts[j]),
            reps_sorted(arts, reps@, keys@, i as int),
            reps_cover(arts, reps@, i as int),
        decreases articles.len() - i,
    {
        add_article(articles, &names, &mut reps, &mut keys, i);
        i = i + 1;
    }
    let mut r: Vec<String> = Vec::new();
    let mut k: usize = 0;
    while k < reps.len()
        invariant
            arts == articles@,
            k <= reps.len(),
            r.len() == k,
            reps_sorted(arts, reps@, keys@, articles.len() as int),
            reps_cover(arts, reps@, articles.len() as int),
            forall|q: int| 0 <= q < k ==> (#[trigger] r@[q])@ == source_name(arts[reps@[q] as int]),
        decreases reps.len() - k,
    {
        r.push(articles[reps[k]].article_source.source.clone());
        k = k + 1;
    }
    let ghost rv = r@.map_values(|s: String| s@);
    assert forall|q: int| 0 <= q < rv.len() implies rv[q] == source_name(arts[reps@[q] as int]) by {}
    assert forall|j: int| 0 <= j < arts.len() implies rv.contains(#[trigger] source_name(arts[j])) by {
        let q = choose|q: int| 0 <= q < reps.len() && source_name(arts[reps@[q] as int]) == source_name(arts[j]);
        assert(rv[q] == source_name(arts[j]));
    }
    assert forall|k: int| 0 <= k < rv.len() implies has_source(arts, #[trigger] rv[k]) by {
        let w = reps@[k] as int;
        assert(0 <= w < arts.len());
        assert(source_name(arts[w]) == rv[k]);
    }
    assert forall|j: int, q: int| 0 <= j < q < rv.len() implies source_before(arts, rv[j], rv[q]) by {
        assert(rv[j] == source_name(arts[reps@[j] as int]));
        assert(rv[q] == source_name(arts[reps@[q] as int]));
    }
    assert(sources_in_order(arts, rv));
    r
}


} // verus!
