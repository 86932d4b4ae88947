//! The content of a digest: the language tag, the pages derived from a layout and the
//! placement of the text drawn on the cover.
use vstd::prelude::*;
use crate::feed::{Article, source_name};
use crate::links::{generate_prev_next_links, groups_partition, links_describe, opt_view, placed_before};
use crate::models::{CoverTextColor, CoverTextPosition, CoverTextSize};
use crate::plan::{EpubPlan, SourcePlan, plan_describes, plan_names, indices_of, lemma_indices_of,
    lemma_in_order_distinct, chapter_filename, toc_filename, source_toc_filename};
use crate::templates::{ArticleEntry, ArticleTemplate, MasterToc, SourceToc, XhtmlWrapper,
    article_entry_view, article_html, master_toc_html, opt_pair_view, source_toc_html, xhtml_page};
use crate::calendar::civil_from_days;
use crate::text::{trim, trimmed};
use crate::toc::{category_groups, expected_groups};

verus! {

/// Whether the digest gets text drawn on its cover, and how the text looks.
#[derive(Debug, Clone)]
pub struct CoverTextConfig {
    pub enabled: bool,
    pub color: CoverTextColor,
    pub position: CoverTextPosition,
    pub size: CoverTextSize,
    pub context: Option<String>,
}

impl Default for CoverTextConfig {
    fn default() -> (c: Self)
        ensures
            !c.enabled,
            c.color == CoverTextColor::White,
            c.position == CoverTextPosition::BottomRight,
            c.size == CoverTextSize::Small,
            c.context is None,
    {
        CoverTextConfig {
            enabled: false,
            color: CoverTextColor::default(),
            position: CoverTextPosition::default(),
            size: CoverTextSize::default(),
            context: None,
        }
    }
}

/// The language of the digest for a configured value: the value without surrounding
/// whitespace, or `en` when it is missing or blank.
pub open spec fn resolved_language(value: Option<Seq<char>>) -> Seq<char> {
    match value {
        Some(v) => if trimmed(v).len() > 0 {
            trimmed(v)
        } else {
            "en"@
        },
        None => "en"@,
    }
}

/// The language of a digest is never empty and never starts or ends with whitespace.
pub proof fn lemma_resolved_language_clean(value: Option<Seq<char>>)
    ensures
        resolved_language(value).len() > 0,
        trimmed(resolved_language(value)) == resolved_language(value),
{
    reveal_strlit("en");
    let en = "en"@;
    crate::text::lemma_trimmed_idempotent(en);
    assert(!crate::text::is_ws(en[0]));
    assert(!crate::text::is_ws(en[1]));
    assert(crate::text::lead_ws(en) == 0);
    assert(trimmed(en) =~= en) by {
        assert(crate::text::trim_start(en) =~= en);
        assert(en.drop_last() =~= seq!['e']);
        assert(crate::text::trail_ws(en) == 0);
    }
    match value {
        Some(v) => {
            crate::text::lemma_trimmed_idempotent(v);
        },
        None => {},
    }
}

/// A configured language is used as configured, without its surrounding whitespace,
/// whatever its length or form; only a missing or blank value gives `en`. In
/// particular a tag already free of surrounding whitespace is used unchanged, and
/// resolving the resolved language again changes nothing.
pub proof fn lemma_configured_language_is_used(v: Seq<char>)
    ensures
        trimmed(v).len() > 0 ==> resolved_language(Some(v)) == trimmed(v),
        v.len() > 0 && trimmed(v) == v ==> resolved_language(Some(v)) == v,
        resolved_language(Some(v)) == resolved_language(Some(trimmed(v))),
        trimmed(v).len() == 0 ==> resolved_language(Some(v)) == "en"@,
        resolved_language(None) == "en"@,
        resolved_language(Some(resolved_language(Some(v)))) == resolved_language(Some(v)),
{
    crate::text::lemma_trimmed_idempotent(v);
    lemma_resolved_language_clean(Some(v));
}

/// The language of the digest for a configured value.
pub fn resolve_epub_language(value: Option<String>) -> (r: String)
    ensures
        r@ == resolved_language(opt_view(value)),
{
    match value {
        Some(v) => {
            let t = trim(v.as_str());
            if t.as_str().is_empty() {
                "en".to_owned()
            } else {
                t
            }
        },
        None => "en".to_owned(),
    }
}

/// What chrono's `DateTime::<Utc>::from_timestamp(secs, 0)` formats as `%Y-%m-%d %H:%M`,
/// or `None` when chrono cannot represent that instant.
pub uninterp spec fn utc_minute_text(secs: i64) -> Option<Seq<char>>;

/// `n` in decimal, with leading zeros up to `width` digits.
pub open spec fn zero_padded(n: nat, width: nat) -> Seq<char> {
    let d = crate::text::decimal(n);
    if d.len() < width {
        Seq::new((width - d.len()) as nat, |i: int| '0') + d
    } else {
        d
    }
}

/// `YYYY-MM-DD HH:MM` of the UTC instant `secs` seconds after 1970-01-01 00:00.
pub open spec fn civil_minute_text(secs: nat) -> Seq<char> {
    let (y, m, d) = civil_from_days(secs / 86400);
    let rem = secs % 86400;
    zero_padded(y, 4) + seq!['-'] + zero_padded(m, 2) + seq!['-'] + zero_padded(d, 2) + seq![' ']
        + zero_padded(rem / 3600, 2) + seq![':'] + zero_padded((rem % 3600) / 60, 2)
}

/// `chrono::DateTime::from_timestamp` followed by `format("%Y-%m-%d %H:%M")`. The
/// contract claims that the result is chrono's text for `secs`, a function of `secs`
/// alone, and, for instants from 1970 up to the end of year 9999, that it is the civil
/// UTC date and time with a four-digit year and two-digit month, day, hour and minute.
#[verifier::external_body]
fn format_utc_minute(secs: i64) -> (r: Option<String>)
    ensures
        opt_view(r) == utc_minute_text(secs),
        0 <= secs < 253402300800 ==> opt_view(r) == Some(civil_minute_text(secs as nat)),
{
    match chrono::DateTime::from_timestamp(secs, 0) {
        Some(d) => Some(d.format("%Y-%m-%d %H:%M").to_string()),
        None => None,
    }
}

/// The publication date shown on an article page: the civil UTC date and time for an
/// instant from 1970 up to the end of year 9999, chrono's text otherwise, and empty for
/// an instant chrono cannot represent, which no article built from a chrono date has.
pub open spec fn date_text(secs: i64) -> Seq<char> {
    if 0 <= secs < 253402300800 {
        civil_minute_text(secs as nat)
    } else {
        match utc_minute_text(secs) {
            Some(t) => t,
            None => Seq::empty(),
        }
    }
}

/// The names of the sources of a plan.
pub open spec fn plan_name_strings(p: EpubPlan) -> Seq<String> {
    p.sources@.map_values(|s: SourcePlan| s.name)
}

/// The categories of the sources of a plan.
pub open spec fn plan_categories(p: EpubPlan) -> Seq<String> {
    p.sources@.map_values(|s: SourcePlan| s.category)
}

/// The table of contents file names of the sources of a plan.
pub open spec fn plan_toc_files(p: EpubPlan) -> Seq<String> {
    p.sources@.map_values(|s: SourcePlan| s.toc_filename)
}

/// The master table of contents page.
pub fn master_toc_content(plan: &EpubPlan) -> (r: String)
    ensures
        r@ == xhtml_page(
            "Table of Contents"@,
            master_toc_html(
                expected_groups(plan_name_strings(*plan), plan_categories(*plan), plan_toc_files(*plan)),
            ),
        ),
{
    let mut names: Vec<String> = Vec::new();
    let mut cats: Vec<String> = Vec::new();
    let mut tocs: Vec<String> = Vec::new();
    let mut k: usize = 0;
    while k < plan.sources.len()
        invariant
            k <= plan.sources.len(),
            names@ == plan_name_strings(*plan).take(k as int),
            cats@ == plan_categories(*plan).take(k as int),
            tocs@ == plan_toc_files(*plan).take(k as int),
        decreases plan.sources.len() - k,
    {
        names.push(plan.sources[k].name.clone());
        cats.push(plan.sources[k].category.clone());
        tocs.push(plan.sources[k].toc_filename.clone());
        k = k + 1;
        assert(names@ =~= plan_name_strings(*plan).take(k as int));
        assert(cats@ =~= plan_categories(*plan).take(k as int));
        assert(tocs@ =~= plan_toc_files(*plan).take(k as int));
    }
    assert(names@ =~= plan_name_strings(*plan));
    assert(cats@ =~= plan_categories(*plan));
    assert(tocs@ =~= plan_toc_files(*plan));
    let groups = category_groups(&names, &cats, &tocs);
    let body = MasterToc { groups }.render();
    XhtmlWrapper { title: "Table of Contents", content: body.as_str() }.render()
}

/// The entries of the table of contents of source `k`: each article's page and title.
pub open spec fn source_entries(arts: Seq<Article>, p: EpubPlan, k: int) -> Seq<(Seq<char>, Seq<char>)> {
    indices_of(arts, plan_names(p)[k]).map_values(
        |i: usize| (chapter_filename(i as nat), arts[i as int].title@),
    )
}

/// The link from the table of contents of source `k` to that of the next source.
pub open spec fn next_source_link(p: EpubPlan, k: int) -> Option<(Seq<char>, Seq<char>)> {
    if k + 1 < p.sources.len() {
        Some((p.sources@[k + 1].toc_filename@, p.sources@[k + 1].name@))
    } else {
        None
    }
}

/// The table of contents page of source `k`.
pub fn source_toc_content(plan: &EpubPlan, articles: &Vec<Article>, k: usize) -> (r: String)
    requires
        plan_describes(articles@, *plan),
        k < plan.sources.len(),
    ensures
        r@ == xhtml_page(
            plan_names(*plan)[k as int],
            source_toc_html(
                plan_names(*plan)[k as int],
                source_entries(articles@, *plan, k as int),
                next_source_link(*plan, k as int),
            ),
        ),
{
    let sp = &plan.sources[k];
    let ghost name = plan_names(*plan)[k as int];
    assert(sp.articles@ == indices_of(articles@, name));
    proof {
        assert(articles@.len() == articles.len());
        lemma_indices_of(articles@, name);
    }
    let mut entries: Vec<ArticleEntry> = Vec::new();
    let mut m: usize = 0;
    while m < sp.articles.len()
        invariant
            m <= sp.articles.len(),
            sp.articles@ == indices_of(articles@, name),
            forall|a: int| 0 <= a < sp.articles.len() ==> #[trigger] sp.articles@[a] < articles.len(),
            plan.chapter_filenames.len() == articles.len(),
            forall|i: int| 0 <= i < articles.len() ==> (#[trigger] plan.chapter_filenames@[i])@ == chapter_filename(i as nat),
            entries@.map_values(|e: ArticleEntry| article_entry_view(e)) == sp.articles@.take(m as int).map_values(
                |i: usize| (chapter_filename(i as nat), articles@[i as int].title@),
            ),
        decreases sp.articles.len() - m,
    {
        let i = sp.articles[m];
        let ghost before = entries@;
        let e = ArticleEntry { filename: plan.chapter_filenames[i].clone(), title: articles[i].title.clone() };
        assert(article_entry_view(e) == (chapter_filename(i as nat), articles@[i as int].title@));
        entries.push(e);
        assert(entries@.map_values(|e: ArticleEntry| article_entry_view(e)) =~= before.map_values(|e: ArticleEntry| article_entry_view(e)).push(article_entry_view(e)));
        assert(sp.articles@.take(m + 1) =~= sp.articles@.take(m as int).push(i));
        m = m + 1;
        assert(entries@.map_values(|e: ArticleEntry| article_entry_view(e)) =~= sp.articles@.take(m as int).map_values(
            |i: usize| (chapter_filename(i as nat), articles@[i as int].title@),
        ));
    }
    assert(sp.articles@.take(m as int) =~= sp.articles@);
    let next_toc_link = if k + 1 < plan.sources.len() {
        Some((plan.sources[k + 1].toc_filename.clone(), plan.sources[k + 1].name.clone()))
    } else {
        None
    };
    let t = SourceToc { source_name: sp.name.clone(), articles: entries, next_toc_link };
    let body = t.render();
    assert(opt_pair_view(t.next_toc_link) == next_source_link(*plan, k as int));
    XhtmlWrapper { title: sp.name.as_str(), content: body.as_str() }.render()
}

/// The article lists of the sources of a plan.
pub open spec fn plan_groups(p: EpubPlan) -> Seq<Seq<usize>> {
    p.sources@.map_values(|s: SourcePlan| s.articles@)
}

/// The article indices of every source of a plan, in order.
pub fn source_groups(plan: &EpubPlan) -> (g: Vec<Vec<usize>>)
    ensures
        g@.len() == plan.sources.len(),
        forall|k: int| 0 <= k < g.len() ==> (#[trigger] g@[k])@ == plan.sources@[k].articles@,
{
    let mut g: Vec<Vec<usize>> = Vec::new();
    let mut k: usize = 0;
    while k < plan.sources.len()
        invariant
            k <= plan.sources.len(),
            g.len() == k,
            forall|q: int| 0 <= q < k ==> (#[trigger] g@[q])@ == plan.sources@[q].articles@,
        decreases plan.sources.len() - k,
    {
        g.push(plan.sources[k].articles.clone());
        k = k + 1;
    }
    g
}

/// Every article of a digest belongs to exactly one source: the article lists of the
/// sources of a layout partition the articles.
pub proof fn lemma_plan_partitions_articles(arts: Seq<Article>, p: EpubPlan, g: Seq<Seq<usize>>)
    requires
        plan_describes(arts, p),
        arts.len() <= usize::MAX,
        g.len() == p.sources.len(),
        forall|k: int| 0 <= k < g.len() ==> #[trigger] g[k] == p.sources@[k].articles@,
    ensures
        groups_partition(g, arts.len() as int),
        forall|i: int| 0 <= i < arts.len() ==> #[trigger] placed_before(g, i, g.len() as int, 0),
{
    let r = plan_names(p);
    lemma_in_order_distinct(arts, r);
    assert forall|k: int| 0 <= k < g.len() implies #[trigger] g[k] == indices_of(arts, r[k]) by {
        assert(p.sources@[k].articles@ == indices_of(arts, r[k]));
    }
    assert forall|k: int, m: int| 0 <= k < g.len() && 0 <= m < g[k].len() implies #[trigger] g[k][m] < arts.len() by {
        lemma_indices_of(arts, r[k]);
        assert(g[k] == indices_of(arts, r[k]));
    }
    assert forall|k1: int, m1: int, k2: int, m2: int|
        0 <= k1 < g.len() && 0 <= m1 < g[k1].len() && 0 <= k2 < g.len() && 0 <= m2 < g[k2].len()
            && (k1 != k2 || m1 != m2) implies #[trigger] g[k1][m1] != #[trigger] g[k2][m2] by {
        lemma_indices_of(arts, r[k1]);
        lemma_indices_of(arts, r[k2]);
        assert(g[k1] == indices_of(arts, r[k1]));
        assert(g[k2] == indices_of(arts, r[k2]));
        if k1 != k2 {
            assert(source_name(arts[g[k1][m1] as int]) == r[k1]);
            assert(source_name(arts[g[k2][m2] as int]) == r[k2]);
            assert(r[k1] != r[k2]);
        } else if m1 < m2 {
            assert(g[k1][m1] < g[k1][m2]);
        } else {
            assert(g[k1][m2] < g[k1][m1]);
        }
    }
    assert forall|i: int| 0 <= i < arts.len() implies #[trigger] placed_before(g, i, g.len() as int, 0) by {
        assert(r.contains(source_name(arts[i])));
        let k = choose|k: int| 0 <= k < r.len() && r[k] == source_name(arts[i]);
        lemma_indices_of(arts, r[k]);
        assert(g[k] == indices_of(arts, r[k]));
        assert(indices_of(arts, r[k]).contains(i as usize));
        let m = choose|m: int| 0 <= m < indices_of(arts, r[k]).len() && indices_of(arts, r[k])[m] == i as usize;
        assert(g[k][m] == i);
    }
}

proof fn lemma_part_id_gap(arts: Seq<Article>, r: Seq<Seq<char>>, k1: int, k2: int)
    requires
        0 <= k1 < k2 <= r.len(),
    ensures
        crate::plan::source_part_id(arts, r, k2) >= crate::plan::source_part_id(arts, r, k1) + 1
            + indices_of(arts, r[k1]).len(),
    decreases k2 - k1,
{
    if k2 > k1 + 1 {
        lemma_part_id_gap(arts, r, k1, k2 - 1);
    }
}

/// The position of article `i` among the parts of the digest: the page of each article,
/// like the table of contents of each source, has its own write position, distinct from
/// all the others, between 1 and the number of parts (0 is the master table of contents),
/// so every part is written exactly once.
#[verifier::spinoff_prover]
#[verifier::rlimit(50)]
pub proof fn lemma_part_ids_distinct(arts: Seq<Article>, p: EpubPlan)
    requires
        plan_describes(arts, p),
        arts.len() <= usize::MAX,
    ensures
        forall|k: int| 0 <= k < p.sources.len() ==> 1 <= #[trigger] p.sources@[k].part_id < p.total_parts,
        forall|i: int| 0 <= i < arts.len() ==> 1 <= #[trigger] p.article_part_ids@[i] < p.total_parts,
        forall|k1: int, k2: int|
            0 <= k1 < p.sources.len() && 0 <= k2 < p.sources.len() && k1 != k2 ==> (#[trigger] p.sources@[k1]).part_id
                != (#[trigger] p.sources@[k2]).part_id,
        forall|i1: int, i2: int|
            0 <= i1 < arts.len() && 0 <= i2 < arts.len() && i1 != i2 ==> #[trigger] p.article_part_ids@[i1]
                != #[trigger] p.article_part_ids@[i2],
        forall|k: int, i: int|
            0 <= k < p.sources.len() && 0 <= i < arts.len() ==> (#[trigger] p.sources@[k]).part_id
                != #[trigger] p.article_part_ids@[i],
{
    let r = plan_names(p);
    let g = plan_groups(p);
    let n = arts.len() as int;
    let kk = r.len() as int;
    assert forall|k: int| 0 <= k < g.len() implies #[trigger] g[k] == p.sources@[k].articles@ by {}
    lemma_plan_partitions_articles(arts, p, g);
    lemma_in_order_distinct(arts, r);
    crate::plan::lemma_count_sum_total(arts, r);
    assert(crate::plan::source_part_id(arts, r, kk) == p.total_parts);
    // where article i sits: source k, place m
    assert forall|i: int| 0 <= i < n implies exists|k: int, m: int|
        0 <= k < kk && 0 <= m < indices_of(arts, r[k]).len() && indices_of(arts, r[k])[m] == i
            && #[trigger] p.article_part_ids@[i] == crate::plan::source_part_id(arts, r, k) + 1 + m by {
        assert(placed_before(g, i, g.len() as int, 0));
        let (k, m) = choose|k: int, m: int|
            0 <= k < g.len() && 0 <= m < g[k].len() && (k < g.len() || (k == g.len() && m < 0))
                && #[trigger] g[k][m] == i;
        assert(g[k] == indices_of(arts, r[k]));
    }
    assert forall|k: int| 0 <= k < kk implies 1 <= #[trigger] p.sources@[k].part_id < p.total_parts by {
        lemma_part_id_gap(arts, r, k, kk);
    }
    assert forall|i: int| 0 <= i < n implies 1 <= #[trigger] p.article_part_ids@[i] < p.total_parts by {
        let (k, m) = choose|k: int, m: int|
            0 <= k < kk && 0 <= m < indices_of(arts, r[k]).len() && indices_of(arts, r[k])[m] == i
                && #[trigger] p.article_part_ids@[i] == crate::plan::source_part_id(arts, r, k) + 1 + m;
        lemma_part_id_gap(arts, r, k, kk);
    }
    assert forall|k1: int, k2: int|
        0 <= k1 < kk && 0 <= k2 < kk && k1 != k2 implies (#[trigger] p.sources@[k1]).part_id
            != (#[trigger] p.sources@[k2]).part_id by {
        if k1 < k2 {
            lemma_part_id_gap(arts, r, k1, k2);
        } else {
            lemma_part_id_gap(arts, r, k2, k1);
        }
    }
    assert forall|i1: int, i2: int|
        0 <= i1 < n && 0 <= i2 < n && i1 != i2 implies #[trigger] p.article_part_ids@[i1]
            != #[trigger] p.article_part_ids@[i2] by {
        let (k1, m1) = choose|k: int, m: int|
            0 <= k < kk && 0 <= m < indices_of(arts, r[k]).len() && indices_of(arts, r[k])[m] == i1
                && #[trigger] p.article_part_ids@[i1] == crate::plan::source_part_id(arts, r, k) + 1 + m;
        let (k2, m2) = choose|k: int, m: int|
            0 <= k < kk && 0 <= m < indices_of(arts, r[k]).len() && indices_of(arts, r[k])[m] == i2
                && #[trigger] p.article_part_ids@[i2] == crate::plan::source_part_id(arts, r, k) + 1 + m;
        if k1 < k2 {
            lemma_part_id_gap(arts, r, k1, k2);
        } else if k2 < k1 {
            lemma_part_id_gap(arts, r, k2, k1);
        }
    }
    assert forall|k: int, i: int|
        0 <= k < kk && 0 <= i < n implies (#[trigger] p.sources@[k]).part_id != #[trigger] p.article_part_ids@[i] by {
        let (k2, m2) = choose|k3: int, m: int|
            0 <= k3 < kk && 0 <= m < indices_of(arts, r[k3]).len() && indices_of(arts, r[k3])[m] == i
                && #[trigger] p.article_part_ids@[i] == crate::plan::source_part_id(arts, r, k3) + 1 + m;
        if k < k2 {
            lemma_part_id_gap(arts, r, k, k2);
        } else if k2 < k {
            lemma_part_id_gap(arts, r, k2, k);
        }
    }
}

/// Following an article's "next" link and then that page's "previous" link comes back to
/// the article: the next link of `a` leads to the page of `b` exactly when the previous
/// link of `b` leads to the page of `a`.
pub proof fn lemma_article_links_inverse(
    arts: Seq<Article>,
    p: EpubPlan,
    prev: Seq<Option<String>>,
    next: Seq<Option<String>>,
    a: int,
    b: int,
)
    requires
        plan_describes(arts, p),
        arts.len() <= usize::MAX,
        links_describe(plan_groups(p), p.chapter_filenames@, prev, next),
        0 <= a < arts.len(),
        0 <= b < arts.len(),
    ensures
        opt_view(next[a]) == Some(chapter_filename(b as nat)) <==> opt_view(prev[b]) == Some(
            chapter_filename(a as nat),
        ),
{
    let g = plan_groups(p);
    assert forall|k: int| 0 <= k < g.len() implies #[trigger] g[k] == p.sources@[k].articles@ by {}
    lemma_plan_partitions_articles(arts, p, g);
    let files = p.chapter_filenames@;
    assert forall|i: int, j: int| 0 <= i < files.len() && 0 <= j < files.len() && i != j implies #[trigger] files[i]@ != #[trigger] files[j]@ by {
        crate::plan::lemma_chapter_filename_injective(i as nat, j as nat);
    }
    crate::links::lemma_links_inverse(g, files, prev, next, a, b);
}

/// The previous and next links of every article of a digest.
pub fn article_links(plan: &EpubPlan, articles: &Vec<Article>) -> (links: (Vec<Option<String>>, Vec<Option<String>>))
    requires
        plan_describes(articles@, *plan),
    ensures
        links_describe(plan_groups(*plan), plan.chapter_filenames@, links.0@, links.1@),
{
    let g = source_groups(plan);
    proof {
        assert(articles@.len() == articles.len());
        assert(g@.map_values(|v: Vec<usize>| v@) =~= plan_groups(*plan));
        lemma_plan_partitions_articles(articles@, *plan, plan_groups(*plan));
    }
    generate_prev_next_links(&g, &plan.chapter_filenames)
}

/// The page of article `i`, whose body, already cleaned, is `body`.
pub fn chapter_content(
    articles: &Vec<Article>,
    i: usize,
    body: &str,
    prev: &Option<String>,
    next: &Option<String>,
) -> (r: String)
    requires
        i < articles.len(),
    ensures
        r@ == xhtml_page(
            articles@[i as int].title@,
            article_html(
                articles@[i as int].title@,
                source_name(articles@[i as int]),
                date_text(articles@[i as int].pub_date),
                body@,
                articles@[i as int].link@,
                toc_filename(source_name(articles@[i as int])),
                opt_view(*prev),
                opt_view(*next),
            ),
        ),
{
    let a = &articles[i];
    let back_link = source_toc_filename(a.article_source.source.as_str());
    let pub_date = match format_utc_minute(a.pub_date) {
        Some(t) => t,
        None => String::new(),
    };
    let t = ArticleTemplate {
        title: a.title.as_str(),
        source: a.article_source.source.as_str(),
        pub_date,
        content: body,
        original_link: a.link.as_str(),
        back_link,
        prev_link: prev.clone(),
        next_link: next.clone(),
    };
    let page = t.render();
    XhtmlWrapper { title: a.title.as_str(), content: page.as_str() }.render()
}

/// The margin, in pixels, between the cover text and the edge of the cover.
pub const COVER_TEXT_PADDING: u32 = 20;

/// The left edge of the cover text block.
pub open spec fn block_x(position: CoverTextPosition, img_width: int, text_width: int) -> int {
    match position {
        CoverTextPosition::TopLeft | CoverTextPosition::BottomLeft => 20,
        CoverTextPosition::Center if img_width > text_width => (img_width - text_width) / 2,
        _ => if img_width > text_width + 20 {
            img_width - text_width - 20
        } else {
            10
        },
    }
}

/// The top edge of the cover text block.
pub open spec fn block_y(position: CoverTextPosition, img_height: int, block_height: int) -> int {
    match position {
        CoverTextPosition::TopLeft | CoverTextPosition::TopRight => 20,
        CoverTextPosition::Center if img_height > block_height => (img_height - block_height) / 2,
        _ => if img_height > block_height + 20 {
            img_height - block_height - 20
        } else {
            10
        },
    }
}

/// Where the cover text block sits: a left-hand block starts 20 px from the left edge,
/// a right-hand block ends 20 px from the right edge when the cover is wide enough for
/// it, and a centred block has as much room on its left as on its right, give or take a
/// pixel; likewise a top block starts 20 px from the top and a bottom block ends 20 px
/// from the bottom. A block that does not fit that way starts 10 px from the edge.
pub proof fn lemma_cover_block_placement(img_width: int, text_width: int, img_height: int, block_height: int)
    requires
        0 <= text_width,
        0 <= block_height,
    ensures
        block_x(CoverTextPosition::TopLeft, img_width, text_width) == 20,
        block_x(CoverTextPosition::BottomLeft, img_width, text_width) == 20,
        img_width > text_width + 20 ==> block_x(CoverTextPosition::TopRight, img_width, text_width)
            + text_width + 20 == img_width,
        img_width > text_width + 20 ==> block_x(CoverTextPosition::BottomRight, img_width, text_width)
            + text_width + 20 == img_width,
        img_width > text_width ==> {
            let x = block_x(CoverTextPosition::Center, img_width, text_width);
            let right = img_width - x - text_width;
            0 <= x && (right == x || right == x + 1)
        },
        block_y(CoverTextPosition::TopLeft, img_height, block_height) == 20,
        block_y(CoverTextPosition::TopRight, img_height, block_height) == 20,
        img_height > block_height + 20 ==> block_y(CoverTextPosition::BottomLeft, img_height, block_height)
            + block_height + 20 == img_height,
        img_height > block_height + 20 ==> block_y(CoverTextPosition::BottomRight, img_height, block_height)
            + block_height + 20 == img_height,
        img_height > block_height ==> {
            let y = block_y(CoverTextPosition::Center, img_height, block_height);
            let below = img_height - y - block_height;
            0 <= y && (below == y || below == y + 1)
        },
        img_width <= text_width + 20 ==> block_x(CoverTextPosition::TopRight, img_width, text_width) == 10
            && block_x(CoverTextPosition::BottomRight, img_width, text_width) == 10,
        img_width <= text_width ==> block_x(CoverTextPosition::Center, img_width, text_width) == 10,
        img_height <= block_height + 20 ==> block_y(CoverTextPosition::BottomLeft, img_height, block_height) == 10
            && block_y(CoverTextPosition::BottomRight, img_height, block_height) == 10,
        img_height <= block_height ==> block_y(CoverTextPosition::Center, img_height, block_height) == 10,
{
}

/// The left edge of the cover text block, for a cover `img_width` wide and text
/// `max_text_width` wide.
pub fn cover_block_x(position: CoverTextPosition, img_width: u32, max_text_width: u32) -> (x: u32)
    requires
        position == CoverTextPosition::TopLeft || position == CoverTextPosition::BottomLeft || (
        position == CoverTextPosition::Center && img_width > max_text_width) || max_text_width + 20
            <= u32::MAX,
    ensures
        x == block_x(position, img_width as int, max_text_width as int),
{
    match position {
        CoverTextPosition::TopLeft | CoverTextPosition::BottomLeft => COVER_TEXT_PADDING,
        CoverTextPosition::Center if img_width > max_text_width => (img_width - max_text_width) / 2,
        _ => if img_width > max_text_width + COVER_TEXT_PADDING {
            img_width - max_text_width - COVER_TEXT_PADDING
        } else {
            10
        },
    }
}

/// The top edge of the cover text block, for a cover `img_height` tall and a text block
/// `block_height` tall.
pub fn cover_block_y(position: CoverTextPosition, img_height: u32, block_height: u32) -> (y: u32)
    requires
        position == CoverTextPosition::TopLeft || position == CoverTextPosition::TopRight || (
        position == CoverTextPosition::Center && img_height > block_height) || block_height + 20
            <= u32::MAX,
    ensures
        y == block_y(position, img_height as int, block_height as int),
{
    match position {
        CoverTextPosition::TopLeft | CoverTextPosition::TopRight => COVER_TEXT_PADDING,
        CoverTextPosition::Center if img_height > block_height => (img_height - block_height) / 2,
        _ => if img_height > block_height + COVER_TEXT_PADDING {
            img_height - block_height - COVER_TEXT_PADDING
        } else {
            10
        },
    }
}

/// The width within which the lines of the text block are aligned: the widest line,
/// limited to the room left between the block and the right margin.
pub fn cover_alignment_width(block_x: u32, img_width: u32, max_text_width: u32) -> (w: u32)
    ensures
        w == if block_x as int + 20 >= img_width as int {
            0
        } else if (max_text_width as int) < img_width - block_x - 20 {
            max_text_width as int
        } else {
            img_width - block_x - 20
        },
{
    let right = block_x.saturating_add(COVER_TEXT_PADDING);
    let room = img_width.saturating_sub(right);
    if max_text_width < room {
        max_text_width
    } else {
        room
    }
}

/// The left edge of one line of the text block: right- or center-aligned within the
/// alignment width for the right-hand and centred positions, left-aligned otherwise.
pub fn cover_line_x(position: CoverTextPosition, block_x: u32, alignment_width: u32, line_width: u32) -> (x: u32)
    requires
        block_x + alignment_width <= u32::MAX,
    ensures
        x == if (position == CoverTextPosition::TopRight || position == CoverTextPosition::BottomRight)
            && alignment_width > line_width {
            block_x + alignment_width - line_width
        } else if position == CoverTextPosition::Center && alignment_width > line_width {
            block_x + (alignment_width - line_width) / 2
        } else {
            block_x as int
        },
{
    let is_right_aligned = match position {
        CoverTextPosition::TopRight | CoverTextPosition::BottomRight => true,
        _ => false,
    };
    let is_center_aligned = match position {
        CoverTextPosition::Center => true,
        _ => false,
    };
    if is_right_aligned && alignment_width > line_width {
        block_x + alignment_width - line_width
    } else if is_center_aligned && alignment_width > line_width {
        block_x + (alignment_width - line_width) / 2
    } else {
        block_x
    }
}

/// The grey level of the cover text.
pub fn cover_text_shade(color: CoverTextColor) -> (v: u8)
    ensures
        v == match color {
            CoverTextColor::Black => 0u8,
            CoverTextColor::White => 255u8,
        },
{
    match color {
        CoverTextColor::Black => 0,
        CoverTextColor::White => 255,
    }
}

/// The lines drawn on the cover: the context, trimmed, when it is not blank, then the date.
pub fn cover_text_lines(context: &Option<String>, date: String) -> (lines: Vec<String>)
    ensures
        lines@.map_values(|l: String| l@) == match opt_view(*context) {
            Some(c) => if trimmed(c).len() > 0 {
                seq![trimmed(c), date@]
            } else {
                seq![date@]
            },
            None => seq![date@],
        },
{
    let mut lines: Vec<String> = Vec::new();
    match context {
        Some(c) => {
            let t = trim(c.as_str());
            if !t.as_str().is_empty() {
                lines.push(t);
            }
        },
        None => {},
    }
    lines.push(date);
    assert(lines@.map_values(|l: String| l@) =~= match opt_view(*context) {
        Some(c) => if trimmed(c).len() > 0 {
            seq![trimmed(c), date@]
        } else {
            seq![date@]
        },
        None => seq![date@],
    });
    lines
}

} // verus!
