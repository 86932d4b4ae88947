//! The XHTML pages of a digest: the page wrapper, the tables of contents, the cover
//! page and the article page. Text that comes from feeds is HTML-escaped; page
//! bodies that are already markup are inserted as they are.
use vstd::prelude::*;
use crate::links::opt_view;
use crate::text::{escape_html, push_escaped, push_str, string_of};

verus! {

/// Wraps a page body into a complete XHTML document.
pub struct XhtmlWrapper<'a> {
    pub title: &'a str,
    pub content: &'a str,
}

/// A link to the table of contents of one source.
pub struct TocEntry {
    pub toc_filename: String,
    pub name: String,
}

/// The sources of one category, in the master table of contents.
pub struct CategoryGroup {
    pub category: String,
    pub sources: Vec<TocEntry>,
}

/// The master table of contents.
pub struct MasterToc {
    pub groups: Vec<CategoryGroup>,
}

/// A link to one article, in the table of contents of its source.
pub struct ArticleEntry {
    pub filename: String,
    pub title: String,
}

/// The table of contents of one source.
pub struct SourceToc {
    pub source_name: String,
    pub articles: Vec<ArticleEntry>,
    pub next_toc_link: Option<(String, String)>,
}

/// The cover page.
pub struct CoverTemplate<'a> {
    pub image_path: &'a str,
}

/// The page of one article.
pub struct ArticleTemplate<'a> {
    pub title: &'a str,
    pub source: &'a str,
    pub pub_date: String,
    pub content: &'a str,
    pub original_link: &'a str,
    pub back_link: String,
    pub prev_link: Option<String>,
    pub next_link: Option<String>,
}

/// The XHTML document with the given title and body.
pub open spec fn xhtml_page(title: Seq<char>, content: Seq<char>) -> Seq<char> {
    "<?xml version=\"1.0\" encoding=\"UTF-8\"?>\n<!DOCTYPE html>\n<html xmlns=\"http://www.w3.org/1999/xhtml\" xmlns:epub=\"http://www.idpf.org/2007/ops\">\n<head>\n<meta charset=\"UTF-8\" />\n<title>"@
        + escape_html(title) + "</title>\n</head>\n<body>\n"@ + content + "\n</body>\n</html>\n"@
}

/// A list item that links `href` with the text `label`.
pub open spec fn link_item(href: Seq<char>, label: Seq<char>) -> Seq<char> {
    "<li><a href=\""@ + escape_html(href) + "\">"@ + escape_html(label) + "</a></li>\n"@
}

/// The list items that link each `(href, label)` pair.
pub open spec fn entries_html(entries: Seq<(Seq<char>, Seq<char>)>) -> Seq<char>
    decreases entries.len(),
{
    if entries.len() == 0 {
        Seq::empty()
    } else {
        entries_html(entries.drop_last()) + link_item(entries.last().0, entries.last().1)
    }
}

/// The (file, name) pair of a source's entry.
pub open spec fn toc_entry_view(e: TocEntry) -> (Seq<char>, Seq<char>) {
    (e.toc_filename@, e.name@)
}

/// A category group as its name and its (file, name) pairs.
pub open spec fn category_group_view(g: CategoryGroup) -> (Seq<char>, Seq<(Seq<char>, Seq<char>)>) {
    (g.category@, g.sources@.map_values(|e: TocEntry| toc_entry_view(e)))
}

/// The (file, title) pair of an article's entry.
pub open spec fn article_entry_view(e: ArticleEntry) -> (Seq<char>, Seq<char>) {
    (e.filename@, e.title@)
}

/// The view of an optional (file, name) link.
pub open spec fn opt_pair_view(o: Option<(String, String)>) -> Option<(Seq<char>, Seq<char>)> {
    match o {
        Some((a, b)) => Some((a@, b@)),
        None => None,
    }
}

/// The heading and list of one category group.
pub open spec fn group_html(category: Seq<char>, entries: Seq<(Seq<char>, Seq<char>)>) -> Seq<char> {
    "<h2>"@ + escape_html(category) + "</h2>\n<ul>\n"@ + entries_html(entries) + "</ul>\n"@
}

/// The groups of the master table of contents, in order.
pub open spec fn groups_html(groups: Seq<(Seq<char>, Seq<(Seq<char>, Seq<char>)>)>) -> Seq<char>
    decreases groups.len(),
{
    if groups.len() == 0 {
        Seq::empty()
    } else {
        groups_html(groups.drop_last()) + group_html(groups.last().0, groups.last().1)
    }
}

/// The body of the master table of contents.
pub open spec fn master_toc_html(groups: Seq<(Seq<char>, Seq<(Seq<char>, Seq<char>)>)>) -> Seq<char> {
    "<h1>Table of Contents</h1>\n"@ + groups_html(groups)
}

/// The link to the next source's table of contents, if there is one.
pub open spec fn next_toc_html(next: Option<(Seq<char>, Seq<char>)>) -> Seq<char> {
    match next {
        Some((file, name)) => "<p><a href=\""@ + escape_html(file) + "\">Next: "@ + escape_html(
            name,
        ) + "</a></p>\n"@,
        None => Seq::empty(),
    }
}

/// The body of a source's table of contents.
pub open spec fn source_toc_html(
    source: Seq<char>,
    articles: Seq<(Seq<char>, Seq<char>)>,
    next: Option<(Seq<char>, Seq<char>)>,
) -> Seq<char> {
    "<h1>"@ + escape_html(source) + "</h1>\n<p><a href=\"toc.xhtml\">Back to Master TOC</a></p>\n<ul>\n"@
        + entries_html(articles) + "</ul>\n"@ + next_toc_html(next)
}

/// The body of the cover page.
pub open spec fn cover_html(image_path: Seq<char>) -> Seq<char> {
    "<div class=\"cover\"><img src=\""@ + escape_html(image_path) + "\" alt=\"Cover\" /></div>\n"@
}

/// A navigation link with the given label, if there is a target.
pub open spec fn nav_link_html(link: Option<Seq<char>>, label: Seq<char>) -> Seq<char> {
    match link {
        Some(l) => " | <a href=\""@ + escape_html(l) + "\">"@ + label + "</a>"@,
        None => Seq::empty(),
    }
}

/// The body of an article page.
pub open spec fn article_html(
    title: Seq<char>,
    source: Seq<char>,
    pub_date: Seq<char>,
    content: Seq<char>,
    original_link: Seq<char>,
    back_link: Seq<char>,
    prev_link: Option<Seq<char>>,
    next_link: Option<Seq<char>>,
) -> Seq<char> {
    "<h1>"@ + escape_html(title) + "</h1>\n<p class=\"meta\">"@ + escape_html(source) + " | "@
        + escape_html(pub_date) + "</p>\n<p><a href=\""@ + escape_html(original_link)
        + "\">Read original article</a></p>\n<div class=\"content\">\n"@ + content
        + "\n</div>\n<p class=\"nav\"><a href=\""@ + escape_html(back_link)
        + "\">Back to Feed TOC</a>"@ + nav_link_html(prev_link, "Previous"@) + nav_link_html(
        next_link,
        "Next"@,
    ) + "</p>\n"@
}

/// `t` occurs somewhere in `s`.
pub open spec fn holds_text(s: Seq<char>, t: Seq<char>) -> bool {
    exists|a: Seq<char>, b: Seq<char>| s == a + t + b
}

/// On an article page every field that comes from the feed stands escaped in its place:
/// the title in the heading, the source and the date in the byline, the link to the
/// original article as the target of its link, and the back, previous and next links
/// as the targets of the navigation links. Escaped text holds no `<`, `>`, `"` or `'`, and each of its `&`
/// begins a character reference, so none of these fields can break the page's markup.
#[verifier::rlimit(60)]
pub proof fn lemma_article_page_escapes_feed_text(
    title: Seq<char>,
    source: Seq<char>,
    pub_date: Seq<char>,
    content: Seq<char>,
    original_link: Seq<char>,
    back_link: Seq<char>,
    prev_link: Option<Seq<char>>,
    next_link: Option<Seq<char>>,
)
    ensures
        ({
            let page = article_html(title, source, pub_date, content, original_link, back_link, prev_link, next_link);
            &&& holds_text(page, "<h1>"@ + escape_html(title) + "</h1>\n<p class=\"meta\">"@)
            &&& holds_text(page, "</h1>\n<p class=\"meta\">"@ + escape_html(source) + " | "@ + escape_html(pub_date)
                + "</p>\n<p><a href=\""@)
            &&& holds_text(page, "</p>\n<p><a href=\""@ + escape_html(original_link)
                + "\">Read original article</a></p>\n<div class=\"content\">\n"@)
            &&& holds_text(page, "\n</div>\n<p class=\"nav\"><a href=\""@ + escape_html(back_link)
                + "\">Back to Feed TOC</a>"@)
            &&& (prev_link matches Some(l) ==> holds_text(page, " | <a href=\""@ + escape_html(l) + "\">"@ + "Previous"@))
            &&& (next_link matches Some(l) ==> holds_text(page, " | <a href=\""@ + escape_html(l) + "\">"@ + "Next"@))
        }),
        forall|i: int| 0 <= i < escape_html(original_link).len() ==> {
            let c = #[trigger] escape_html(original_link)[i];
            c != '<' && c != '>' && c != '"' && c != '\'' && (c == '&' ==> crate::text::entity_at(escape_html(original_link), i))
        },
{
    let h1 = "<h1>"@;
    let l1 = "</h1>\n<p class=\"meta\">"@;
    let l2 = " | "@;
    let l3 = "</p>\n<p><a href=\""@;
    let l4 = "\">Read original article</a></p>\n<div class=\"content\">\n"@;
    let l5 = "\n</div>\n<p class=\"nav\"><a href=\""@;
    let l6 = "\">Back to Feed TOC</a>"@;
    let et = escape_html(title);
    let es = escape_html(source);
    let ed = escape_html(pub_date);
    let eo = escape_html(original_link);
    let eb = escape_html(back_link);
    let rest = nav_link_html(prev_link, "Previous"@) + nav_link_html(next_link, "Next"@) + "</p>\n"@;
    let p1 = h1 + et + l1;
    let p2 = p1 + es + l2 + ed + l3;
    let p3 = p2 + eo + l4;
    let p4 = p3 + content + l5 + eb + l6;
    let page = article_html(title, source, pub_date, content, original_link, back_link, prev_link, next_link);
    assert(page == p4 + rest);
    // the heading
    assert(holds_text(page, h1 + et + l1)) by {
    lemma_holds_mid(Seq::empty(), h1 + et + l1, Seq::empty());
    assert(Seq::<char>::empty() + (h1 + et + l1) + Seq::<char>::empty() =~= p1);
    lemma_holds_extend(p1, h1 + et + l1, es + l2 + ed + l3 + eo + l4 + content + l5 + eb + l6 + rest);
    assert(p1 + (es + l2 + ed + l3 + eo + l4 + content + l5 + eb + l6 + rest) =~= page);
    }
    // the byline
    assert(holds_text(page, l1 + es + l2 + ed + l3)) by {
    lemma_holds_mid(h1 + et, l1 + es + l2 + ed + l3, Seq::empty());
    assert((h1 + et) + (l1 + es + l2 + ed + l3) + Seq::<char>::empty() =~= p2);
    lemma_holds_extend(p2, l1 + es + l2 + ed + l3, eo + l4 + content + l5 + eb + l6 + rest);
    assert(p2 + (eo + l4 + content + l5 + eb + l6 + rest) =~= page);
    }
    // the link to the original article
    assert(holds_text(page, l3 + eo + l4)) by {
    lemma_holds_mid(p2.subrange(0, p2.len() - l3.len()), l3 + eo + l4, Seq::empty());
    assert(p2.subrange(0, p2.len() - l3.len()) + (l3 + eo + l4) + Seq::<char>::empty() =~= p3);
    lemma_holds_extend(p3, l3 + eo + l4, content + l5 + eb + l6 + rest);
    assert(p3 + (content + l5 + eb + l6 + rest) =~= page);
    }
    // the back link
    assert(holds_text(page, l5 + eb + l6)) by {
    lemma_holds_mid(p3 + content, l5 + eb + l6, rest);
    assert((p3 + content) + (l5 + eb + l6) + rest =~= page);
    }
    // the previous and next links
    let np = nav_link_html(prev_link, "Previous"@);
    let nn = nav_link_html(next_link, "Next"@);
    assert(page == p4 + np + nn + "</p>\n"@);
    if let Some(l) = prev_link {
        assert(holds_text(page, " | <a href=\""@ + escape_html(l) + "\">"@ + "Previous"@)) by {
            let t = " | <a href=\""@ + escape_html(l) + "\">"@ + "Previous"@;
            lemma_holds_mid(p4, t, "</a>"@ + nn + "</p>\n"@);
            assert(p4 + t + ("</a>"@ + nn + "</p>\n"@) =~= page);
        }
    }
    if let Some(l) = next_link {
        assert(holds_text(page, " | <a href=\""@ + escape_html(l) + "\">"@ + "Next"@)) by {
            let t = " | <a href=\""@ + escape_html(l) + "\">"@ + "Next"@;
            lemma_holds_mid(p4 + np, t, "</a>"@ + "</p>\n"@);
            assert((p4 + np) + t + ("</a>"@ + "</p>\n"@) =~= page);
        }
    }
    crate::text::lemma_escape_html_no_markup(original_link);
    crate::text::lemma_escape_html_ampersands(original_link);
}

proof fn lemma_holds_mid(x: Seq<char>, t: Seq<char>, y: Seq<char>)
    ensures
        holds_text(x + t + y, t),
{
}

proof fn lemma_holds_extend(s: Seq<char>, t: Seq<char>, y: Seq<char>)
    requires
        holds_text(s, t),
    ensures
        holds_text(s + y, t),
{
    let (a, b) = choose|a: Seq<char>, b: Seq<char>| s == a + t + b;
    assert(s + y =~= a + t + (b + y));
}

/// A source's table of contents lists its articles in the order given: adding an
/// article to the end adds its list item as the last item of the list, right before
/// the list closes, and leaves everything before it as it was.
pub proof fn lemma_source_toc_lists_in_order(
    source: Seq<char>,
    articles: Seq<(Seq<char>, Seq<char>)>,
    e: (Seq<char>, Seq<char>),
    next: Option<(Seq<char>, Seq<char>)>,
)
    ensures
        ({
            let tail = "</ul>\n"@ + next_toc_html(next);
            let before = source_toc_html(source, articles, next);
            &&& before.len() >= tail.len()
            &&& source_toc_html(source, articles.push(e), next) == before.subrange(0, before.len() - tail.len())
                + link_item(e.0, e.1) + tail
        }),
{
    let tail = "</ul>\n"@ + next_toc_html(next);
    let head = "<h1>"@ + escape_html(source) + "</h1>\n<p><a href=\"toc.xhtml\">Back to Master TOC</a></p>\n<ul>\n"@;
    assert(articles.push(e).drop_last() =~= articles);
    assert(entries_html(articles.push(e)) == entries_html(articles) + link_item(e.0, e.1));
    let before = source_toc_html(source, articles, next);
    assert(before =~= head + entries_html(articles) + tail);
    assert(before.subrange(0, before.len() - tail.len()) =~= head + entries_html(articles));
    assert(source_toc_html(source, articles.push(e), next) =~= head + entries_html(articles) + link_item(e.0, e.1) + tail);
}

/// A category group of the master table of contents lists its sources in the order
/// given: adding a source to the end adds its list item as the last item of the list.
pub proof fn lemma_group_lists_in_order(
    category: Seq<char>,
    entries: Seq<(Seq<char>, Seq<char>)>,
    e: (Seq<char>, Seq<char>),
)
    ensures
        ({
            let before = group_html(category, entries);
            &&& before.len() >= 6
            &&& group_html(category, entries.push(e)) == before.subrange(0, before.len() - 6)
                + link_item(e.0, e.1) + "</ul>\n"@
        }),
{
    reveal_strlit("</ul>\n");
    let head = "<h2>"@ + escape_html(category) + "</h2>\n<ul>\n"@;
    assert(entries.push(e).drop_last() =~= entries);
    let before = group_html(category, entries);
    assert(before =~= head + entries_html(entries) + "</ul>\n"@);
    assert(before.subrange(0, before.len() - 6) =~= head + entries_html(entries));
    assert(group_html(category, entries.push(e)) =~= head + entries_html(entries) + link_item(e.0, e.1) + "</ul>\n"@);
}

fn push_link_item(out: &mut Vec<char>, href: &str, label: &str)
    ensures
        final(out)@ == old(out)@ + link_item(href@, label@),
{
    push_str(out, "<li><a href=\"");
    push_escaped(out, href);
    push_str(out, "\">");
    push_escaped(out, label);
    push_str(out, "</a></li>\n");
    assert(out@ =~= old(out)@ + link_item(href@, label@));
}

impl<'a> XhtmlWrapper<'a> {
    /// The complete XHTML document.
    pub fn render(&self) -> (r: String)
        ensures
            r@ == xhtml_page(self.title@, self.content@),
    {
        let mut out: Vec<char> = Vec::new();
        push_str(
            &mut out,
            "<?xml version=\"1.0\" encoding=\"UTF-8\"?>\n<!DOCTYPE html>\n<html xmlns=\"http://www.w3.org/1999/xhtml\" xmlns:epub=\"http://www.idpf.org/2007/ops\">\n<head>\n<meta charset=\"UTF-8\" />\n<title>",
        );
        push_escaped(&mut out, self.title);
        push_str(&mut out, "</title>\n</head>\n<body>\n");
        push_str(&mut out, self.content);
        push_str(&mut out, "\n</body>\n</html>\n");
        assert(out@ =~= xhtml_page(self.title@, self.content@));
        string_of(&out)
    }
}

impl MasterToc {
    /// The body of the master table of contents.
    pub fn render(&self) -> (r: String)
        ensures
            r@ == master_toc_html(self.groups@.map_values(|g: CategoryGroup| category_group_view(g))),
    {
        let mut out: Vec<char> = Vec::new();
        push_str(&mut out, "<h1>Table of Contents</h1>\n");
        let ghost start = out@;
        let mut i: usize = 0;
        while i < self.groups.len()
            invariant
                i <= self.groups.len(),
                out@ == start + groups_html(self.groups@.take(i as int).map_values(|g: CategoryGroup| category_group_view(g))),
            decreases self.groups.len() - i,
        {
            let g = &self.groups[i];
            let ghost before = out@;
            push_str(&mut out, "<h2>");
            push_escaped(&mut out, g.category.as_str());
            push_str(&mut out, "</h2>\n<ul>\n");
            let ghost mid = out@;
            let mut j: usize = 0;
            while j < g.sources.len()
                invariant
                    j <= g.sources.len(),
                    out@ == mid + entries_html(g.sources@.take(j as int).map_values(|e: TocEntry| toc_entry_view(e))),
                decreases g.sources.len() - j,
            {
                let e = &g.sources[j];
                push_link_item(&mut out, e.toc_filename.as_str(), e.name.as_str());
                assert(g.sources@.take(j + 1).map_values(|e: TocEntry| toc_entry_view(e)).drop_last() =~= g.sources@.take(j as int).map_values(|e: TocEntry| toc_entry_view(e)));
                j = j + 1;
            }
            assert(g.sources@.take(g.sources.len() as int) =~= g.sources@);
            push_str(&mut out, "</ul>\n");
            assert(out@ =~= before + group_html(category_group_view(*g).0, category_group_view(*g).1));
            assert(self.groups@.take(i + 1).map_values(|g: CategoryGroup| category_group_view(g)).drop_last() =~= self.groups@.take(i as int).map_values(|g: CategoryGroup| category_group_view(g)));
            i = i + 1;
        }
        assert(self.groups@.take(self.groups.len() as int) =~= self.groups@);
        string_of(&out)
    }
}

impl SourceToc {
    /// The body of this source's table of contents.
    pub fn render(&self) -> (r: String)
        ensures
            r@ == source_toc_html(
                self.source_name@,
                self.articles@.map_values(|e: ArticleEntry| article_entry_view(e)),
                opt_pair_view(self.next_toc_link),
            ),
    {
        let mut out: Vec<char> = Vec::new();
        push_str(&mut out, "<h1>");
        push_escaped(&mut out, self.source_name.as_str());
        push_str(&mut out, "</h1>\n<p><a href=\"toc.xhtml\">Back to Master TOC</a></p>\n<ul>\n");
        let ghost start = out@;
        let mut i: usize = 0;
        while i < self.articles.len()
            invariant
                i <= self.articles.len(),
                out@ == start + entries_html(self.articles@.take(i as int).map_values(|e: ArticleEntry| article_entry_view(e))),
            decreases self.articles.len() - i,
        {
            let e = &self.articles[i];
            push_link_item(&mut out, e.filename.as_str(), e.title.as_str());
            assert(self.articles@.take(i + 1).map_values(|e: ArticleEntry| article_entry_view(e)).drop_last() =~= self.articles@.take(i as int).map_values(|e: ArticleEntry| article_entry_view(e)));
            i = i + 1;
        }
        assert(self.articles@.take(self.articles.len() as int) =~= self.articles@);
        push_str(&mut out, "</ul>\n");
        let ghost before_next = out@;
        match &self.next_toc_link {
            Some((file, name)) => {
                push_str(&mut out, "<p><a href=\"");
                push_escaped(&mut out, file.as_str());
                push_str(&mut out, "\">Next: ");
                push_escaped(&mut out, name.as_str());
                push_str(&mut out, "</a></p>\n");
            },
            None => {},
        }
        assert(out@ =~= before_next + next_toc_html(opt_pair_view(self.next_toc_link)));
        assert(out@ =~= source_toc_html(
            self.source_name@,
            self.articles@.map_values(|e: ArticleEntry| article_entry_view(e)),
            opt_pair_view(self.next_toc_link),
        ));
        string_of(&out)
    }
}

impl<'a> CoverTemplate<'a> {
    /// The body of the cover page.
    pub fn render(&self) -> (r: String)
        ensures
            r@ == cover_html(self.image_path@),
    {
        let mut out: Vec<char> = Vec::new();
        push_str(&mut out, "<div class=\"cover\"><img src=\"");
        push_escaped(&mut out, self.image_path);
        push_str(&mut out, "\" alt=\"Cover\" /></div>\n");
        assert(out@ =~= cover_html(self.image_path@));
        string_of(&out)
    }
}

fn push_nav_link(out: &mut Vec<char>, link: &Option<String>, label: &str)
    ensures
        final(out)@ == old(out)@ + nav_link_html(opt_view(*link), label@),
{
    match link {
        Some(l) => {
            push_str(out, " | <a href=\"");
            push_escaped(out, l.as_str());
            push_str(out, "\">");
            push_str(out, label);
            push_str(out, "</a>");
        },
        None => {},
    }
    assert(out@ =~= old(out)@ + nav_link_html(opt_view(*link), label@));
}

impl<'a> ArticleTemplate<'a> {
    /// The body of the article page.
    pub fn render(&self) -> (r: String)
        ensures
            r@ == article_html(
                self.title@,
                self.source@,
                self.pub_date@,
                self.content@,
                self.original_link@,
                self.back_link@,
                opt_view(self.prev_link),
                opt_view(self.next_link),
            ),
    {
        let mut out: Vec<char> = Vec::new();
        push_str(&mut out, "<h1>");
        push_escaped(&mut out, self.title);
        push_str(&mut out, "</h1>\n<p class=\"meta\">");
        push_escaped(&mut out, self.source);
        push_str(&mut out, " | ");
        push_escaped(&mut out, self.pub_date.as_str());
        push_str(&mut out, "</p>\n<p><a href=\"");
        push_escaped(&mut out, self.original_link);
        push_str(&mut out, "\">Read original article</a></p>\n<div class=\"content\">\n");
        push_str(&mut out, self.content);
        push_str(&mut out, "\n</div>\n<p class=\"nav\"><a href=\"");
        push_escaped(&mut out, self.back_link.as_str());
        push_str(&mut out, "\">Back to Feed TOC</a>");
        push_nav_link(&mut out, &self.prev_link, "Previous");
        push_nav_link(&mut out, &self.next_link, "Next");
        push_str(&mut out, "</p>\n");
        assert(out@ =~= article_html(
            self.title@,
            self.source@,
            self.pub_date@,
            self.content@,
            self.original_link@,
            self.back_link@,
            opt_view(self.prev_link),
            opt_view(self.next_link),
        ));
        string_of(&out)
    }
}

} // verus!
