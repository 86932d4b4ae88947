use rsspub::book::{chapter_page, master_toc_page, source_toc_page, BookWriter, Landmark, Page};
use rsspub::feed::{Article, ArticleSource};
use rsspub::plan::plan_epub;

fn page(name: &str) -> Page {
    Page {
        filename: format!("{}.xhtml", name),
        title: name.to_string(),
        content: format!("<?xml version=\"1.0\"?><html><body><p>{}</p></body></html>", name),
        landmark: Landmark::Text,
    }
}

fn article(title: &str, source: &str, position: i64) -> Article {
    Article {
        title: title.to_string(),
        link: format!("https://example.com/{}", title),
        content: format!("<p>{}</p>", title),
        pub_date: 1749997800,
        article_source: ArticleSource { source: source.to_string(), position, category: None },
    }
}

#[test]
fn book_writes_parts_only_in_number_order() {
    let mut w = BookWriter::start(None, "2025-06-15", None, 3).expect("book opens");
    assert_eq!(w.written(), 0);
    w.receive(2, page("c")).expect("part 2");
    assert_eq!(w.written(), 0);
    assert!(!w.is_complete());
    w.receive(0, page("a")).expect("part 0");
    assert_eq!(w.written(), 1);
    w.receive(1, page("b")).expect("part 1");
    assert_eq!(w.written(), 3);
    assert!(w.is_complete());
    let bytes = w.finish().expect("archive");
    assert!(bytes.starts_with(b"PK"));
}

#[test]
fn book_with_cover_and_language() {
    let cover = vec![0xFFu8, 0xD8, 0xFF, 0xE0, 0, 0];
    let mut w = BookWriter::start(Some(" de ".to_string()), "2025-06-15", Some(cover), 1).expect("book opens");
    w.receive(0, page("only")).expect("part 0");
    assert!(w.is_complete());
    let bytes = w.finish().expect("archive");
    assert!(bytes.len() > 100);
    assert!(bytes.starts_with(b"PK"));
}

#[test]
fn book_of_zero_parts_is_complete_at_once() {
    let w = BookWriter::start(None, "2025-06-15", None, 0).expect("book opens");
    assert!(w.is_complete());
    assert!(w.finish().is_ok());
}

#[test]
fn pages_of_a_digest_plan() {
    let articles = vec![article("one", "Alpha", 1), article("two", "Beta", 0), article("three", "Alpha", 1)];
    let plan = plan_epub(&articles);
    let master = master_toc_page(&plan);
    assert_eq!(master.filename, "toc.xhtml");
    assert_eq!(master.title, "Table of Contents");
    assert_eq!(master.landmark, Landmark::Toc);
    assert!(master.content.contains("toc_beta.xhtml"));
    let first = source_toc_page(&plan, &articles, 0);
    assert_eq!(first.title, "Beta");
    assert_eq!(first.filename, "toc_beta.xhtml");
    assert!(first.content.contains("chapter_1.xhtml"));
    let chapter = chapter_page(&plan, &articles, 2, "<p>three</p>", &Some("chapter_0.xhtml".to_string()), &None);
    assert_eq!(chapter.filename, "chapter_2.xhtml");
    assert_eq!(chapter.title, "three");
    assert!(chapter.content.contains("chapter_0.xhtml"));
    assert!(chapter.content.contains("2025-06-15 14:30"));
}

#[test]
fn whole_digest_assembles_in_part_order() {
    let articles = vec![article("one", "Alpha", 1), article("two", "Beta", 0), article("three", "Alpha", 1)];
    let plan = plan_epub(&articles);
    let mut w = BookWriter::start(None, "2025-06-15", None, plan.total_parts).expect("book opens");
    // chapters first, in reverse, then the tables of contents
    for i in (0..articles.len()).rev() {
        let p = chapter_page(&plan, &articles, i, &articles[i].content, &None, &None);
        w.receive(plan.article_part_ids[i], p).expect("chapter");
    }
    for k in (0..plan.sources.len()).rev() {
        w.receive(plan.sources[k].part_id, source_toc_page(&plan, &articles, k)).expect("source toc");
    }
    assert!(!w.is_complete());
    w.receive(0, master_toc_page(&plan)).expect("master toc");
    assert!(w.is_complete());
    assert_eq!(w.written(), plan.total_parts);
    assert!(w.finish().expect("archive").starts_with(b"PK"));
}
