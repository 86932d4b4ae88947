use std::io::{Cursor, Read};

use rsspub::book::{chapter_page, master_toc_page, source_toc_page, BookWriter};
use rsspub::epub_gen::article_links;
use rsspub::feed::{Article, ArticleSource};
use rsspub::plan::plan_epub;
use zip::ZipArchive;

const JUNE_15_2025_14_30: i64 = 1749997800;

fn create_article(title: &str, link: &str, content: &str, pub_date: i64, source: &str, position: i64) -> Article {
    Article {
        title: title.to_string(),
        link: link.to_string(),
        content: content.to_string(),
        pub_date,
        article_source: ArticleSource { source: source.to_string(), position, category: None },
    }
}

fn create_simple_article(title: &str, source: &str, position: i64) -> Article {
    create_article(
        title,
        &format!("https://example.com/{}", title.replace(' ', "-").to_lowercase()),
        &format!("<p>Content for article: {}</p>", title),
        JUNE_15_2025_14_30,
        source,
        position,
    )
}

/// Builds the whole digest, handing the parts to the writer from the last to the first.
fn generate_epub_to_vec(articles: &Vec<Article>) -> Vec<u8> {
    let plan = plan_epub(articles);
    let (prev, next) = article_links(&plan, articles);
    let mut w = BookWriter::start(None, "2025-06-15", None, plan.total_parts).expect("book opens");
    for i in (0..articles.len()).rev() {
        let page = chapter_page(&plan, articles, i, &articles[i].content, &prev[i], &next[i]);
        w.receive(plan.article_part_ids[i], page).expect("chapter");
    }
    for k in (0..plan.sources.len()).rev() {
        w.receive(plan.sources[k].part_id, source_toc_page(&plan, articles, k)).expect("source toc");
    }
    w.receive(0, master_toc_page(&plan)).expect("master toc");
    assert!(w.is_complete());
    w.finish().expect("archive")
}

fn extract_epub(epub_data: Vec<u8>) -> ZipArchive<Cursor<Vec<u8>>> {
    ZipArchive::new(Cursor::new(epub_data)).expect("Failed to open EPUB as ZIP")
}

fn read_epub_file(archive: &mut ZipArchive<Cursor<Vec<u8>>>, filename: &str) -> Option<String> {
    for i in 0..archive.len() {
        let mut file = archive.by_index(i).ok()?;
        if file.name().ends_with(filename) {
            let mut contents = String::new();
            file.read_to_string(&mut contents).ok()?;
            return Some(contents);
        }
    }
    None
}

fn file_names(archive: &mut ZipArchive<Cursor<Vec<u8>>>) -> Vec<String> {
    (0..archive.len())
        .filter_map(|i| archive.by_index_raw(i).ok().map(|f| f.name().to_string()))
        .collect()
}

#[test]
fn test_generate_epub_with_single_article() {
    let articles = vec![create_simple_article("Test Article", "Tech News", 0)];
    let epub_data = generate_epub_to_vec(&articles);
    assert!(!epub_data.is_empty(), "EPUB output should not be empty");
    let archive = extract_epub(epub_data);
    assert!(archive.len() > 0, "EPUB should contain files");
}

#[test]
fn test_article_with_html_content() {
    let html_content = r#"
        <h2>Subheading</h2>
        <p>This is a <strong>bold</strong> and <em>italic</em> text.</p>
        <ul>
            <li>Item 1</li>
            <li>Item 2</li>
        </ul>
        <blockquote>A quote</blockquote>
    "#;
    let articles = vec![create_article(
        "HTML Article",
        "https://example.com/html",
        html_content,
        JUNE_15_2025_14_30,
        "HTML Source",
        0,
    )];
    let mut archive = extract_epub(generate_epub_to_vec(&articles));
    let chapter = read_epub_file(&mut archive, "chapter_0.xhtml").unwrap();
    assert!(chapter.contains("<strong>bold</strong>") || chapter.contains("bold"), "Bold text should be preserved");
    assert!(chapter.contains("<li>") || chapter.contains("Item 1"), "List items should be preserved");
}

#[test]
fn test_article_with_unicode() {
    let articles = vec![create_article(
        "Unicode Article",
        "https://example.com/unicode",
        "<p>Content with special chars: € £ ¥</p>",
        JUNE_15_2025_14_30,
        "International News",
        0,
    )];
    let mut archive = extract_epub(generate_epub_to_vec(&articles));
    let chapter = read_epub_file(&mut archive, "chapter_0.xhtml").unwrap();
    assert!(chapter.contains("Unicode") || chapter.contains("€"), "Unicode characters should be preserved");
}

#[test]
fn test_content_opf_includes_language_metadata() {
    let articles = vec![create_simple_article("Language Test", "Metadata Source", 0)];
    let mut archive = extract_epub(generate_epub_to_vec(&articles));
    let content_opf = read_epub_file(&mut archive, "content.opf").unwrap();
    assert!(
        content_opf.contains("<dc:language") && content_opf.contains(">en</dc:language>"),
        "content.opf should include dc:language metadata"
    );
}

#[test]
fn test_long_article_content() {
    let long_content = "<p>".to_string() + &"Lorem ipsum dolor sit amet. ".repeat(1000) + "</p>";
    let articles = vec![create_article(
        "Long Article",
        "https://example.com/long",
        &long_content,
        JUNE_15_2025_14_30,
        "Long Content Source",
        0,
    )];
    let epub_data = generate_epub_to_vec(&articles);
    assert!(epub_data.len() > 1000, "EPUB should contain the long content");
}

#[test]
fn test_empty_article_content() {
    let articles = vec![create_article(
        "Empty Content Article",
        "https://example.com/empty",
        "",
        JUNE_15_2025_14_30,
        "Empty Source",
        0,
    )];
    let mut archive = extract_epub(generate_epub_to_vec(&articles));
    assert!(read_epub_file(&mut archive, "chapter_0.xhtml").is_some(), "Chapter file should exist even with empty content");
}

#[test]
fn test_epub_is_valid_zip() {
    let articles = vec![create_simple_article("Test Article", "Test Source", 0)];
    let epub_data = generate_epub_to_vec(&articles);
    assert!(ZipArchive::new(Cursor::new(epub_data)).is_ok(), "EPUB should be a valid ZIP file");
}

#[test]
fn test_epub_contains_required_files() {
    let articles = vec![
        create_simple_article("Article 1", "Source 1", 0),
        create_simple_article("Article 2", "Source 2", 1),
    ];
    let mut archive = extract_epub(generate_epub_to_vec(&articles));
    let filenames = file_names(&mut archive);
    assert!(filenames.iter().any(|n| n.contains("toc.xhtml")), "EPUB should contain master TOC");
    assert!(filenames.iter().any(|n| n.contains("chapter_")), "EPUB should contain chapter files");
}

#[test]
fn test_self_closing_tags_fixed() {
    let articles = vec![create_article(
        "Self-closing Test",
        "https://example.com/selfclose",
        "<p>Text with breaks</p>",
        JUNE_15_2025_14_30,
        "Self-closing Source",
        0,
    )];
    let mut archive = extract_epub(generate_epub_to_vec(&articles));
    let chapter = read_epub_file(&mut archive, "chapter_0.xhtml").unwrap();
    assert!(chapter.contains("Text with breaks"), "Content should be present");
}

#[test]
fn archive_holds_every_part_of_a_digest() {
    let articles = vec![
        create_simple_article("Tech News 1", "TechCrunch", 0),
        create_simple_article("Sports Update", "ESPN", 1),
        create_simple_article("Tech News 2", "TechCrunch", 0),
        create_simple_article("World News", "BBC World", 2),
    ];
    let mut archive = extract_epub(generate_epub_to_vec(&articles));
    let names = file_names(&mut archive);
    for f in [
        "OEBPS/toc.xhtml",
        "OEBPS/toc_techcrunch.xhtml",
        "OEBPS/toc_espn.xhtml",
        "OEBPS/toc_bbc_world.xhtml",
        "OEBPS/chapter_0.xhtml",
        "OEBPS/chapter_1.xhtml",
        "OEBPS/chapter_2.xhtml",
        "OEBPS/chapter_3.xhtml",
        "OEBPS/content.opf",
    ] {
        assert!(names.iter().any(|n| n == f), "missing {}", f);
    }
    let opf = read_epub_file(&mut archive, "content.opf").unwrap();
    assert!(opf.contains("RSS Digest - 2025-06-15"));
    assert!(opf.contains("RSSPub RSS Book"));
    // the spine follows the part order: master TOC, then each source's TOC and chapters
    let order: Vec<usize> = ["toc.xhtml\"", "toc_techcrunch.xhtml", "chapter_0.xhtml", "chapter_2.xhtml",
        "toc_espn.xhtml", "chapter_1.xhtml", "toc_bbc_world.xhtml", "chapter_3.xhtml"]
        .iter()
        .map(|f| opf.find(f).unwrap_or_else(|| panic!("{} not in content.opf", f)))
        .collect();
    assert!(order.windows(2).all(|w| w[0] < w[1]), "content.opf lists the parts out of order");
}

#[test]
fn archive_with_cover_image_and_page() {
    let articles = vec![create_simple_article("Only", "Solo", 0)];
    let plan = plan_epub(&articles);
    let (prev, next) = article_links(&plan, &articles);
    let cover = vec![0xFFu8, 0xD8, 0xFF, 0xE0, 1, 2, 3];
    let mut w = BookWriter::start(Some("fr".to_string()), "2025-06-15", Some(cover.clone()), plan.total_parts).unwrap();
    w.receive(0, master_toc_page(&plan)).unwrap();
    w.receive(plan.sources[0].part_id, source_toc_page(&plan, &articles, 0)).unwrap();
    w.receive(plan.article_part_ids[0], chapter_page(&plan, &articles, 0, &articles[0].content, &prev[0], &next[0])).unwrap();
    let mut archive = extract_epub(w.finish().unwrap());
    let mut image = Vec::new();
    archive.by_name("OEBPS/cover.jpg").unwrap().read_to_end(&mut image).unwrap();
    assert_eq!(image, cover);
    let cover_page = read_epub_file(&mut archive, "cover.xhtml").unwrap();
    assert!(cover_page.contains("<img src=\"cover.jpg\""));
    let opf = read_epub_file(&mut archive, "content.opf").unwrap();
    assert!(opf.contains(">fr</dc:language>"));
}

#[test]
fn digest_of_no_articles_holds_the_master_toc() {
    let bytes = rsspub::book::write_digest(&vec![], None, "2025-06-15", None).expect("digest");
    let mut archive = extract_epub(bytes);
    let names = file_names(&mut archive);
    assert!(names.iter().any(|n| n == "OEBPS/toc.xhtml"));
    assert!(!names.iter().any(|n| n.contains("chapter_")));
}

#[test]
fn digest_lists_sources_by_position() {
    let articles = vec![
        create_simple_article("Second Source Article", "Second Source", 1),
        create_simple_article("First Source Article", "First Source", 0),
        create_simple_article("Third Source Article", "Third Source", 2),
    ];
    let bytes = rsspub::book::write_digest(&articles, None, "2025-06-15", None).expect("digest");
    let mut archive = extract_epub(bytes);
    let toc = read_epub_file(&mut archive, "OEBPS/toc.xhtml").unwrap();
    let a = toc.find("First Source").unwrap();
    let b = toc.find("Second Source").unwrap();
    let c = toc.find("Third Source").unwrap();
    assert!(a < b && b < c);
    for f in ["toc_first_source.xhtml", "toc_second_source.xhtml", "toc_third_source.xhtml", "chapter_0.xhtml", "chapter_1.xhtml", "chapter_2.xhtml"] {
        assert!(read_epub_file(&mut archive, f).is_some(), "missing {}", f);
    }
}

#[test]
fn digest_with_colliding_source_names_is_refused() {
    // "A B" and "A_B" share the table of contents file toc_a_b.xhtml
    let articles = vec![create_simple_article("one", "A B", 0), create_simple_article("two", "A_B", 1)];
    assert!(rsspub::book::write_digest(&articles, None, "2025-06-15", None).is_err());
}

#[test]
fn test_html_cleaning_removes_scripts() {
    let articles = vec![create_article(
        "Script Test",
        "https://example.com/script",
        "<p>Good content</p><script>evil()</script><p>More good content</p>",
        JUNE_15_2025_14_30,
        "Script Source",
        0,
    )];
    let bytes = rsspub::book::write_digest(&articles, None, "2025-06-15", None).expect("digest");
    let mut archive = extract_epub(bytes);
    let chapter = read_epub_file(&mut archive, "chapter_0.xhtml").unwrap();
    assert!(!chapter.contains("<script>"), "Script tags should be removed");
    assert!(!chapter.contains("evil()"), "Script content should be removed");
    assert!(chapter.contains("Good content"), "Good content should remain");
}
