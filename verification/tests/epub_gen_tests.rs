use rsspub::epub_gen::{
    article_links, chapter_content, cover_alignment_width, cover_block_x, cover_block_y,
    cover_line_x, cover_text_lines, cover_text_shade, master_toc_content, source_toc_content,
    CoverTextConfig,
};
use rsspub::feed::{Article, ArticleSource};
use rsspub::links::generate_prev_next_links;
use rsspub::models::{CoverTextColor, CoverTextPosition, CoverTextSize};
use rsspub::plan::{chapter_file_name, ordered_sources, plan_epub, source_slug, source_toc_filename, EpubPlan};
use rsspub::sequencer::SequenceBuffer;

const JUNE_15_2025_14_30: i64 = 1749997800;

fn create_article(title: &str, link: &str, content: &str, pub_date: i64, source: &str, position: i64) -> Article {
    Article {
        title: title.to_string(),
        link: link.to_string(),
        content: content.to_string(),
        pub_date,
        article_source: ArticleSource { source: source.to_string(), position, category: None },
    }
}

fn create_simple_article(title: &str, source: &str, position: i64) -> Article {
    create_article(
        title,
        &format!("https://example.com/{}", title.replace(' ', "-").to_lowercase()),
        &format!("<p>Content for article: {}</p>", title),
        JUNE_15_2025_14_30,
        source,
        position,
    )
}

fn source_page(plan: &EpubPlan, articles: &Vec<Article>, name: &str) -> String {
    let k = plan.sources.iter().position(|s| s.name == name).expect("source should be planned");
    source_toc_content(plan, articles, k)
}

fn chapter_page(plan: &EpubPlan, articles: &Vec<Article>, i: usize) -> String {
    let (prev, next) = article_links(plan, articles);
    chapter_content(articles, i, &articles[i].content, &prev[i], &next[i])
}

#[test]
fn test_generate_epub_with_multiple_articles_single_source() {
    let articles = vec![
        create_simple_article("Article One", "Tech Blog", 0),
        create_simple_article("Article Two", "Tech Blog", 0),
        create_simple_article("Article Three", "Tech Blog", 0),
    ];
    let plan = plan_epub(&articles);
    assert_eq!(plan.chapter_filenames, vec!["chapter_0.xhtml", "chapter_1.xhtml", "chapter_2.xhtml"]);
    assert_eq!(plan.sources.len(), 1);
    assert_eq!(plan.sources[0].articles, vec![0, 1, 2]);
}

#[test]
fn test_generate_epub_with_multiple_sources() {
    let articles = vec![
        create_simple_article("Tech Article 1", "Tech News", 0),
        create_simple_article("Tech Article 2", "Tech News", 0),
        create_simple_article("Sports Article 1", "Sports Daily", 1),
        create_simple_article("Science Article 1", "Science Weekly", 2),
    ];
    let plan = plan_epub(&articles);
    let toc = master_toc_content(&plan);
    assert!(toc.contains("Table of Contents"));
    assert!(toc.contains("Tech News"));
    assert!(toc.contains("Sports Daily"));
    assert!(toc.contains("Science Weekly"));
}

#[test]
fn test_generate_epub_empty_articles() {
    let articles: Vec<Article> = vec![];
    let plan = plan_epub(&articles);
    assert_eq!(plan.total_parts, 1);
    assert!(plan.sources.is_empty());
    let toc = master_toc_content(&plan);
    assert!(toc.contains("<h1>Table of Contents</h1>"));
}

#[test]
fn test_master_toc_structure() {
    let articles = vec![
        create_simple_article("Article A", "Source Alpha", 0),
        create_simple_article("Article B", "Source Beta", 1),
    ];
    let plan = plan_epub(&articles);
    let master_toc = master_toc_content(&plan);
    assert!(master_toc.contains("<h1>Table of Contents</h1>"), "Should have TOC heading");
    assert!(master_toc.contains("<ul>"), "Should have unordered list");
    assert!(master_toc.contains("</ul>"), "Should close unordered list");
    assert!(master_toc.contains("toc_source_alpha.xhtml"), "Should link to Source Alpha TOC");
    assert!(master_toc.contains("toc_source_beta.xhtml"), "Should link to Source Beta TOC");
}

#[test]
fn test_source_toc_structure() {
    let articles = vec![
        create_simple_article("First Article", "My Feed", 0),
        create_simple_article("Second Article", "My Feed", 0),
    ];
    let plan = plan_epub(&articles);
    assert_eq!(plan.sources[0].toc_filename, "toc_my_feed.xhtml");
    let source_toc = source_page(&plan, &articles, "My Feed");
    assert!(source_toc.contains("My Feed"), "Should have source name as heading");
    assert!(source_toc.contains("Back to Master TOC"), "Should have back link");
    assert!(source_toc.contains("toc.xhtml"), "Should link back to master TOC");
    assert!(source_toc.contains("chapter_0.xhtml"), "Should link to first article");
    assert!(source_toc.contains("chapter_1.xhtml"), "Should link to second article");
    assert!(source_toc.contains("First Article"), "Should show first article title");
    assert!(source_toc.contains("Second Article"), "Should show second article title");
}

#[test]
fn test_toc_escaping_special_characters() {
    let articles = vec![create_article(
        "Article with <special> & \"characters\"",
        "https://example.com/article",
        "<p>Content</p>",
        JUNE_15_2025_14_30,
        "Source with Tags",
        0,
    )];
    let plan = plan_epub(&articles);
    let master_toc = master_toc_content(&plan);
    assert!(master_toc.contains("Source with Tags"), "Should contain source name");
    let source_toc = source_page(&plan, &articles, "Source with Tags");
    assert!(source_toc.contains("Article with &lt;special&gt; &amp; &quot;characters&quot;"));
    assert!(!source_toc.contains("<special>"));
}

#[test]
fn test_article_content_basic() {
    let articles = vec![create_article(
        "Title Test",
        "https://example.com/test",
        "<p>Content with some text</p>",
        JUNE_15_2025_14_30,
        "Test Source",
        0,
    )];
    let plan = plan_epub(&articles);
    let chapter = chapter_page(&plan, &articles, 0);
    assert!(chapter.contains("Title Test"), "Chapter should contain title");
    assert!(chapter.contains("<p>Content with some text</p>"));
}

#[test]
fn test_article_metadata_formatting() {
    let articles = vec![create_article(
        "Metadata Test Article",
        "https://example.com/metadata",
        "<p>Test content</p>",
        JUNE_15_2025_14_30,
        "Metadata Source",
        0,
    )];
    let plan = plan_epub(&articles);
    let chapter = chapter_page(&plan, &articles, 0);
    assert!(chapter.contains("Metadata Test Article"), "Title should be present");
    assert!(chapter.contains("Metadata Source"), "Source should be present");
    assert!(chapter.contains("2025-06-15 14:30"), "Date should be present");
    assert!(chapter.contains("Read original article"), "Should have original article link");
    assert!(chapter.contains("Back to Feed TOC"), "Should have back to TOC link");
}

#[test]
fn test_articles_sorted_by_source_position() {
    let articles = vec![
        create_simple_article("Second Source Article", "Second Source", 1),
        create_simple_article("First Source Article", "First Source", 0),
        create_simple_article("Third Source Article", "Third Source", 2),
    ];
    let plan = plan_epub(&articles);
    let master_toc = master_toc_content(&plan);
    let first_pos = master_toc.find("First Source").unwrap_or(usize::MAX);
    let second_pos = master_toc.find("Second Source").unwrap_or(usize::MAX);
    let third_pos = master_toc.find("Third Source").unwrap_or(usize::MAX);
    assert!(first_pos < second_pos, "First Source should appear before Second Source");
    assert!(second_pos < third_pos, "Second Source should appear before Third Source");
}

#[test]
fn sources_ordered_by_position_before_name() {
    let articles = vec![
        create_simple_article("a", "Alpha", 5),
        create_simple_article("b", "Zulu", 1),
        create_simple_article("c", "Mike", 1),
        create_simple_article("d", "Alpha", 0),
    ];
    let sources = ordered_sources(&articles);
    assert_eq!(sources, vec!["Alpha", "Mike", "Zulu"]);
}

#[test]
fn test_unique_sources_preserved() {
    let articles = vec![
        create_simple_article("Article 1", "Duplicate Source", 0),
        create_simple_article("Article 2", "Duplicate Source", 0),
        create_simple_article("Article 3", "Duplicate Source", 0),
    ];
    let plan = plan_epub(&articles);
    let master_toc = master_toc_content(&plan);
    let count = master_toc.matches("Duplicate Source").count();
    assert_eq!(count, 1, "Source should appear only once in master TOC");
}

#[test]
fn test_article_filename_generation() {
    let articles = vec![
        create_simple_article("First Article", "Source", 0),
        create_simple_article("Second Article", "Source", 0),
    ];
    let plan = plan_epub(&articles);
    assert_eq!(plan.chapter_filenames[0], "chapter_0.xhtml");
    assert_eq!(plan.chapter_filenames[1], "chapter_1.xhtml");
    assert_eq!(chapter_file_name(1234), "chapter_1234.xhtml");
}

#[test]
fn test_special_characters_in_source_name() {
    assert_eq!(source_toc_filename("Source With Special Characters And More"), "toc_source_with_special_characters_and_more.xhtml");
    assert_eq!(source_slug("BBC World!"), "bbc_world_");
    assert_eq!(source_slug("Café-Zürich"), "café_zürich");
}

#[test]
fn test_empty_title() {
    let articles = vec![create_article(
        "",
        "https://example.com/notitle",
        "<p>Content without title</p>",
        JUNE_15_2025_14_30,
        "No Title Source",
        0,
    )];
    let plan = plan_epub(&articles);
    let chapter = chapter_page(&plan, &articles, 0);
    assert!(chapter.contains("<title></title>"));
}

#[test]
fn test_epub_xhtml_validity() {
    let articles = vec![create_simple_article("XHTML Test", "XHTML Source", 0)];
    let plan = plan_epub(&articles);
    let chapter = chapter_page(&plan, &articles, 0);
    assert!(chapter.contains("<?xml version=\"1.0\" encoding=\"UTF-8\"?>"), "Should have XML declaration");
    assert!(chapter.contains("<!DOCTYPE html"), "Should have DOCTYPE");
    assert!(chapter.contains("<html xmlns="), "Should have HTML element with namespace");
    assert!(chapter.contains("<head>"), "Should have head element");
    assert!(chapter.contains("<body>"), "Should have body element");
    assert!(chapter.contains("</html>"), "Should close HTML element");
}

#[test]
fn test_epub_chapter_links_in_source_toc() {
    let articles = vec![
        create_simple_article("Article A", "My Source", 0),
        create_simple_article("Article B", "My Source", 0),
        create_simple_article("Article C", "My Source", 0),
    ];
    let plan = plan_epub(&articles);
    let source_toc = source_page(&plan, &articles, "My Source");
    assert!(source_toc.contains("Article A"), "Should contain Article A link");
    assert!(source_toc.contains("Article B"), "Should contain Article B link");
    assert!(source_toc.contains("Article C"), "Should contain Article C link");
}

#[test]
fn test_ampersand_in_content() {
    let articles = vec![create_article(
        "R and D Department",
        "https://example.com/rd",
        "<p>Tom and Jerry and Friends</p>",
        JUNE_15_2025_14_30,
        "News Updates",
        0,
    )];
    let plan = plan_epub(&articles);
    let chapter = chapter_page(&plan, &articles, 0);
    assert!(chapter.contains("R and D"), "Title should be in chapter");
}

#[test]
fn test_multiple_feeds_integration() {
    let articles = vec![
        create_article("Tech News 1", "https://example.com/tech1", "<p>Latest tech news</p>", JUNE_15_2025_14_30, "TechCrunch", 0),
        create_article("Tech News 2", "https://example.com/tech2", "<p>More tech news</p>", JUNE_15_2025_14_30, "TechCrunch", 0),
        create_article("Sports Update", "https://example.com/sports1", "<p>Latest sports news</p>", JUNE_15_2025_14_30, "ESPN", 1),
        create_article("World News", "https://example.com/world1", "<p>Global news update</p>", JUNE_15_2025_14_30, "BBC World", 2),
    ];
    let plan = plan_epub(&articles);
    let master_toc = master_toc_content(&plan);
    assert!(master_toc.contains("TechCrunch"), "Should have TechCrunch");
    assert!(master_toc.contains("ESPN"), "Should have ESPN");
    assert!(master_toc.contains("BBC World"), "Should have BBC World");
    let tocs: Vec<&str> = plan.sources.iter().map(|s| s.toc_filename.as_str()).collect();
    assert_eq!(tocs, vec!["toc_techcrunch.xhtml", "toc_espn.xhtml", "toc_bbc_world.xhtml"]);
    for i in 0..4 {
        assert_eq!(plan.chapter_filenames[i], format!("chapter_{}.xhtml", i));
    }
    // master TOC first, then each source TOC followed by its articles
    let source_ids: Vec<usize> = plan.sources.iter().map(|s| s.part_id).collect();
    assert_eq!(source_ids, vec![1, 4, 6]);
    assert_eq!(plan.article_part_ids, vec![2, 3, 5, 7]);
    assert_eq!(plan.total_parts, 8);
}

#[test]
fn test_article_back_links() {
    let articles = vec![create_simple_article("Test Article", "My Feed", 0)];
    let plan = plan_epub(&articles);
    let chapter = chapter_page(&plan, &articles, 0);
    assert!(chapter.contains("toc_my_feed.xhtml"), "Article should have back link to source TOC");
}

#[test]
fn categories_group_sources_in_name_order() {
    let mut articles = vec![
        create_simple_article("a", "Feed A", 0),
        create_simple_article("b", "Feed B", 1),
        create_simple_article("c", "Feed C", 2),
    ];
    articles[0].article_source.category = Some("Tech".to_string());
    articles[2].article_source.category = Some("Art".to_string());
    let plan = plan_epub(&articles);
    let cats: Vec<&str> = plan.sources.iter().map(|s| s.category.as_str()).collect();
    assert_eq!(cats, vec!["Tech", "Uncategorized", "Art"]);
    let toc = master_toc_content(&plan);
    let art = toc.find("<h2>Art</h2>").unwrap();
    let tech = toc.find("<h2>Tech</h2>").unwrap();
    let unc = toc.find("<h2>Uncategorized</h2>").unwrap();
    assert!(art < tech && tech < unc);
}

#[test]
fn next_source_link_in_source_toc() {
    let articles = vec![create_simple_article("a", "One", 0), create_simple_article("b", "Two", 1)];
    let plan = plan_epub(&articles);
    let first = source_toc_content(&plan, &articles, 0);
    assert!(first.contains("<a href=\"toc_two.xhtml\">Next: Two</a>"));
    let last = source_toc_content(&plan, &articles, 1);
    assert!(!last.contains("Next:"));
}

#[test]
fn prev_next_links_follow_source_order() {
    let articles = vec![
        create_simple_article("a", "One", 0),
        create_simple_article("b", "Two", 1),
        create_simple_article("c", "One", 0),
        create_simple_article("d", "One", 0),
    ];
    let plan = plan_epub(&articles);
    let (prev, next) = article_links(&plan, &articles);
    assert_eq!(prev, vec![None, None, Some("chapter_0.xhtml".to_string()), Some("chapter_2.xhtml".to_string())]);
    assert_eq!(next, vec![Some("chapter_2.xhtml".to_string()), None, Some("chapter_3.xhtml".to_string()), None]);
    let page = chapter_content(&articles, 2, "<p>x</p>", &prev[2], &next[2]);
    assert!(page.contains("<a href=\"chapter_0.xhtml\">Previous</a>"));
    assert!(page.contains("<a href=\"chapter_3.xhtml\">Next</a>"));
}

#[test]
fn prev_next_links_from_groups() {
    let files: Vec<String> = (0..3).map(|i| format!("f{}", i)).collect();
    let (prev, next) = generate_prev_next_links(&vec![vec![2, 0], vec![1]], &files);
    assert_eq!(prev, vec![Some("f2".to_string()), None, None]);
    assert_eq!(next, vec![None, None, Some("f0".to_string())]);
}

#[test]
fn sequence_buffer_releases_in_order() {
    let mut buf: SequenceBuffer<&str> = SequenceBuffer::new();
    assert!(buf.receive(2, "c").is_empty());
    assert!(buf.receive(1, "b").is_empty());
    assert_eq!(buf.receive(0, "a"), vec!["a", "b", "c"]);
    assert!(!buf.is_complete(5));
    assert!(buf.receive(4, "e").is_empty());
    assert_eq!(buf.receive(3, "d"), vec!["d", "e"]);
    assert!(buf.is_complete(5));
}

#[test]
fn cover_text_defaults() {
    let c = CoverTextConfig::default();
    assert!(!c.enabled);
    assert_eq!(c.color, CoverTextColor::White);
    assert_eq!(c.position, CoverTextPosition::BottomRight);
    assert_eq!(c.size, CoverTextSize::Small);
    assert!(c.context.is_none());
}

#[test]
fn cover_text_layout() {
    assert_eq!(cover_block_x(CoverTextPosition::TopLeft, 800, 300), 20);
    assert_eq!(cover_block_x(CoverTextPosition::Center, 800, 300), 250);
    assert_eq!(cover_block_x(CoverTextPosition::BottomRight, 800, 300), 480);
    assert_eq!(cover_block_x(CoverTextPosition::BottomRight, 300, 300), 10);
    assert_eq!(cover_block_x(CoverTextPosition::Center, 200, 300), 10);
    assert_eq!(cover_block_y(CoverTextPosition::TopRight, 1000, 100), 20);
    assert_eq!(cover_block_y(CoverTextPosition::Center, 1000, 100), 450);
    assert_eq!(cover_block_y(CoverTextPosition::BottomLeft, 1000, 100), 880);
    assert_eq!(cover_block_y(CoverTextPosition::BottomLeft, 100, 100), 10);
    assert_eq!(cover_alignment_width(480, 800, 300), 300);
    assert_eq!(cover_alignment_width(600, 800, 300), 180);
    assert_eq!(cover_alignment_width(790, 800, 300), 0);
    assert_eq!(cover_line_x(CoverTextPosition::BottomRight, 480, 300, 200), 580);
    assert_eq!(cover_line_x(CoverTextPosition::Center, 250, 300, 200), 300);
    assert_eq!(cover_line_x(CoverTextPosition::TopLeft, 20, 300, 200), 20);
    assert_eq!(cover_text_shade(CoverTextColor::Black), 0);
    assert_eq!(cover_text_shade(CoverTextColor::White), 255);
}

#[test]
fn cover_text_lines_skip_blank_context() {
    assert_eq!(cover_text_lines(&Some("  Morning  ".to_string()), "2025-06-15 14:30".to_string()), vec!["Morning", "2025-06-15 14:30"]);
    assert_eq!(cover_text_lines(&Some("   ".to_string()), "d".to_string()), vec!["d"]);
    assert_eq!(cover_text_lines(&None, "d".to_string()), vec!["d"]);
}
