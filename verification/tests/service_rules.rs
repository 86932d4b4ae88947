use rsspub::links::generate_prev_next_links;
use rsspub::book::chapter_page;
use rsspub::feed::{Article, ArticleSource};
use rsspub::plan::plan_epub;
use rsspub::db::{normalize_domain, read_it_later_query};
use rsspub::email::{
    attachment_filename, email_body, email_subject, recipient, should_auto_send, smtp_username,
    user_agent,
};
use rsspub::models::{
    default_cover_date_color, default_frequency, default_general_config, default_schedule_type,
    default_timeout, ContentProcessor, CoverTextColor, CoverTextPosition, CoverTextSize,
    EmailConfig, Feed, OutputMode, ProcessorType, ReadItLaterArticle,
};
use rsspub::processor::{
    check_articles_found, check_content_fetched, effective_fetch_hours, fetch_since,
    get_temp_file_path, output_path, read_it_later_article, read_it_later_filename,
    rss_digest_filename, saved_link_article, FetchOutcome, ProcessorError,
};
use chrono::Offset;
use rsspub::calendar::{civil_date, days_in_month};
use rsspub::clean::clean_html;
use rsspub::delivery::{
    build_cron_expression, clock_time_on_day, cron_for_server, is_on_weekday, move_to_day_of_month,
    plan_delivery, server_time,
};
use rsspub::schedule::{
    cron_daily, cron_monthly, cron_weekly, parse_cron_time, plan_frequency,
    split_whitespace, validate_override_email, accept_override_email, schedule_cron, Frequency,
    ScheduleError, ServerTime,
};
use rsspub::scheduler::{collect_scheduled_feeds, job_kind, read_it_later_ids, JobKind};
use rsspub::text::{trim, parse_u32};

fn feed(id: Option<i64>, name: &str, position: i64) -> Feed {
    Feed {
        id,
        url: format!("https://{}.example.com/rss", name),
        name: Some(name.to_string()),
        concurrency_limit: 1,
        position,
        feed_processor: ContentProcessor { id: None, processor: ProcessorType::Default, custom_config: None },
        category_id: None,
        category: None,
    }
}

fn email_config(username: &str, auto: bool) -> EmailConfig {
    EmailConfig {
        smtp_host: "smtp.example.com".to_string(),
        smtp_port: 587,
        smtp_password: "secret".to_string(),
        email_address: "sender@example.com".to_string(),
        smtp_username: username.to_string(),
        to_email: "reader@kindle.com".to_string(),
        enable_auto_send: auto,
    }
}

#[test]
fn cron_expressions_for_each_frequency() {
    assert_eq!(cron_daily(30, 7), "0 30 7 * * *");
    assert_eq!(cron_weekly(0, 18, 5), "0 0 18 * * 5");
    assert_eq!(cron_monthly(5, 23, 31), "0 5 23 31 * *");
}

#[test]
fn cron_time_reads_back_what_was_written() {
    assert_eq!(parse_cron_time(&cron_daily(30, 7)), Some((30, 7)));
    assert_eq!(parse_cron_time(&cron_weekly(45, 6, 2)), Some((45, 6)));
    assert_eq!(parse_cron_time(&cron_monthly(0, 0, 1)), Some((0, 0)));
}

#[test]
fn cron_time_of_malformed_expressions() {
    assert_eq!(parse_cron_time("0 30 7 *"), None);
    assert_eq!(parse_cron_time("0 x 7 * * *"), None);
    assert_eq!(parse_cron_time("0 30 y * * *"), None);
    assert_eq!(parse_cron_time(""), None);
    assert_eq!(parse_cron_time("  0\t15   8 * *  "), Some((15, 8)));
}

#[test]
fn split_whitespace_drops_runs_of_blanks() {
    let words = split_whitespace("  a bc\n\td  ");
    let words: Vec<String> = words.iter().map(|w| w.iter().collect()).collect();
    assert_eq!(words, vec!["a".to_string(), "bc".to_string(), "d".to_string()]);
}

#[test]
fn parse_u32_accepts_digits_and_a_plus() {
    let chars = |s: &str| s.chars().collect::<Vec<char>>();
    assert_eq!(parse_u32(&chars("42")), Some(42));
    assert_eq!(parse_u32(&chars("+7")), Some(7));
    assert_eq!(parse_u32(&chars("4294967295")), Some(4294967295));
    assert_eq!(parse_u32(&chars("4294967296")), None);
    assert_eq!(parse_u32(&chars("")), None);
    assert_eq!(parse_u32(&chars("-1")), None);
    assert_eq!(parse_u32(&chars("1a")), None);
}

#[test]
fn frequency_of_requests() {
    assert_eq!(plan_frequency("daily", None, None), Ok(Frequency::Daily));
    assert_eq!(plan_frequency("anything", Some(3), Some(4)), Ok(Frequency::Daily));
    assert_eq!(plan_frequency("weekly", Some(0), None), Ok(Frequency::Weekly { weekday_from_monday: 0 }));
    assert_eq!(plan_frequency("weekly", Some(6), None), Ok(Frequency::Weekly { weekday_from_monday: 6 }));
    assert_eq!(plan_frequency("weekly", Some(7), None), Err(ScheduleError::InvalidDayOfWeek));
    assert_eq!(plan_frequency("weekly", Some(258), None), Ok(Frequency::Weekly { weekday_from_monday: 2 }));
    assert_eq!(plan_frequency("weekly", None, Some(3)), Err(ScheduleError::MissingDayOfWeek));
    assert_eq!(plan_frequency("monthly", None, Some(15)), Ok(Frequency::Monthly { day: 15 }));
    assert_eq!(plan_frequency("monthly", Some(2), None), Err(ScheduleError::MissingDayOfMonth));
}

#[test]
fn schedule_error_messages() {
    assert_eq!(ScheduleError::InvalidTimezone.message(), "Invalid timezone: failed to parse timezone");
    assert_eq!(ScheduleError::InvalidTime.message(), "Invalid time");
    assert_eq!(ScheduleError::InvalidLocalTime.message(), "Invalid local time");
    assert_eq!(ScheduleError::MissingDayOfWeek.message(), "Missing day of week");
    assert_eq!(ScheduleError::InvalidDayOfWeek.message(), "Invalid day of week");
    assert_eq!(ScheduleError::MissingDayOfMonth.message(), "Missing day of month");
    assert_eq!(ScheduleError::InvalidDayOfMonth.message(), "Invalid day of month for current month");
    assert_eq!(ScheduleError::InvalidOverrideEmail.message(), "Invalid override email");
}


#[test]
fn override_email_is_trimmed_blank_or_refused() {
    assert_eq!(validate_override_email(None), Ok(None));
    assert_eq!(validate_override_email(Some("   ".to_string())), Ok(None));
    assert_eq!(
        validate_override_email(Some("  reader@kindle.com ".to_string())),
        Ok(Some("reader@kindle.com".to_string()))
    );
    assert_eq!(
        validate_override_email(Some("not an address".to_string())),
        Err(ScheduleError::InvalidOverrideEmail)
    );
}

#[test]
fn job_kinds_of_schedule_types() {
    assert_eq!(job_kind("rss"), JobKind::Rss);
    assert_eq!(job_kind("read_it_later"), JobKind::ReadItLater);
    assert_eq!(job_kind("RSS"), JobKind::Unknown);
    assert_eq!(job_kind(""), JobKind::Unknown);
}

#[test]
fn scheduled_feeds_are_deduplicated_then_ordered() {
    let lists = vec![
        vec![feed(Some(3), "c", 5), feed(Some(1), "a", 9)],
        vec![feed(Some(1), "a-again", 0), feed(Some(2), "b", 1)],
    ];
    let feeds = collect_scheduled_feeds(lists);
    let names: Vec<String> = feeds.iter().map(|f| f.name.clone().unwrap()).collect();
    assert_eq!(names, vec!["b".to_string(), "c".to_string(), "a".to_string()]);
}

#[test]
fn scheduled_feeds_keep_order_of_equal_positions() {
    let lists = vec![vec![feed(Some(1), "first", 2)], vec![feed(Some(2), "second", 2), feed(Some(3), "zero", 0)]];
    let feeds = collect_scheduled_feeds(lists);
    let names: Vec<String> = feeds.iter().map(|f| f.name.clone().unwrap()).collect();
    assert_eq!(names, vec!["zero".to_string(), "first".to_string(), "second".to_string()]);
    assert!(collect_scheduled_feeds(vec![]).is_empty());
}

#[test]
fn read_it_later_ids_skip_unsaved_links() {
    let arts = vec![
        ReadItLaterArticle { id: Some(4), url: "a".to_string(), read: false, created_at: String::new() },
        ReadItLaterArticle { id: None, url: "b".to_string(), read: false, created_at: String::new() },
        ReadItLaterArticle { id: Some(9), url: "c".to_string(), read: true, created_at: String::new() },
    ];
    assert_eq!(read_it_later_ids(&arts), vec![4, 9]);
}

#[test]
fn processor_codes_round_trip() {
    for p in [ProcessorType::Default, ProcessorType::DomSmoothie, ProcessorType::Custom, ProcessorType::TextOnly] {
        assert_eq!(ProcessorType::from_i32(p.to_i32()), p);
    }
    assert_eq!(ProcessorType::Default.to_i32(), 1);
    assert_eq!(ProcessorType::DomSmoothie.to_i32(), 2);
    assert_eq!(ProcessorType::Custom.to_i32(), 3);
    assert_eq!(ProcessorType::TextOnly.to_i32(), 4);
    assert_eq!(ProcessorType::from_i32(0), ProcessorType::Default);
    assert_eq!(ProcessorType::from_i32(99), ProcessorType::Default);
    assert_eq!(ProcessorType::from_i32(-1), ProcessorType::Default);
}

#[test]
fn cover_setting_names_round_trip() {
    for c in [CoverTextColor::Black, CoverTextColor::White] {
        assert_eq!(CoverTextColor::from_db(c.as_str()), c);
    }
    for p in [
        CoverTextPosition::TopLeft,
        CoverTextPosition::TopRight,
        CoverTextPosition::BottomLeft,
        CoverTextPosition::BottomRight,
        CoverTextPosition::Center,
    ] {
        assert_eq!(CoverTextPosition::from_db(p.as_str()), p);
    }
    for z in [CoverTextSize::Small, CoverTextSize::Medium, CoverTextSize::Large] {
        assert_eq!(CoverTextSize::from_db(z.as_str()), z);
    }
    assert_eq!(CoverTextColor::from_db("purple"), CoverTextColor::White);
    assert_eq!(CoverTextPosition::from_db("middle"), CoverTextPosition::BottomRight);
    assert_eq!(CoverTextSize::from_db("huge"), CoverTextSize::Small);
}

#[test]
fn defaults_of_the_settings() {
    assert_eq!(default_schedule_type(), "rss");
    assert_eq!(default_frequency(), "daily");
    assert_eq!(default_cover_date_color(), "white");
    assert_eq!(default_timeout(), 45);
    assert_eq!(ProcessorType::default(), ProcessorType::Default);
    assert_eq!(OutputMode::default(), OutputMode::Html);
    let c = default_general_config();
    assert_eq!(c.fetch_since_hours, 24);
    assert_eq!(c.image_timeout_seconds, 45);
    assert!(!c.cover_text_enabled);
    assert_eq!(c.cover_text_color, CoverTextColor::White);
    assert_eq!(c.cover_text_position, CoverTextPosition::BottomRight);
    assert_eq!(c.cover_text_size, CoverTextSize::Small);
}

#[test]
fn digest_checks_and_messages() {
    assert_eq!(check_articles_found(0), Err(ProcessorError::NoArticles));
    assert_eq!(check_articles_found(3), Ok(()));
    assert_eq!(check_content_fetched(0), Err(ProcessorError::NoContent));
    assert_eq!(check_content_fetched(1), Ok(()));
    assert_eq!(ProcessorError::NoArticles.message(), "No articles found in the last 24 hours.");
    assert_eq!(ProcessorError::NoContent.message(), "No content could be fetched.");
}

#[test]
fn fetch_window_uses_override_hours() {
    assert_eq!(effective_fetch_hours(Some(6), 24), 6);
    assert_eq!(effective_fetch_hours(None, 24), 24);
    assert_eq!(fetch_since(1_000_000, 24), 1_000_000 - 86_400);
    assert_eq!(fetch_since(0, -1), 3600);
}

#[test]
fn digest_file_names_and_paths() {
    assert_eq!(rss_digest_filename("20250615_143000"), "rss_digest_20250615_143000.epub");
    assert_eq!(read_it_later_filename("20250615_143000"), "read_it_later_20250615_143000.epub");
    assert_eq!(output_path("output", "a.epub"), "output/a.epub");
}

#[test]
fn temp_path_sits_beside_the_output() {
    assert_eq!(get_temp_file_path("/data/out/b.epub"), "/data/out/b.epub.part");
    assert_eq!(get_temp_file_path("output/x.epub"), "output/x.epub.part");
    assert_eq!(get_temp_file_path("b.epub"), "b.epub.part");
}

#[test]
fn read_it_later_article_of_a_fetched_page() {
    let a = read_it_later_article(
        "https://example.com/x",
        "2025-06-15T14:30:00Z",
        42,
        FetchOutcome::Fetched { title: "X".to_string(), content: "<p>x</p>".to_string() },
    );
    assert_eq!(a.title, "X");
    assert_eq!(a.link, "https://example.com/x");
    assert_eq!(a.content, "<p>x</p>");
    assert_eq!(a.pub_date, 1749997800);
    assert_eq!(a.article_source.source, "Read It Later");
    assert_eq!(a.article_source.position, 0);
    assert!(a.article_source.category.is_none());
}

#[test]
fn read_it_later_article_with_unreadable_date_is_dated_now() {
    let a = read_it_later_article(
        "u",
        "2025-06-15 14:30:00",
        42,
        FetchOutcome::Fetched { title: "T".to_string(), content: "C".to_string() },
    );
    assert_eq!(a.pub_date, 42);
}

#[test]
fn read_it_later_article_of_a_failed_fetch() {
    let a = read_it_later_article(
        "https://example.com/y",
        "2025-06-15T14:30:00Z",
        42,
        FetchOutcome::Failed { error: "timeout".to_string() },
    );
    assert_eq!(a.title, "Error: https://example.com/y");
    assert_eq!(a.content, "<p>Failed to fetch content: timeout</p>");
    assert_eq!(a.article_source.source, "Read It Later Errors");
    assert_eq!(a.pub_date, 42);
}

#[test]
fn email_parts() {
    assert_eq!(smtp_username(&email_config("  ", true)), "sender@example.com");
    assert_eq!(smtp_username(&email_config("login", true)), "login");
    assert_eq!(recipient(&email_config("", true), &None), "reader@kindle.com");
    assert_eq!(recipient(&email_config("", true), &Some("other@kindle.com".to_string())), "other@kindle.com");
    assert!(should_auto_send(&Some(email_config("", true))));
    assert!(!should_auto_send(&Some(email_config("", false))));
    assert!(!should_auto_send(&None));
    assert_eq!(email_subject("a.epub"), "RSS Digest: a.epub");
    assert_eq!(email_body(), "Here is your requested RSS Digest EPUB.");
    assert_eq!(user_agent("1.2.3"), "RSSPub/1.2.3");
    assert_eq!(attachment_filename(Some("x.epub".to_string())), "x.epub");
    assert_eq!(attachment_filename(None), "digest.epub");
}

#[test]
fn storage_queries_and_domains() {
    assert_eq!(
        read_it_later_query(true),
        "SELECT id, url, read, created_at FROM read_it_later WHERE read = 0 ORDER BY created_at DESC"
    );
    assert_eq!(
        read_it_later_query(false),
        "SELECT id, url, read, created_at FROM read_it_later ORDER BY created_at DESC"
    );
    assert_eq!(normalize_domain("News.Example.COM"), "news.example.com");
}

#[test]
fn trim_removes_unicode_whitespace() {
    assert_eq!(trim("\u{3000} a b \n"), "a b");
    assert_eq!(trim(""), "");
    assert_eq!(trim(" \t "), "");
}

#[test]
fn accepted_override_is_kept_refused_one_is_an_error() {
    assert_eq!(accept_override_email("a@b.com".to_string(), true), Ok(Some("a@b.com".to_string())));
    assert_eq!(accept_override_email("a@b.com".to_string(), false), Err(ScheduleError::InvalidOverrideEmail));
}

#[test]
fn saved_link_article_takes_the_saved_date() {
    let a = saved_link_article("u", Some(7), 42, FetchOutcome::Fetched { title: "T".to_string(), content: "C".to_string() });
    assert_eq!(a.pub_date, 7);
    let b = saved_link_article("u", None, 42, FetchOutcome::Fetched { title: "T".to_string(), content: "C".to_string() });
    assert_eq!(b.pub_date, 42);
    let c = saved_link_article("u", Some(7), 42, FetchOutcome::Failed { error: "e".to_string() });
    assert_eq!(c.pub_date, 42);
    assert_eq!(c.title, "Error: u");
}

#[test]
fn cron_of_each_frequency_at_a_server_time() {
    let at = ServerTime { minute: 15, hour: 6, day: 28, weekday_from_sunday: 3 };
    assert_eq!(schedule_cron(Frequency::Daily, at), "0 15 6 * * *");
    assert_eq!(schedule_cron(Frequency::Weekly { weekday_from_monday: 2 }, at), "0 15 6 * * 3");
    assert_eq!(schedule_cron(Frequency::Monthly { day: 28 }, at), "0 15 6 28 * *");
}

#[test]
fn links_of_an_article_listed_twice_come_from_its_last_listing() {
    let files = vec!["a.xhtml".to_string(), "b.xhtml".to_string()];
    let (prev, next) = generate_prev_next_links(&vec![vec![0, 1, 0]], &files);
    assert_eq!(prev, vec![Some("b.xhtml".to_string()), Some("a.xhtml".to_string())]);
    assert_eq!(next, vec![Some("b.xhtml".to_string()), Some("a.xhtml".to_string())]);
}

#[test]
fn chapter_dates_are_civil_utc_minutes() {
    for (secs, text) in [(0i64, "1970-01-01 00:00"), (951782400, "2000-02-29 00:00"), (253402300799, "9999-12-31 23:59")] {
        let articles = vec![Article {
            title: "t".to_string(),
            link: "l".to_string(),
            content: "c".to_string(),
            pub_date: secs,
            article_source: ArticleSource { source: "S".to_string(), position: 0, category: None },
        }];
        let plan = plan_epub(&articles);
        let page = chapter_page(&plan, &articles, 0, "c", &None, &None);
        assert!(page.content.contains(text), "{} should show {}", secs, text);
    }
}

#[test]
fn clean_html_removes_every_script_element() {
    let c = clean_html;
    assert_eq!(c("<p>a</p><SCRIPT type=\"x\">bad()</Script><p>b</p>"), "<p>a</p><p>b</p>");
    assert_eq!(c("<p>a</p><script>never closed"), "<p>a</p>");
    assert_eq!(c("<scr<script>x</script>ipt>y</script>z"), "z");
    assert_eq!(c("no scripts here"), "no scripts here");
}

// 2024-01-03 12:00 UTC, a Wednesday.
const WED_NOON: i64 = 1704283200;
// 2024-02-10 12:00 UTC.
const FEB_10_NOON: i64 = 1707566400;
// 2024-03-10 12:00 UTC, the day New York moves its clocks from 02:00 to 03:00.
const NY_SPRING: i64 = 1710072000;

fn cron_in_utc(tz: &str, hour: u32, minute: u32, frequency: &str, dow: Option<u32>, dom: Option<u32>, now: i64) -> Result<String, ScheduleError> {
    plan_delivery(tz, hour, minute, frequency, dow, dom, now).map(|(f, u)| cron_for_server(f, u, 0))
}

#[test]
fn weekly_weekday_counts_from_monday_and_cron_from_sunday() {
    assert_eq!(plan_delivery("UTC", 9, 0, "weekly", Some(0), None, WED_NOON), Ok((Frequency::Weekly { weekday_from_monday: 0 }, 1704704400)));
    assert_eq!(cron_in_utc("UTC", 9, 0, "weekly", Some(0), None, WED_NOON), Ok("0 0 9 * * 1".to_string()));
    assert_eq!(cron_in_utc("UTC", 9, 0, "weekly", Some(6), None, WED_NOON), Ok("0 0 9 * * 0".to_string()));
    assert_eq!(cron_in_utc("UTC", 9, 0, "weekly", Some(2), None, WED_NOON), Ok("0 0 9 * * 3".to_string()));
    // the day is read as a byte: 256 is Monday
    assert_eq!(cron_in_utc("UTC", 9, 0, "weekly", Some(256), None, WED_NOON), Ok("0 0 9 * * 1".to_string()));
}

#[test]
fn daily_and_monthly_deliveries_in_utc() {
    assert_eq!(plan_delivery("UTC", 9, 0, "daily", None, None, WED_NOON), Ok((Frequency::Daily, 1704272400)));
    assert_eq!(cron_in_utc("UTC", 9, 0, "daily", None, None, WED_NOON), Ok("0 0 9 * * *".to_string()));
    assert_eq!(cron_in_utc("UTC", 7, 45, "anything", None, None, WED_NOON), Ok("0 45 7 * * *".to_string()));
    assert_eq!(plan_delivery("UTC", 9, 0, "monthly", None, Some(15), WED_NOON), Ok((Frequency::Monthly { day: 15 }, 1705309200)));
    assert_eq!(cron_in_utc("UTC", 9, 0, "monthly", None, Some(15), WED_NOON), Ok("0 0 9 15 * *".to_string()));
    assert_eq!(cron_in_utc("UTC", 9, 0, "monthly", None, Some(1), WED_NOON), Ok("0 0 9 1 * *".to_string()));
    assert_eq!(cron_in_utc("UTC", 9, 0, "monthly", None, Some(31), WED_NOON), Ok("0 0 9 31 * *".to_string()));
    assert_eq!(plan_delivery("UTC", 9, 0, "monthly", None, Some(29), FEB_10_NOON), Ok((Frequency::Monthly { day: 29 }, 1709197200)));
}

#[test]
fn delivery_in_another_zone_moves_to_the_server_clock() {
    assert_eq!(cron_in_utc("Europe/Paris", 9, 0, "daily", None, None, WED_NOON), Ok("0 0 8 * * *".to_string()));
    assert_eq!(cron_in_utc("America/New_York", 9, 0, "daily", None, None, WED_NOON), Ok("0 0 14 * * *".to_string()));
    let (f, u) = plan_delivery("Europe/Paris", 9, 0, "daily", None, None, WED_NOON).unwrap();
    assert_eq!(cron_for_server(f, u, 3600), "0 0 9 * * *");
    // Monday 08:00 in Tokyo is Sunday 23:00 in UTC
    assert_eq!(plan_delivery("Asia/Tokyo", 8, 0, "weekly", Some(0), None, WED_NOON), Ok((Frequency::Weekly { weekday_from_monday: 0 }, 1704668400)));
    assert_eq!(cron_in_utc("Asia/Tokyo", 8, 0, "weekly", Some(0), None, WED_NOON), Ok("0 0 23 * * 0".to_string()));
}

#[test]
fn schedule_request_errors_come_in_order() {
    assert_eq!(plan_delivery("Mars/Olympus", 25, 0, "weekly", None, None, WED_NOON), Err(ScheduleError::InvalidTimezone));
    assert_eq!(plan_delivery("UTC", 24, 0, "weekly", None, None, WED_NOON), Err(ScheduleError::InvalidTime));
    assert_eq!(plan_delivery("UTC", 23, 60, "daily", None, None, WED_NOON), Err(ScheduleError::InvalidTime));
    assert_eq!(plan_delivery("America/New_York", 2, 30, "weekly", None, None, NY_SPRING), Err(ScheduleError::InvalidLocalTime));
    assert_eq!(plan_delivery("America/New_York", 3, 30, "daily", None, None, NY_SPRING), Ok((Frequency::Daily, 1710055800)));
    assert_eq!(plan_delivery("UTC", 9, 0, "weekly", None, None, WED_NOON), Err(ScheduleError::MissingDayOfWeek));
    assert_eq!(plan_delivery("UTC", 9, 0, "weekly", Some(7), None, WED_NOON), Err(ScheduleError::InvalidDayOfWeek));
    assert_eq!(plan_delivery("UTC", 9, 0, "monthly", None, None, WED_NOON), Err(ScheduleError::MissingDayOfMonth));
    assert_eq!(plan_delivery("UTC", 9, 0, "monthly", None, Some(0), WED_NOON), Err(ScheduleError::InvalidDayOfMonth));
    assert_eq!(plan_delivery("UTC", 9, 0, "monthly", None, Some(32), WED_NOON), Err(ScheduleError::InvalidDayOfMonth));
    assert_eq!(plan_delivery("UTC", 9, 0, "monthly", None, Some(30), FEB_10_NOON), Err(ScheduleError::InvalidDayOfMonth));
    assert_eq!(build_cron_expression("Mars/Olympus", 9, 0, "daily", None, None, WED_NOON), Err(ScheduleError::InvalidTimezone));
    assert_eq!(build_cron_expression("UTC", 9, 0, "monthly", None, Some(32), WED_NOON), Err(ScheduleError::InvalidDayOfMonth));
}

#[test]
fn built_cron_expression_is_on_the_server_clock() {
    let (f, u) = plan_delivery("UTC", 9, 0, "weekly", Some(0), None, WED_NOON).unwrap();
    let server = chrono::DateTime::from_timestamp(u, 0).unwrap().with_timezone(&chrono::Local);
    let off = server.offset().fix().local_minus_utc() as i64;
    assert_eq!(build_cron_expression("UTC", 9, 0, "weekly", Some(0), None, WED_NOON), Ok(cron_for_server(f, u, off)));
}

#[test]
fn civil_dates_and_server_times() {
    assert_eq!(civil_date(0), (1970, 1, 1));
    assert_eq!(civil_date(11016), (2000, 2, 29));
    assert_eq!(civil_date(2932896), (9999, 12, 31));
    assert_eq!(days_in_month(2024, 2), 29);
    assert_eq!(days_in_month(1900, 2), 28);
    assert_eq!(days_in_month(2000, 2), 29);
    assert_eq!(days_in_month(2023, 4), 30);
    assert_eq!(server_time(1704704400), ServerTime { minute: 0, hour: 9, day: 8, weekday_from_sunday: 1 });
    assert_eq!(server_time(1704704400 + 3599), ServerTime { minute: 59, hour: 9, day: 8, weekday_from_sunday: 1 });
}

#[test]
fn clock_arithmetic_after_the_zone_lookups() {
    assert_eq!(clock_time_on_day(WED_NOON, 9, 0), 1704272400);
    assert_eq!(clock_time_on_day(WED_NOON, 23, 59), 1704326340);
    assert_eq!(clock_time_on_day(1704240000, 0, 0), 1704240000);
    assert_eq!(move_to_day_of_month(1704272400, 15), Ok(1705309200));
    assert_eq!(move_to_day_of_month(1704272400, 3), Ok(1704272400));
    assert_eq!(move_to_day_of_month(1704272400, 32), Err(ScheduleError::InvalidDayOfMonth));
    assert_eq!(move_to_day_of_month(1707555600, 29), Ok(1709197200));
    assert_eq!(move_to_day_of_month(1707555600, 30), Err(ScheduleError::InvalidDayOfMonth));
    assert!(is_on_weekday(1704704400, 0));
    assert!(!is_on_weekday(1704704400, 1));
    assert!(is_on_weekday(WED_NOON, 2));
}
