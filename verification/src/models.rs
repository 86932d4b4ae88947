//! The data model: feeds, categories, schedules and the stored settings.
use vstd::prelude::*;
use crate::text::str_eq;

verus! {

/// An RSS feed as stored and listed.
#[derive(Debug, Clone)]
pub struct Feed {
    pub id: Option<i64>,
    pub url: String,
    pub name: Option<String>,
    pub concurrency_limit: usize,
    pub position: i64,
    pub feed_processor: ContentProcessor,
    pub category_id: Option<i64>,
    pub category: Option<String>,
}

/// A category reference in a feed request.
pub struct CategoryId {
    pub id: Option<i64>,
}

/// A feed category.
#[derive(Debug, Clone)]
pub struct Category {
    pub id: Option<i64>,
    pub name: String,
    pub position: i64,
}

/// A request to give categories new positions.
pub struct ReorderCategoriesRequest {
    pub categories: Vec<CategoryPosition>,
}

/// One category and its new position.
pub struct CategoryPosition {
    pub id: i64,
    pub position: i64,
}

/// A request to create a category.
pub struct CreateCategoryRequest {
    pub name: String,
}

/// A stored delivery schedule.
#[derive(Debug, Clone)]
pub struct Schedule {
    pub id: Option<i64>,
    pub cron_expression: String,
    pub active: bool,
    pub schedule_type: String,
    pub timezone: String,
    pub category_ids: Vec<i64>,
    pub override_to_email: Option<String>,
    pub fetch_since_hours_override: Option<i32>,
}

/// The SMTP settings used to mail a digest.
#[derive(Debug, Clone)]
pub struct EmailConfig {
    pub smtp_host: String,
    pub smtp_port: u16,
    pub smtp_password: String,
    pub email_address: String,
    pub smtp_username: String,
    pub to_email: String,
    pub enable_auto_send: bool,
}

/// A request to build a digest from the given feeds.
pub struct GenerateRequest {
    pub feeds: Vec<Feed>,
}

/// A request to add or update a feed.
pub struct FeedRequest {
    pub url: String,
    pub name: Option<String>,
    pub concurrency_limit: usize,
    pub processor: Option<ProcessorType>,
    pub custom_config: Option<String>,
    pub category: Option<CategoryId>,
}

/// A request to give feeds new positions.
pub struct ReorderFeedsRequest {
    pub feeds: Vec<FeedPosition>,
}

/// One feed and its new position.
pub struct FeedPosition {
    pub id: i64,
    pub position: i64,
}

/// A schedule as the web interface lists it.
pub struct ScheduleResponse {
    pub id: i64,
    pub time: String,
    pub active: bool,
    pub schedule_type: String,
    pub cron_expression: String,
    pub timezone: String,
    pub category_ids: Vec<i64>,
    pub override_to_email: Option<String>,
}

/// A request to add or update a schedule.
pub struct AddScheduleRequest {
    pub hour: u32,
    pub minute: u32,
    pub timezone: String,
    pub schedule_type: String,
    pub frequency: String,
    pub day_of_week: Option<u32>,
    pub day_of_month: Option<u32>,
    pub category_ids: Vec<i64>,
    pub override_to_email: Option<String>,
    pub fetch_since_hours_override: Option<i32>,
}

/// A saved "read it later" link.
#[derive(Debug, Clone)]
pub struct ReadItLaterArticle {
    pub id: Option<i64>,
    pub url: String,
    pub read: bool,
    pub created_at: String,
}

/// A request to save a link for later.
pub struct AddReadItLaterRequest {
    pub url: String,
}

/// A request to mark a saved link read or unread.
pub struct UpdateReadItLaterStatusRequest {
    pub read: bool,
}

/// The colour of the text drawn on the cover.
#[derive(Debug, Clone, Copy, PartialEq, Eq, Structural)]
pub enum CoverTextColor {
    Black,
    White,
}

/// Where the text block sits on the cover.
#[derive(Debug, Clone, Copy, PartialEq, Eq, Structural)]
pub enum CoverTextPosition {
    TopLeft,
    TopRight,
    BottomLeft,
    BottomRight,
    Center,
}

/// How tall the cover text is, relative to the cover.
#[derive(Debug, Clone, Copy, PartialEq, Eq, Structural)]
pub enum CoverTextSize {
    Small,
    Medium,
    Large,
}

/// The general settings of the service.
#[derive(Debug, Clone)]
pub struct GeneralConfig {
    pub fetch_since_hours: i32,
    pub image_timeout_seconds: i32,
    pub cover_text_enabled: bool,
    pub cover_text_color: CoverTextColor,
    pub cover_text_position: CoverTextPosition,
    pub cover_text_size: CoverTextSize,
}

/// How an article's full content is extracted.
#[derive(Debug, Clone, Copy, PartialEq, Eq, Structural)]
pub enum ProcessorType {
    Default,
    DomSmoothie,
    Custom,
    TextOnly,
}

/// The extractor settings of one feed.
#[derive(Debug, Clone)]
pub struct ContentProcessor {
    pub id: Option<i64>,
    pub processor: ProcessorType,
    pub custom_config: Option<String>,
}

/// Whether a custom extractor keeps markup or only text.
#[derive(Debug, Clone, Copy, PartialEq, Eq, Structural)]
pub enum OutputMode {
    Text,
    Html,
}

/// The configuration of the custom extractor.
#[derive(Debug, Clone)]
pub struct CustomExtractorConfig {
    pub selector: Vec<String>,
    pub discard: Vec<String>,
    pub output_mode: OutputMode,
}

/// A per-domain choice of extractor.
#[derive(Debug, Clone)]
pub struct DomainOverride {
    pub id: Option<i64>,
    pub domain: String,
    pub processor: ProcessorType,
    pub custom_config: Option<String>,
    pub created_at: String,
}

/// A request to add a per-domain extractor override.
pub struct AddDomainOverrideRequest {
    pub domain: String,
    pub processor: ProcessorType,
    pub custom_config: Option<String>,
}

/// The stored name of a cover text colour.
pub open spec fn color_name(c: CoverTextColor) -> Seq<char> {
    match c {
        CoverTextColor::Black => "black"@,
        CoverTextColor::White => "white"@,
    }
}

/// The stored name of a cover text position.
pub open spec fn position_name(p: CoverTextPosition) -> Seq<char> {
    match p {
        CoverTextPosition::TopLeft => "top-left"@,
        CoverTextPosition::TopRight => "top-right"@,
        CoverTextPosition::BottomLeft => "bottom-left"@,
        CoverTextPosition::BottomRight => "bottom-right"@,
        CoverTextPosition::Center => "center"@,
    }
}

/// The stored name of a cover text size.
pub open spec fn size_name(s: CoverTextSize) -> Seq<char> {
    match s {
        CoverTextSize::Small => "small"@,
        CoverTextSize::Medium => "medium"@,
        CoverTextSize::Large => "large"@,
    }
}

/// The colour a stored name stands for; unknown names mean white.
pub open spec fn color_of_name(s: Seq<char>) -> CoverTextColor {
    if s == "black"@ {
        CoverTextColor::Black
    } else {
        CoverTextColor::White
    }
}

/// The position a stored name stands for; unknown names mean bottom right.
pub open spec fn position_of_name(s: Seq<char>) -> CoverTextPosition {
    if s == "top-left"@ {
        CoverTextPosition::TopLeft
    } else if s == "top-right"@ {
        CoverTextPosition::TopRight
    } else if s == "bottom-left"@ {
        CoverTextPosition::BottomLeft
    } else if s == "center"@ {
        CoverTextPosition::Center
    } else {
        CoverTextPosition::BottomRight
    }
}

/// The size a stored name stands for; unknown names mean small.
pub open spec fn size_of_name(s: Seq<char>) -> CoverTextSize {
    if s == "medium"@ {
        CoverTextSize::Medium
    } else if s == "large"@ {
        CoverTextSize::Large
    } else {
        CoverTextSize::Small
    }
}

impl CoverTextColor {
    /// The name under which the colour is stored.
    pub fn as_str(&self) -> (s: &'static str)
        ensures
            s@ == color_name(*self),
    {
        match self {
            CoverTextColor::Black => "black",
            CoverTextColor::White => "white",
        }
    }

    /// Reads a stored colour name.
    pub fn from_db(s: &str) -> (c: CoverTextColor)
        ensures
            c == color_of_name(s@),
    {
        if str_eq(s, "black") {
            CoverTextColor::Black
        } else {
            CoverTextColor::White
        }
    }
}

impl CoverTextPosition {
    /// The name under which the position is stored.
    pub fn as_str(&self) -> (s: &'static str)
        ensures
            s@ == position_name(*self),
    {
        match self {
            CoverTextPosition::TopLeft => "top-left",
            CoverTextPosition::TopRight => "top-right",
            CoverTextPosition::BottomLeft => "bottom-left",
            CoverTextPosition::BottomRight => "bottom-right",
            CoverTextPosition::Center => "center",
        }
    }

    /// Reads a stored position name.
    pub fn from_db(s: &str) -> (p: CoverTextPosition)
        ensures
            p == position_of_name(s@),
    {
        if str_eq(s, "top-left") {
            CoverTextPosition::TopLeft
        } else if str_eq(s, "top-right") {
            CoverTextPosition::TopRight
        } else if str_eq(s, "bottom-left") {
            CoverTextPosition::BottomLeft
        } else if str_eq(s, "center") {
            CoverTextPosition::Center
        } else {
            CoverTextPosition::BottomRight
        }
    }
}

impl CoverTextSize {
    /// The name under which the size is stored.
    pub fn as_str(&self) -> (s: &'static str)
        ensures
            s@ == size_name(*self),
    {
        match self {
            CoverTextSize::Small => "small",
            CoverTextSize::Medium => "medium",
            CoverTextSize::Large => "large",
        }
    }

    /// Reads a stored size name.
    pub fn from_db(s: &str) -> (z: CoverTextSize)
        ensures
            z == size_of_name(s@),
    {
        if str_eq(s, "medium") {
            CoverTextSize::Medium
        } else if str_eq(s, "large") {
            CoverTextSize::Large
        } else {
            CoverTextSize::Small
        }
    }
}

impl Default for CoverTextColor {
    fn default() -> (c: Self)
        ensures
            c == CoverTextColor::White,
    {
        CoverTextColor::White
    }
}

impl Default for CoverTextPosition {
    fn default() -> (p: Self)
        ensures
            p == CoverTextPosition::BottomRight,
    {
        CoverTextPosition::BottomRight
    }
}

impl Default for CoverTextSize {
    fn default() -> (z: Self)
        ensures
            z == CoverTextSize::Small,
    {
        CoverTextSize::Small
    }
}

/// Storing the cover settings and reading them back gives the same settings.
pub proof fn lemma_cover_names_roundtrip(c: CoverTextColor, p: CoverTextPosition, z: CoverTextSize)
    ensures
        color_of_name(color_name(c)) == c,
        position_of_name(position_name(p)) == p,
        size_of_name(size_name(z)) == z,
{
    reveal_strlit("black");
    reveal_strlit("white");
    reveal_strlit("top-left");
    reveal_strlit("top-right");
    reveal_strlit("bottom-left");
    reveal_strlit("bottom-right");
    reveal_strlit("center");
    reveal_strlit("small");
    reveal_strlit("medium");
    reveal_strlit("large");
    assert("black"@[0] != "white"@[0]);
    assert("top-left"@ != "top-right"@) by { assert("top-left"@[4] != "top-right"@[4]); }
    assert("top-left"@ != "bottom-left"@) by { assert("top-left"@[0] != "bottom-left"@[0]); }
    assert("top-left"@ != "center"@) by { assert("top-left"@[0] != "center"@[0]); }
    assert("top-right"@ != "bottom-left"@) by { assert("top-right"@[0] != "bottom-left"@[0]); }
    assert("top-right"@ != "center"@) by { assert("top-right"@[0] != "center"@[0]); }
    assert("bottom-left"@ != "center"@) by { assert("bottom-left"@[0] != "center"@[0]); }
    assert("bottom-right"@ != "top-left"@) by { assert("bottom-right"@[0] != "top-left"@[0]); }
    assert("bottom-right"@ != "top-right"@) by { assert("bottom-right"@[0] != "top-right"@[0]); }
    assert("bottom-right"@ != "bottom-left"@) by { assert("bottom-right"@[7] != "bottom-left"@[7]); }
    assert("bottom-right"@ != "center"@) by { assert("bottom-right"@[0] != "center"@[0]); }
    assert("small"@ != "medium"@) by { assert("small"@[0] != "medium"@[0]); }
    assert("small"@ != "large"@) by { assert("small"@[0] != "large"@[0]); }
    assert("medium"@ != "large"@) by { assert("medium"@[0] != "large"@[0]); }
}

/// The general settings used when none are stored.
pub fn default_general_config() -> (c: GeneralConfig)
    ensures
        c.fetch_since_hours == 24,
        c.image_timeout_seconds == 45,
        !c.cover_text_enabled,
        c.cover_text_color == CoverTextColor::White,
        c.cover_text_position == CoverTextPosition::BottomRight,
        c.cover_text_size == CoverTextSize::Small,
{
    GeneralConfig {
        fetch_since_hours: 24,
        image_timeout_seconds: 45,
        cover_text_enabled: false,
        cover_text_color: CoverTextColor::default(),
        cover_text_position: CoverTextPosition::default(),
        cover_text_size: CoverTextSize::default(),
    }
}

/// The number by which a processor type is stored.
pub open spec fn processor_code(p: ProcessorType) -> i32 {
    match p {
        ProcessorType::Default => 1,
        ProcessorType::DomSmoothie => 2,
        ProcessorType::Custom => 3,
        ProcessorType::TextOnly => 4,
    }
}

/// The processor type that a stored number stands for; unknown numbers mean `Default`.
pub open spec fn processor_of_code(v: i32) -> ProcessorType {
    if v == 2 {
        ProcessorType::DomSmoothie
    } else if v == 3 {
        ProcessorType::Custom
    } else if v == 4 {
        ProcessorType::TextOnly
    } else {
        ProcessorType::Default
    }
}

impl ProcessorType {
    /// Reads a stored processor number.
    pub fn from_i32(value: i32) -> (p: ProcessorType)
        ensures
            p == processor_of_code(value),
    {
        match value {
            2 => ProcessorType::DomSmoothie,
            3 => ProcessorType::Custom,
            4 => ProcessorType::TextOnly,
            _ => ProcessorType::Default,
        }
    }

    /// The number by which this processor type is stored.
    pub fn to_i32(self) -> (v: i32)
        ensures
            v == processor_code(self),
    {
        match self {
            ProcessorType::Default => 1,
            ProcessorType::DomSmoothie => 2,
            ProcessorType::Custom => 3,
            ProcessorType::TextOnly => 4,
        }
    }
}

impl Default for ProcessorType {
    fn default() -> (p: Self)
        ensures
            p == ProcessorType::Default,
    {
        ProcessorType::Default
    }
}

impl Default for OutputMode {
    fn default() -> (m: Self)
        ensures
            m == OutputMode::Html,
    {
        OutputMode::Html
    }
}

/// Storing a processor type and reading it back gives the same type.
pub proof fn lemma_processor_code_roundtrip(p: ProcessorType)
    ensures
        processor_of_code(processor_code(p)) == p,
{
}

/// Reading a stored number and storing it again gives the number back when it is one of
/// the four known codes, and the code of `Default` otherwise.
pub proof fn lemma_processor_code_normalizes(v: i32)
    ensures
        processor_code(processor_of_code(v)) == (if 1 <= v <= 4 { v } else { 1 }),
{
}

/// The schedule type used when a request names none.
pub fn default_schedule_type() -> (s: String)
    ensures
        s@ == "rss"@,
{
    "rss".to_owned()
}

/// The frequency used when a request names none.
pub fn default_frequency() -> (s: String)
    ensures
        s@ == "daily"@,
{
    "daily".to_owned()
}

/// The cover date colour used when a request names none.
pub fn default_cover_date_color() -> (s: String)
    ensures
        s@ == "white"@,
{
    "white".to_owned()
}

/// The image download timeout, in seconds, used when a request names none.
pub fn default_timeout() -> (t: i32)
    ensures
        t == 45,
{
    45
}

} // verus!
