//! Assembling the EPUB archive with epub_builder: the book's metadata, its cover, and
//! its pages in the order of their part numbers, whatever order they are produced in.
use vstd::prelude::*;
use crate::epub_gen::{article_links, plan_groups, resolved_language, master_toc_content, source_toc_content, chapter_content,
    plan_name_strings, plan_categories, plan_toc_files, source_entries, next_source_link, date_text};
use crate::feed::{Article, source_name};
use crate::plan::{EpubPlan, plan_epub, plan_describes, plan_names, chapter_filename, toc_filename, indices_of};
use crate::links::{links_describe, opt_view};
use crate::sequencer::{SequenceBuffer, receive_step, released, released_pages, page_numbered, sent_before,
    lemma_sequencer_restores_order};
use crate::templates::{CoverTemplate, XhtmlWrapper, article_html, cover_html, master_toc_html,
    source_toc_html, xhtml_page};
use crate::text::{push_str, string_of};
use crate::toc::expected_groups;

verus! {

#[verifier::external_type_specification]
#[verifier::external_body]
pub struct ExZipLibrary(epub_builder::ZipLibrary);

#[verifier::external_type_specification]
#[verifier::external_body]
pub struct ExEpubError(epub_builder::Error);

/// An EPUB archive being built in memory by epub_builder.
#[verifier::external_body]
pub struct Book {
    builder: epub_builder::EpubBuilder<epub_builder::ZipLibrary>,
}

/// The role a page plays among the landmarks of the book.
#[derive(Debug, Clone, Copy, PartialEq, Eq, Structural)]
pub enum Landmark {
    Text,
    Toc,
    Cover,
}

/// What a book has been given, in order. Each entry is (kind, name, label, text, bytes):
/// kind 0 is a metadata entry (key, value); kind 1 sets EPUB version 3.3; kinds 2, 3 and
/// 4 are a content page of landmark text, table of contents and cover (file name,
/// title, XHTML text); kind 5 is the cover image (path, MIME type, image bytes).
pub uninterp spec fn book_log(b: Book) -> Seq<(int, Seq<char>, Seq<char>, Seq<char>, Seq<u8>)>;

/// The kind code of a page with landmark `l`.
pub open spec fn landmark_kind(l: Landmark) -> int {
    match l {
        Landmark::Text => 2,
        Landmark::Toc => 3,
        Landmark::Cover => 4,
    }
}

/// The log entry of metadata `key` = `value`.
pub open spec fn meta_entry(key: Seq<char>, value: Seq<char>) -> (int, Seq<char>, Seq<char>, Seq<char>, Seq<u8>) {
    (0, key, value, Seq::empty(), Seq::empty())
}

/// The log entry that sets EPUB version 3.3.
pub open spec fn version_entry() -> (int, Seq<char>, Seq<char>, Seq<char>, Seq<u8>) {
    (1, Seq::empty(), Seq::empty(), Seq::empty(), Seq::empty())
}

/// The log entry of a content page.
pub open spec fn page_entry(file: Seq<char>, title: Seq<char>, text: Seq<char>, l: Landmark) -> (
    int,
    Seq<char>,
    Seq<char>,
    Seq<char>,
    Seq<u8>,
) {
    (landmark_kind(l), file, title, text, Seq::empty())
}

/// The log entry of the cover image.
pub open spec fn image_entry(path: Seq<char>, mime: Seq<char>, bytes: Seq<u8>) -> (
    int,
    Seq<char>,
    Seq<char>,
    Seq<char>,
    Seq<u8>,
) {
    (5, path, mime, Seq::empty(), bytes)
}

/// The encoding of one character in UTF-8.
pub open spec fn utf8_char(c: char) -> Seq<u8> {
    let v = c as int;
    if v < 0x80 {
        seq![v as u8]
    } else if v < 0x800 {
        seq![(0xC0 + v / 64) as u8, (0x80 + v % 64) as u8]
    } else if v < 0x10000 {
        seq![(0xE0 + v / 4096) as u8, (0x80 + (v / 64) % 64) as u8, (0x80 + v % 64) as u8]
    } else {
        seq![
            (0xF0 + v / 262144) as u8,
            (0x80 + (v / 4096) % 64) as u8,
            (0x80 + (v / 64) % 64) as u8,
            (0x80 + v % 64) as u8,
        ]
    }
}

/// The encoding of a text in UTF-8 (the bytes of a `str`).
pub open spec fn utf8(s: Seq<char>) -> Seq<u8>
    decreases s.len(),
{
    if s.len() == 0 {
        Seq::empty()
    } else {
        utf8(s.drop_last()) + utf8_char(s.last())
    }
}

/// Entry `e` of a book's log is a file of the archive (a page or the cover image).
pub open spec fn is_file(e: (int, Seq<char>, Seq<char>, Seq<char>, Seq<u8>)) -> bool {
    2 <= e.0 <= 5
}

/// The bytes a file entry stores: the UTF-8 text of a page, the bytes of an image.
pub open spec fn file_data(e: (int, Seq<char>, Seq<char>, Seq<char>, Seq<u8>)) -> Seq<u8> {
    if e.0 == 5 {
        e.4
    } else {
        utf8(e.3)
    }
}

/// The book whose log is `log` already has a file named `name`.
pub open spec fn has_file(log: Seq<(int, Seq<char>, Seq<char>, Seq<char>, Seq<u8>)>, name: Seq<char>) -> bool {
    exists|i: int| 0 <= i < log.len() && is_file(#[trigger] log[i]) && log[i].1 == name
}

/// No two files of the log share a name.
pub open spec fn names_distinct(log: Seq<(int, Seq<char>, Seq<char>, Seq<char>, Seq<u8>)>) -> bool {
    forall|i: int, j: int|
        0 <= i < j < log.len() && is_file(#[trigger] log[i]) && is_file(#[trigger] log[j]) ==> log[i].1
            != log[j].1
}

/// A file name that epub_builder places under `OEBPS/` as given: not empty and not an
/// absolute path.
pub open spec fn plain_name(name: Seq<char>) -> bool {
    name.len() > 0 && name[0] != '/'
}

/// The names of the files that epub_builder writes itself when the archive is finished.
pub open spec fn reserved_name(name: Seq<char>) -> bool {
    name == "stylesheet.css"@ || name == "content.opf"@ || name == "toc.ncx"@ || name == "nav.xhtml"@
}

/// No file of the log has a name that epub_builder writes itself.
pub open spec fn no_reserved(log: Seq<(int, Seq<char>, Seq<char>, Seq<char>, Seq<u8>)>) -> bool {
    forall|i: int| 0 <= i < log.len() && is_file(#[trigger] log[i]) ==> !reserved_name(log[i].1)
}

/// One entry is small enough for a zip archive without the large-file option: a name of
/// at most 1024 characters and at most 2^31 bytes of data (4 bytes per character at most).
pub open spec fn entry_fits(e: (int, Seq<char>, Seq<char>, Seq<char>, Seq<u8>)) -> bool {
    &&& e.1.len() <= 1024
    &&& 4 * e.3.len() + e.4.len() <= 0x8000_0000
}

/// The characters of the names, titles, keys and values of the log, which go into the
/// files epub_builder writes itself.
pub open spec fn label_len(log: Seq<(int, Seq<char>, Seq<char>, Seq<char>, Seq<u8>)>) -> nat
    decreases log.len(),
{
    if log.len() == 0 {
        0
    } else {
        label_len(log.drop_last()) + log.last().1.len() + log.last().2.len()
    }
}

/// The whole book is small enough for a zip archive without the large-file option: at
/// most 2^20 entries, each of which fits, with at most 2^24 characters of labels.
pub open spec fn book_fits(log: Seq<(int, Seq<char>, Seq<char>, Seq<char>, Seq<u8>)>) -> bool {
    &&& log.len() <= 0x10_0000
    &&& forall|i: int| 0 <= i < log.len() ==> entry_fits(#[trigger] log[i])
    &&& label_len(log) <= 0x100_0000
}

/// The data that a zip reader finds under `name` in the zip archive `archive`, or `None`
/// when the archive has no entry of that name.
pub uninterp spec fn archive_entry(archive: Seq<u8>, name: Seq<char>) -> Option<Seq<u8>>;

/// The archive holds every file of the log under `OEBPS/` and its name, with its data.
pub open spec fn archive_holds(archive: Seq<u8>, log: Seq<(int, Seq<char>, Seq<char>, Seq<char>, Seq<u8>)>) -> bool {
    forall|i: int|
        0 <= i < log.len() && is_file(#[trigger] log[i]) ==> archive_entry(archive, archive_name(log[i].1))
            == Some(file_data(log[i]))
}

/// The name under which epub_builder stores the file `name` in the archive:
/// `Path::new("OEBPS").join(name)`, which is `name` itself for an absolute name.
pub open spec fn archive_name(name: Seq<char>) -> Seq<char> {
    if name.len() > 0 && name[0] == '/' {
        name
    } else {
        "OEBPS/"@ + name
    }
}

/// The entries epub_builder and the zip library write themselves.
pub open spec fn own_entry(name: Seq<char>) -> bool {
    name == "mimetype"@ || name == "META-INF/container.xml"@ || name
        == "META-INF/com.apple.ibooks.display-options.xml"@ || name == "OEBPS/stylesheet.css"@ || name
        == "OEBPS/content.opf"@ || name == "OEBPS/toc.ncx"@ || name == "OEBPS/nav.xhtml"@
}

/// Every entry of the archive is one of epub_builder's own or a file of the log.
pub open spec fn archive_only(archive: Seq<u8>, log: Seq<(int, Seq<char>, Seq<char>, Seq<char>, Seq<u8>)>) -> bool {
    forall|x: Seq<char>|
        #[trigger] archive_entry(archive, x) is Some ==> own_entry(x) || exists|i: int|
            0 <= i < log.len() && is_file(#[trigger] log[i]) && archive_name(log[i].1) == x
}

/// Pages `pages` can be added, in order, to the book whose log is `log`: each has a
/// plain name that the book does not have yet and fits.
pub open spec fn addable(log: Seq<(int, Seq<char>, Seq<char>, Seq<char>, Seq<u8>)>, pages: Seq<Page>) -> bool
    decreases pages.len(),
{
    pages.len() == 0 || {
        &&& !has_file(log, pages[0].filename@)
        &&& plain_name(pages[0].filename@)
        &&& entry_fits(page_of(pages[0]))
        &&& addable(log.push(page_of(pages[0])), pages.drop_first())
    }
}

proof fn lemma_push_fresh(
    log: Seq<(int, Seq<char>, Seq<char>, Seq<char>, Seq<u8>)>,
    e: (int, Seq<char>, Seq<char>, Seq<char>, Seq<u8>),
)
    requires
        names_distinct(log),
        is_file(e) ==> !has_file(log, e.1),
    ensures
        names_distinct(log.push(e)),
{
    let l2 = log.push(e);
    assert forall|i: int, j: int|
        0 <= i < j < l2.len() && is_file(#[trigger] l2[i]) && is_file(#[trigger] l2[j]) implies l2[i].1 != l2[j].1 by {
        if j == log.len() {
            assert(l2[i] == log[i]);
            if l2[i].1 == l2[j].1 {
                assert(has_file(log, e.1));
            }
        } else {
            assert(l2[i] == log[i] && l2[j] == log[j]);
        }
    }
}

/// `ZipLibrary::new()`: an empty archive in memory holding the `mimetype` entry, which
/// cannot fail (the first entry of an in-memory archive).
#[verifier::external_body]
fn new_zip() -> (r: Result<epub_builder::ZipLibrary, epub_builder::Error>)
    ensures
        r is Ok,
{
    epub_builder::ZipLibrary::new()
}

/// `EpubBuilder::new(zip)`: a builder that has been given nothing yet (it writes its
/// container files under `META-INF/` into the archive itself, which cannot fail).
#[verifier::external_body]
fn new_builder(zip: epub_builder::ZipLibrary) -> (r: Result<Book, epub_builder::Error>)
    ensures
        r is Ok,
        r matches Ok(b) ==> book_log(b) == Seq::<(int, Seq<char>, Seq<char>, Seq<char>, Seq<u8>)>::empty(),
{
    match epub_builder::EpubBuilder::new(zip) {
        Ok(builder) => Ok(Book { builder }),
        Err(e) => Err(e),
    }
}

/// `builder.epub_version(EpubVersion::V33)`, which cannot fail.
#[verifier::external_body]
fn set_epub3(b: &mut Book)
    ensures
        book_log(*final(b)) == book_log(*old(b)).push(version_entry()),
{
    b.builder.epub_version(epub_builder::EpubVersion::V33);
}

/// `builder.metadata(key, value)`. The keys `author`, `title` and `lang` are always
/// accepted; a refused entry leaves the builder's metadata as it was.
#[verifier::external_body]
fn set_metadata(b: &mut Book, key: &str, value: &str) -> (r: Result<(), epub_builder::Error>)
    ensures
        key@ == "author"@ || key@ == "title"@ || key@ == "lang"@ ==> r is Ok,
        r is Ok ==> book_log(*final(b)) == book_log(*old(b)).push(meta_entry(key@, value@)),
        r is Err ==> book_log(*final(b)) == book_log(*old(b)),
{
    match b.builder.metadata(key, value) {
        Ok(_) => Ok(()),
        Err(e) => Err(e),
    }
}

/// `builder.add_content(EpubContent::new(file, text).title(title))`, with the reference
/// type of the landmark. The archive refuses a second entry of the same name (`OEBPS/`
/// and the file name); a fresh name that fits is always written. When the entry cannot
/// be written the page is not added to the book's files.
#[verifier::external_body]
fn add_page(b: &mut Book, file: &str, title: &str, text: &str, landmark: Landmark) -> (r: Result<(), epub_builder::Error>)
    ensures
        r is Ok ==> book_log(*final(b)) == book_log(*old(b)).push(page_entry(file@, title@, text@, landmark)),
        r is Err ==> book_log(*final(b)) == book_log(*old(b)),
        has_file(book_log(*old(b)), file@) ==> r is Err,
        !has_file(book_log(*old(b)), file@) && plain_name(file@) && entry_fits(
            page_entry(file@, title@, text@, landmark),
        ) ==> r is Ok,
{
    let content = epub_builder::EpubContent::new(file, text.as_bytes()).title(title);
    let content = match landmark {
        Landmark::Text => content,
        Landmark::Toc => content.reftype(epub_builder::ReferenceType::Toc),
        Landmark::Cover => content.reftype(epub_builder::ReferenceType::Cover),
    };
    match b.builder.add_content(content) {
        Ok(_) => Ok(()),
        Err(e) => Err(e),
    }
}

/// `builder.add_cover_image(path, image, mime)`. As for a page: a repeated name is
/// refused, a fresh name that fits is always written, and a refused image is not added.
#[verifier::external_body]
fn add_cover_image(b: &mut Book, path: &str, image: &[u8], mime: &str) -> (r: Result<(), epub_builder::Error>)
    ensures
        r is Ok ==> book_log(*final(b)) == book_log(*old(b)).push(image_entry(path@, mime@, image@)),
        r is Err ==> book_log(*final(b)) == book_log(*old(b)),
        has_file(book_log(*old(b)), path@) ==> r is Err,
        !has_file(book_log(*old(b)), path@) && plain_name(path@) && entry_fits(image_entry(path@, mime@, image@))
            ==> r is Ok,
{
    match b.builder.add_cover_image(path, image, mime) {
        Ok(_) => Ok(()),
        Err(e) => Err(e),
    }
}

/// `builder.generate(&mut bytes)`: the finished archive. It adds `stylesheet.css`,
/// `content.opf`, `toc.ncx` and `nav.xhtml` and writes the archive into memory; it
/// succeeds when no file of the book has one of those names and the book fits. Every
/// archive it produces holds each file of the book under the name epub_builder gives it
/// (`OEBPS/` joined with the file name), with its data, and no entries but those and the
/// ones epub_builder writes itself; the other bytes (timestamps, compression, the text
/// of the files epub_builder renders) are not stated.
#[verifier::external_body]
fn write_archive(b: Book) -> (r: Result<Vec<u8>, epub_builder::Error>)
    ensures
        names_distinct(book_log(b)) && no_reserved(book_log(b)) && book_fits(book_log(b)) ==> r is Ok,
        r matches Ok(bytes) ==> forall|i: int|
            0 <= i < book_log(b).len() && is_file(#[trigger] book_log(b)[i]) ==> archive_entry(
                bytes@,
                archive_name(book_log(b)[i].1),
            ) == Some(file_data(book_log(b)[i])),
        r matches Ok(bytes) ==> forall|x: Seq<char>|
            #[trigger] archive_entry(bytes@, x) is Some ==> own_entry(x) || exists|i: int|
                0 <= i < book_log(b).len() && is_file(#[trigger] book_log(b)[i]) && archive_name(book_log(b)[i].1)
                    == x,
{
    let mut bytes: Vec<u8> = Vec::new();
    match b.builder.generate(&mut bytes) {
        Ok(()) => Ok(bytes),
        Err(e) => Err(e),
    }
}

/// The text of an epub_builder error (its `Display`). Nothing is claimed of the text.
#[verifier::external_body]
fn error_text(e: &epub_builder::Error) -> (s: String) {
    e.to_string()
}

/// Why a book could not be assembled: epub_builder refused a step, with its message.
#[derive(Debug, Clone)]
pub struct BookError {
    pub message: String,
}

fn book_error(e: &epub_builder::Error) -> (r: BookError) {
    BookError { message: error_text(e) }
}

/// One page of the book: its file name, its title, its XHTML text and its landmark.
#[derive(Debug, Clone)]
pub struct Page {
    pub filename: String,
    pub title: String,
    pub content: String,
    pub landmark: Landmark,
}

/// The log entry of page `p`.
pub open spec fn page_of(p: Page) -> (int, Seq<char>, Seq<char>, Seq<char>, Seq<u8>) {
    page_entry(p.filename@, p.title@, p.content@, p.landmark)
}

/// The page of the master table of contents: `toc.xhtml`, a table-of-contents landmark.
pub fn master_toc_page(plan: &EpubPlan) -> (p: Page)
    ensures
        page_of(p) == master_entry(*plan),
        p.filename@ == "toc.xhtml"@,
        p.title@ == "Table of Contents"@,
        p.landmark == Landmark::Toc,
        p.content@ == xhtml_page(
            "Table of Contents"@,
            master_toc_html(
                expected_groups(plan_name_strings(*plan), plan_categories(*plan), plan_toc_files(*plan)),
            ),
        ),
{
    proof {
        reveal(master_entry);
    }
    Page {
        filename: "toc.xhtml".to_owned(),
        title: "Table of Contents".to_owned(),
        content: master_toc_content(plan),
        landmark: Landmark::Toc,
    }
}

/// The table of contents page of source `k`, titled with the source's name.
pub fn source_toc_page(plan: &EpubPlan, articles: &Vec<Article>, k: usize) -> (p: Page)
    requires
        plan_describes(articles@, *plan),
        k < plan.sources.len(),
    ensures
        page_of(p) == source_entry(articles@, *plan, k as int),
        p.filename@ == toc_filename(plan_names(*plan)[k as int]),
        p.title@ == plan_names(*plan)[k as int],
        p.landmark == Landmark::Text,
        p.content@ == xhtml_page(
            plan_names(*plan)[k as int],
            source_toc_html(
                plan_names(*plan)[k as int],
                source_entries(articles@, *plan, k as int),
                next_source_link(*plan, k as int),
            ),
        ),
{
    proof {
        reveal(source_entry);
    }
    Page {
        filename: plan.sources[k].toc_filename.clone(),
        title: plan.sources[k].name.clone(),
        content: source_toc_content(plan, articles, k),
        landmark: Landmark::Text,
    }
}

/// The page of article `i`, whose body, already cleaned, is `body`, titled with the
/// article's title.
pub fn chapter_page(
    plan: &EpubPlan,
    articles: &Vec<Article>,
    i: usize,
    body: &str,
    prev: &Option<String>,
    next: &Option<String>,
) -> (p: Page)
    requires
        plan_describes(articles@, *plan),
        i < articles.len(),
    ensures
        p.filename@ == chapter_filename(i as nat),
        p.title@ == articles@[i as int].title@,
        p.landmark == Landmark::Text,
        p.content@ == xhtml_page(
            articles@[i as int].title@,
            article_html(
                articles@[i as int].title@,
                source_name(articles@[i as int]),
                date_text(articles@[i as int].pub_date),
                body@,
                articles@[i as int].link@,
                toc_filename(source_name(articles@[i as int])),
                opt_view(*prev),
                opt_view(*next),
            ),
        ),
{
    Page {
        filename: plan.chapter_filenames[i].clone(),
        title: articles[i].title.clone(),
        content: chapter_content(articles, i, body, prev, next),
        landmark: Landmark::Text,
    }
}

/// The author named in every digest.
pub open spec fn book_author() -> Seq<char> {
    "RSSPub RSS Book"@
}

/// The title of a digest built on the date written `date`.
pub open spec fn book_title(date: Seq<char>) -> Seq<char> {
    "RSS Digest - "@ + date
}

/// What a digest is given before its parts: EPUB 3.3, the author, the language (from
/// the configured value), the title, and, when there is a cover image, the image as
/// `cover.jpg` and the cover page that shows it.
pub open spec fn opening_log(language: Option<Seq<char>>, date: Seq<char>, cover: Option<Seq<u8>>) -> Seq<
    (int, Seq<char>, Seq<char>, Seq<char>, Seq<u8>),
> {
    let head = seq![
        version_entry(),
        meta_entry("author"@, book_author()),
        meta_entry("lang"@, resolved_language(language)),
        meta_entry("title"@, book_title(date)),
    ];
    match cover {
        Some(bytes) => head + seq![
            image_entry("cover.jpg"@, "image/jpeg"@, bytes),
            page_entry("cover.xhtml"@, "Cover"@, xhtml_page("Cover"@, cover_html("cover.jpg"@)), Landmark::Cover),
        ],
        None => head,
    }
}

/// A book being written: the archive, the parts that arrived before their turn, and the
/// number of parts it will have.
pub struct BookWriter {
    book: Book,
    parts: SequenceBuffer<Page>,
    total: usize,
    written: usize,
}

impl BookWriter {
    /// What the book has been given so far.
    pub closed spec fn log(self) -> Seq<(int, Seq<char>, Seq<char>, Seq<char>, Seq<u8>)> {
        book_log(self.book)
    }

    /// The part number written next.
    pub closed spec fn expected(self) -> nat {
        self.parts.expected()
    }

    /// The parts that arrived before their turn, by part number.
    pub closed spec fn waiting(self) -> Map<usize, Page> {
        self.parts.waiting()
    }

    /// The number of parts the book will have.
    pub closed spec fn total(self) -> nat {
        self.total as nat
    }

    pub closed spec fn wf(self) -> bool {
        &&& self.parts.wf()
        &&& self.written == self.parts.expected()
        &&& names_distinct(book_log(self.book))
    }

    /// The number of parts written into the book so far.
    pub fn written(&self) -> (n: usize)
        requires
            self.wf(),
        ensures
            n == self.expected(),
    {
        self.written
    }

    /// Opens the book of a digest of `total` parts built on the date written `date`, in
    /// the configured language `language`, with the cover image `cover` if there is one.
    pub fn start(language: Option<String>, date: &str, cover: Option<Vec<u8>>, total: usize) -> (r: Result<
        BookWriter,
        BookError,
    >)
        ensures
            r matches Ok(w) ==> {
                &&& w.wf()
                &&& w.expected() == 0
                &&& w.waiting() == Map::<usize, Page>::empty()
                &&& w.total() == total
                &&& w.log() == opening_log(opt_view(language), date@, match cover {
                    Some(c) => Some(c@),
                    None => None,
                })
            },
            book_fits(opening_log(opt_view(language), date@, match cover {
                Some(c) => Some(c@),
                None => None,
            })) ==> r is Ok,
    {
        let ghost cover_view: Option<Seq<u8>> = match &cover {
            Some(c) => Some(c@),
            None => None,
        };
        let zip = match new_zip() {
            Ok(z) => z,
            Err(e) => return Err(book_error(&e)),
        };
        let mut book = match new_builder(zip) {
            Ok(b) => b,
            Err(e) => return Err(book_error(&e)),
        };
        set_epub3(&mut book);
        let lang = crate::epub_gen::resolve_epub_language(language);
        let mut t: Vec<char> = Vec::new();
        push_str(&mut t, "RSS Digest - ");
        push_str(&mut t, date);
        let title = string_of(&t);
        let r1 = set_metadata(&mut book, "author", "RSSPub RSS Book");
        let r2 = set_metadata(&mut book, "lang", lang.as_str());
        let r3 = set_metadata(&mut book, "title", title.as_str());
        assert(r1 is Ok && r2 is Ok && r3 is Ok);
        let ghost head = book_log(book);
        let ghost opening = opening_log(opt_view(language), date@, cover_view);
        proof {
            reveal_strlit("cover.jpg");
            reveal_strlit("cover.xhtml");
            assert(head.len() == 4);
            assert forall|i: int| 0 <= i < head.len() implies !is_file(#[trigger] head[i]) by {}
            assert(!has_file(head, "cover.jpg"@));
            assert(names_distinct(head));
            assert(opening.take(4) =~= head);
        }
        match cover {
            Some(bytes) => {
                let ghost image = image_entry("cover.jpg"@, "image/jpeg"@, bytes@);
                match add_cover_image(&mut book, "cover.jpg", bytes.as_slice(), "image/jpeg") {
                    Ok(()) => {},
                    Err(e) => {
                        proof {
                            if book_fits(opening) {
                                assert(opening[4] == image);
                                assert(entry_fits(opening[4]));
                            }
                        }
                        return Err(book_error(&e));
                    },
                }
                proof {
                    lemma_push_fresh(head, image);
                    assert(book_log(book) == head.push(image));
                    assert(book_log(book)[4].1 != "cover.xhtml"@) by {
                        assert(book_log(book)[4].1[6] != "cover.xhtml"@[6]);
                    }
                    assert forall|i: int| 0 <= i < book_log(book).len() && is_file(#[trigger] book_log(book)[i])
                        implies book_log(book)[i].1 != "cover.xhtml"@ by {
                        if i < 4 {
                            assert(book_log(book)[i] == head[i]);
                        }
                    }
                }
                let ghost before_page = book_log(book);
                let body = CoverTemplate { image_path: "cover.jpg" }.render();
                let page = XhtmlWrapper { title: "Cover", content: body.as_str() }.render();
                let ghost cover_page = page_entry("cover.xhtml"@, "Cover"@, page@, Landmark::Cover);
                match add_page(&mut book, "cover.xhtml", "Cover", page.as_str(), Landmark::Cover) {
                    Ok(()) => {},
                    Err(e) => {
                        proof {
                            if book_fits(opening) {
                                assert(opening[5] == cover_page);
                                assert(entry_fits(opening[5]));
                            }
                        }
                        return Err(book_error(&e));
                    },
                }
                proof {
                    lemma_push_fresh(before_page, cover_page);
                }
            },
            None => {},
        }
        assert(book_log(book) =~= opening);
        Ok(BookWriter { book, parts: SequenceBuffer::new(), total, written: 0 })
    }

    /// Takes part number `seq` and writes into the book, in number order, the parts that
    /// are now due: the one expected next and those that follow it without a gap.
    pub fn receive(&mut self, seq: usize, page: Page) -> (r: Result<(), BookError>)
        requires
            old(self).wf(),
            seq < usize::MAX,
        ensures
            final(self).wf(),
            final(self).total() == old(self).total(),
            seq != old(self).expected() ==> r is Ok,
            exists|ready: Seq<Page>|
                {
                    &&& #[trigger] receive_step(
                        old(self).expected(),
                        old(self).waiting(),
                        seq,
                        page,
                        final(self).expected(),
                        final(self).waiting(),
                        ready,
                    )
                    &&& (r is Ok ==> final(self).log() == old(self).log() + ready.map_values(
                        |p: Page| page_of(p),
                    ))
                    &&& (addable(old(self).log(), ready) ==> r is Ok)
                },
    {
        proof {
            self.parts.lemma_expected_not_waiting();
        }
        let ghost e0 = self.parts.expected();
        let ghost w0 = self.parts.waiting();
        let ready = self.parts.receive(seq, page);
        proof {
            if seq != e0 && ready.len() > 0 {
                assert(released(w0.insert(seq, page), e0 as int, 0, ready@[0]));
                assert((e0 + 0) as usize == e0 as usize);
            }
        }
        self.written = self.written + ready.len();
        let ghost start = book_log(self.book);
        let ghost parts_after = self.parts;
        let ghost total = self.total;
        assert(receive_step(e0, w0, seq, page, parts_after.expected(), parts_after.waiting(), ready@));
        assert(ready@.skip(0) =~= ready@);
        let mut i: usize = 0;
        while i < ready.len()
            invariant
                i <= ready.len(),
                self.parts == parts_after,
                self.total == total,
                parts_after.wf(),
                self.written == parts_after.expected(),
                total == old(self).total,
                e0 == old(self).expected(),
                w0 == old(self).waiting(),
                start == old(self).log(),
                receive_step(e0, w0, seq, page, parts_after.expected(), parts_after.waiting(), ready@),
                seq != old(self).expected() ==> ready.len() == 0,
                book_log(self.book) == start + ready@.take(i as int).map_values(|p: Page| page_of(p)),
                names_distinct(book_log(self.book)),
                addable(start, ready@) ==> addable(book_log(self.book), ready@.skip(i as int)),
            decreases ready.len() - i,
        {
            let p = &ready[i];
            let ghost before = book_log(self.book);
            proof {
                assert(ready@.skip(i as int)[0] == ready@[i as int]);
                assert(ready@.skip(i as int).drop_first() =~= ready@.skip(i + 1));
            }
            match add_page(&mut self.book, p.filename.as_str(), p.title.as_str(), p.content.as_str(), p.landmark) {
                Ok(()) => {},
                Err(e) => {
                    assert(!addable(start, ready@));
                    assert(receive_step(e0, w0, seq, page, self.parts.expected(), self.parts.waiting(), ready@));
                    assert(receive_step(old(self).expected(), old(self).waiting(), seq, page, self.expected(), self.waiting(), ready@));
                    assert(!addable(old(self).log(), ready@));
                    return Err(book_error(&e));
                },
            }
            proof {
                lemma_push_fresh(before, page_of(ready@[i as int]));
            }
            assert(ready@.take(i + 1).map_values(|p: Page| page_of(p)) =~= ready@.take(i as int).map_values(
                |p: Page| page_of(p),
            ).push(page_of(ready@[i as int])));
            i = i + 1;
        }
        assert(ready@.take(i as int) =~= ready@);
        assert(self.log() == old(self).log() + ready@.map_values(|p: Page| page_of(p)));
        assert(receive_step(e0, w0, seq, page, self.parts.expected(), self.parts.waiting(), ready@));
        assert(receive_step(old(self).expected(), old(self).waiting(), seq, page, self.expected(), self.waiting(), ready@));
        Ok(())
    }

    /// Whether every part has been written.
    pub fn is_complete(&self) -> (done: bool)
        ensures
            done == (self.expected() >= self.total()),
    {
        self.parts.is_complete(self.total)
    }

    /// The finished archive. It is built whenever no file of the book is named like a
    /// file epub_builder writes itself and the book fits a zip archive without the
    /// large-file option; it holds every page and image of the book under `OEBPS/` and its
    /// name, with its data. Its other bytes (timestamps, compression, the files
    /// epub_builder renders) are not stated.
    pub fn finish(self) -> (r: Result<Vec<u8>, BookError>)
        ensures
            self.wf() && no_reserved(self.log()) && book_fits(self.log()) ==> r is Ok,
            r matches Ok(bytes) ==> archive_holds(bytes@, self.log()),
            r matches Ok(bytes) ==> archive_only(bytes@, self.log()),
    {
        match write_archive(self.book) {
            Ok(bytes) => Ok(bytes),
            Err(e) => Err(book_error(&e)),
        }
    }
}

/// One entry of a book's log.
pub type LogEntry = (int, Seq<char>, Seq<char>, Seq<char>, Seq<u8>);

/// The log entry of the master table of contents of plan `p`.
#[verifier::opaque]
pub open spec fn master_entry(p: EpubPlan) -> LogEntry {
    page_entry(
        "toc.xhtml"@,
        "Table of Contents"@,
        xhtml_page(
            "Table of Contents"@,
            master_toc_html(expected_groups(plan_name_strings(p), plan_categories(p), plan_toc_files(p))),
        ),
        Landmark::Toc,
    )
}

/// The log entry of the table of contents of source `k` of plan `p`.
#[verifier::opaque]
pub open spec fn source_entry(arts: Seq<Article>, p: EpubPlan, k: int) -> LogEntry {
    let name = plan_names(p)[k];
    page_entry(
        toc_filename(name),
        name,
        xhtml_page(name, source_toc_html(name, source_entries(arts, p, k), next_source_link(p, k))),
        Landmark::Text,
    )
}

/// The log entry of the page of article `i`, whose body is the article's content with its
/// script elements removed, with the previous and next links `prev[i]` and `next[i]`.
#[verifier::opaque]
pub open spec fn chapter_entry(
    arts: Seq<Article>,
    i: int,
    prev: Seq<Option<String>>,
    next: Seq<Option<String>>,
) -> LogEntry {
    let a = arts[i];
    page_entry(
        chapter_filename(i as nat),
        a.title@,
        xhtml_page(
            a.title@,
            article_html(
                a.title@,
                source_name(a),
                date_text(a.pub_date),
                crate::clean::strip_scripts(a.content@),
                a.link@,
                toc_filename(source_name(a)),
                opt_view(prev[i]),
                opt_view(next[i]),
            ),
        ),
        Landmark::Text,
    )
}

/// The pages of source `k`: its table of contents, then the page of each of its articles.
pub open spec fn source_block(
    arts: Seq<Article>,
    p: EpubPlan,
    prev: Seq<Option<String>>,
    next: Seq<Option<String>>,
    k: int,
) -> Seq<LogEntry> {
    seq![source_entry(arts, p, k)] + p.sources@[k].articles@.map_values(
        |i: usize| chapter_entry(arts, i as int, prev, next),
    )
}

/// The pages of the first `k` sources, one source after the other.
pub open spec fn blocks(
    arts: Seq<Article>,
    p: EpubPlan,
    prev: Seq<Option<String>>,
    next: Seq<Option<String>>,
    k: int,
) -> Seq<LogEntry>
    decreases k,
{
    if k <= 0 {
        Seq::empty()
    } else {
        blocks(arts, p, prev, next, k - 1) + source_block(arts, p, prev, next, k - 1)
    }
}

/// What the book of a digest is given: the opening, the master table of contents, then
/// each source's table of contents followed by its articles' pages, in plan order.
pub open spec fn digest_log(
    arts: Seq<Article>,
    p: EpubPlan,
    prev: Seq<Option<String>>,
    next: Seq<Option<String>>,
    language: Option<Seq<char>>,
    date: Seq<char>,
    cover: Option<Seq<u8>>,
) -> Seq<LogEntry> {
    opening_log(language, date, cover) + seq![master_entry(p)] + blocks(arts, p, prev, next, p.sources.len() as int)
}

/// A log can be written as a whole: its files have distinct plain names, none named like a
/// file epub_builder writes itself, and it fits a zip archive.
pub open spec fn log_writable(log: Seq<LogEntry>) -> bool {
    &&& names_distinct(log)
    &&& no_reserved(log)
    &&& book_fits(log)
    &&& forall|i: int| 0 <= i < log.len() && is_file(#[trigger] log[i]) ==> plain_name(log[i].1)
}

proof fn lemma_label_len_prefix(log: Seq<LogEntry>, k: int)
    requires
        0 <= k <= log.len(),
    ensures
        label_len(log.take(k)) <= label_len(log),
    decreases log.len(),
{
    if k < log.len() {
        lemma_label_len_prefix(log.drop_last(), k);
        assert(log.drop_last().take(k) =~= log.take(k));
    } else {
        assert(log.take(k) =~= log);
    }
}

/// A prefix of a log that can be written can be written.
proof fn lemma_writable_prefix(log: Seq<LogEntry>, k: int)
    requires
        0 <= k <= log.len(),
        log_writable(log),
    ensures
        log_writable(log.take(k)),
        book_fits(log.take(k)),
{
    let t = log.take(k);
    lemma_label_len_prefix(log, k);
    assert forall|i: int| 0 <= i < t.len() implies entry_fits(#[trigger] t[i]) by {
        assert(t[i] == log[i]);
    }
    assert forall|i: int, j: int|
        0 <= i < j < t.len() && is_file(#[trigger] t[i]) && is_file(#[trigger] t[j]) implies t[i].1 != t[j].1 by {
        assert(t[i] == log[i] && t[j] == log[j]);
    }
    assert forall|i: int| 0 <= i < t.len() && is_file(#[trigger] t[i]) implies !reserved_name(t[i].1) && plain_name(t[i].1) by {
        assert(t[i] == log[i]);
    }
}

/// When a writable log continues a book's log with the page `page`, the page can be added.
proof fn lemma_next_addable(full: Seq<LogEntry>, log: Seq<LogEntry>, page: Page)
    requires
        log_writable(full),
        full.len() > log.len(),
        full.take(log.len() as int + 1) == log.push(page_of(page)),
    ensures
        addable(log, seq![page]),
{
    let n = log.len() as int;
    let e = page_of(page);
    assert(full[n] == full.take(n + 1)[n]);
    assert(full[n] == e);
    assert(is_file(e));
    if has_file(log, e.1) {
        let i = choose|i: int| 0 <= i < log.len() && is_file(#[trigger] log[i]) && log[i].1 == e.1;
        assert(full[i] == full.take(n + 1)[i]);
        assert(full[i] == log[i]);
    }
    assert(entry_fits(full[n]));
    assert(plain_name(full[n].1));
    assert(!has_file(log, page.filename@));
    assert(seq![page][0] == page);
    assert(seq![page].drop_first() =~= Seq::<Page>::empty());
    assert(addable(log.push(e), Seq::<Page>::empty()));
    assert(addable(log, seq![page]));
}

/// The pages of the first `k` sources begin the pages of the first `n`.
proof fn lemma_blocks_prefix(
    arts: Seq<Article>,
    p: EpubPlan,
    prev: Seq<Option<String>>,
    next: Seq<Option<String>>,
    k: int,
    n: int,
)
    requires
        0 <= k <= n,
    ensures
        blocks(arts, p, prev, next, n).len() >= blocks(arts, p, prev, next, k).len(),
        blocks(arts, p, prev, next, n).take(blocks(arts, p, prev, next, k).len() as int)
            == blocks(arts, p, prev, next, k),
    decreases n,
{
    if k < n {
        lemma_blocks_prefix(arts, p, prev, next, k, n - 1);
        let a = blocks(arts, p, prev, next, n - 1);
        let b = blocks(arts, p, prev, next, k);
        assert((a + source_block(arts, p, prev, next, n - 1)).take(b.len() as int) =~= a.take(b.len() as int));
    } else {
        assert(blocks(arts, p, prev, next, n).take(blocks(arts, p, prev, next, k).len() as int)
            =~= blocks(arts, p, prev, next, k));
    }
}

/// Delivering the part expected next to an empty buffer writes exactly that part.
proof fn lemma_single_step(e: nat, seq: usize, page: Page, e2: nat, w2: Map<usize, Page>, ready: Seq<Page>)
    requires
        seq == e,
        receive_step(e, Map::<usize, Page>::empty(), seq, page, e2, w2, ready),
    ensures
        ready == seq![page],
        e2 == e + 1,
        w2 == Map::<usize, Page>::empty(),
{
    let m = Map::<usize, Page>::empty().insert(seq, page);
    if ready.len() == 0 {
        assert(m.contains_key(seq));
    }
    assert(released(m, e as int, 0, ready[0]));
    if ready.len() >= 2 {
        assert(released(m, e as int, 1, ready[1]));
    }
    assert(ready =~= seq![page]);
    assert(w2 =~= Map::<usize, Page>::empty());
}

/// The book of a digest, written up to entry `j` of the pages of source `k`, continues
/// into the digest's log with that entry.
proof fn lemma_digest_prefix(
    arts: Seq<Article>,
    p: EpubPlan,
    prev: Seq<Option<String>>,
    next: Seq<Option<String>>,
    base: Seq<LogEntry>,
    k: int,
    j: int,
)
    requires
        0 <= k < p.sources.len(),
        0 <= j < source_block(arts, p, prev, next, k).len(),
    ensures
        ({
            let full = base + blocks(arts, p, prev, next, p.sources.len() as int);
            let cur = base + blocks(arts, p, prev, next, k) + source_block(arts, p, prev, next, k).take(j);
            &&& full.len() > cur.len()
            &&& full.take(cur.len() as int + 1) == cur.push(source_block(arts, p, prev, next, k)[j])
        }),
{
    let n = p.sources.len() as int;
    let bk = blocks(arts, p, prev, next, k);
    let sb = source_block(arts, p, prev, next, k);
    let bn = blocks(arts, p, prev, next, n);
    lemma_blocks_prefix(arts, p, prev, next, k + 1, n);
    assert(blocks(arts, p, prev, next, k + 1) == bk + sb);
    let full = base + bn;
    let cur = base + bk + sb.take(j);
    assert(full.take(cur.len() as int + 1) =~= cur.push(sb[j])) by {
        assert forall|x: int| 0 <= x < cur.len() + 1 implies full.take(cur.len() as int + 1)[x] == cur.push(sb[j])[x] by {
            if x >= base.len() {
                let y = x - base.len();
                assert(bn.take((bk + sb).len() as int)[y] == (bk + sb)[y]);
            }
        }
    }
}

/// Writes one part, the one the writer expects next, into a writer that holds nothing
/// back; `full` is the log the book is meant to end with.
fn write_part(w: &mut BookWriter, part: usize, page: Page, Ghost(full): Ghost<Seq<LogEntry>>) -> (r: Result<(), BookError>)
    requires
        old(w).wf(),
        old(w).waiting() == Map::<usize, Page>::empty(),
        old(w).expected() == part,
        part < usize::MAX,
        log_writable(full) ==> full.len() > old(w).log().len() && full.take(old(w).log().len() as int + 1)
            == old(w).log().push(page_of(page)),
    ensures
        final(w).wf(),
        final(w).waiting() == Map::<usize, Page>::empty(),
        final(w).expected() == old(w).expected() + 1,
        final(w).total() == old(w).total(),
        r is Ok ==> final(w).log() == old(w).log().push(page_of(page)),
        log_writable(full) ==> r is Ok,
{
    let ghost e = w.expected();
    let ghost log = w.log();
    proof {
        if log_writable(full) {
            lemma_next_addable(full, log, page);
        }
    }
    let r = w.receive(part, page);
    proof {
        let ready = choose|ready: Seq<Page>|
            #[trigger] receive_step(e, Map::<usize, Page>::empty(), part, page, w.expected(), w.waiting(), ready)
                && (r is Ok ==> w.log() == log + ready.map_values(|p: Page| page_of(p)))
                && (addable(log, ready) ==> r is Ok);
        lemma_single_step(e, part, page, w.expected(), w.waiting(), ready);
        assert(seq![page].map_values(|p: Page| page_of(p)) =~= seq![page_of(page)]);
    }
    r
}

proof fn lemma_part_ids_below(arts: Seq<Article>, p: EpubPlan)
    requires
        plan_describes(arts, p),
        arts.len() <= usize::MAX,
    ensures
        forall|j: int| 0 <= j < p.sources.len() ==> (#[trigger] p.sources@[j]).part_id < p.total_parts,
        forall|i: int| 0 <= i < arts.len() ==> #[trigger] p.article_part_ids@[i] < p.total_parts,
{
    crate::epub_gen::lemma_part_ids_distinct(arts, p);
}

/// Writes the pages of the articles of source `k`, whose table of contents the writer
/// has just written.
#[verifier::spinoff_prover]
#[verifier::rlimit(60)]
fn write_chapters(
    w: &mut BookWriter,
    plan: &EpubPlan,
    articles: &Vec<Article>,
    prev: &Vec<Option<String>>,
    next: &Vec<Option<String>>,
    k: usize,
    Ghost(full): Ghost<Seq<LogEntry>>,
    Ghost(base): Ghost<Seq<LogEntry>>,
) -> (r: Result<(), BookError>)
    requires
        plan_describes(articles@, *plan),
        prev@.len() == articles.len(),
        next@.len() == articles.len(),
        articles.len() <= usize::MAX / 4,
        k < plan.sources.len(),
        forall|i: int| 0 <= i < articles.len() ==> #[trigger] plan.article_part_ids@[i] < plan.total_parts,
        full == base + blocks(articles@, *plan, prev@, next@, plan.sources.len() as int),
        old(w).wf(),
        old(w).waiting() == Map::<usize, Page>::empty(),
        old(w).expected() == crate::plan::source_part_id(articles@, plan_names(*plan), k as int) + 1,
        old(w).log() == base + blocks(articles@, *plan, prev@, next@, k as int) + source_block(
            articles@,
            *plan,
            prev@,
            next@,
            k as int,
        ).take(1),
    ensures
        final(w).wf(),
        final(w).waiting() == Map::<usize, Page>::empty(),
        final(w).total() == old(w).total(),
        r is Ok ==> final(w).expected() == crate::plan::source_part_id(articles@, plan_names(*plan), k as int)
            + 1 + plan.sources@[k as int].articles.len(),
        r is Ok ==> final(w).log() == base + blocks(articles@, *plan, prev@, next@, k as int + 1),
        log_writable(full) ==> r is Ok,
{
    let ghost arts = articles@;
    let ghost r_names = plan_names(*plan);
    let ghost bk = blocks(arts, *plan, prev@, next@, k as int);
    let ghost sb = source_block(arts, *plan, prev@, next@, k as int);
    let ghost idx = indices_of(arts, r_names[k as int]);
    proof {
        assert(plan.sources@[k as int].articles@ == idx);
        crate::plan::lemma_indices_of(arts, r_names[k as int]);
    }
    let mut m: usize = 0;
    while m < plan.sources[k].articles.len()
        invariant
            arts == articles@,
            plan_describes(arts, *plan),
            prev@.len() == arts.len(),
            next@.len() == arts.len(),
            arts.len() <= usize::MAX / 4,
            k < plan.sources.len(),
            forall|i: int| 0 <= i < arts.len() ==> #[trigger] plan.article_part_ids@[i] < plan.total_parts,
            full == base + blocks(arts, *plan, prev@, next@, plan.sources.len() as int),
            r_names == plan_names(*plan),
            bk == blocks(arts, *plan, prev@, next@, k as int),
            sb == source_block(arts, *plan, prev@, next@, k as int),
            idx == indices_of(arts, r_names[k as int]),
            plan.sources@[k as int].articles@ == idx,
            forall|j: int| 0 <= j < idx.len() ==> #[trigger] idx[j] < arts.len(),
            m <= idx.len(),
            w.wf(),
            w.waiting() == Map::<usize, Page>::empty(),
            w.total() == old(w).total(),
            w.expected() == crate::plan::source_part_id(arts, r_names, k as int) + 1 + m,
            w.log() == base + bk + sb.take(m + 1),
        decreases idx.len() - m,
    {
        let i = plan.sources[k].articles[m];
        proof {
            assert(idx[m as int] == i);
            assert(plan.article_part_ids@[idx[m as int] as int] == crate::plan::source_part_id(arts, r_names, k as int)
                + 1 + m);
        }
        let body = crate::clean::clean_html(articles[i].content.as_str());
        let cp = chapter_page(plan, articles, i, body.as_str(), &prev[i], &next[i]);
        proof {
            assert(page_of(cp) == chapter_entry(arts, i as int, prev@, next@)) by {
                reveal(chapter_entry);
            }
            assert(sb[m + 1] == chapter_entry(arts, i as int, prev@, next@));
            if log_writable(full) {
                lemma_digest_prefix(arts, *plan, prev@, next@, base, k as int, m + 1);
            }
        }
        match write_part(w, plan.article_part_ids[i], cp, Ghost(full)) {
            Ok(()) => {},
            Err(e) => return Err(e),
        }
        proof {
            assert(sb.take(m + 2) =~= sb.take(m + 1).push(sb[m + 1]));
        }
        m = m + 1;
    }
    proof {
        assert(sb.take(m + 1) =~= sb);
    }
    Ok(())
}

/// Writes the table of contents and the article pages of every source, in plan order,
/// after the master table of contents.
fn write_sources(
    w: &mut BookWriter,
    plan: &EpubPlan,
    articles: &Vec<Article>,
    prev: &Vec<Option<String>>,
    next: &Vec<Option<String>>,
    Ghost(full): Ghost<Seq<LogEntry>>,
    Ghost(base): Ghost<Seq<LogEntry>>,
) -> (r: Result<(), BookError>)
    requires
        plan_describes(articles@, *plan),
        prev@.len() == articles.len(),
        next@.len() == articles.len(),
        articles.len() <= usize::MAX / 4,
        forall|j: int| 0 <= j < plan.sources.len() ==> (#[trigger] plan.sources@[j]).part_id < plan.total_parts,
        forall|i: int| 0 <= i < articles.len() ==> #[trigger] plan.article_part_ids@[i] < plan.total_parts,
        full == base + blocks(articles@, *plan, prev@, next@, plan.sources.len() as int),
        old(w).wf(),
        old(w).waiting() == Map::<usize, Page>::empty(),
        old(w).expected() == 1,
        old(w).log() == base,
    ensures
        final(w).wf(),
        final(w).total() == old(w).total(),
        r is Ok ==> final(w).log() == full,
        log_writable(full) ==> r is Ok,
{
    let ghost arts = articles@;
    let ghost r_names = plan_names(*plan);
    let ghost n = plan.sources.len() as int;
    assert(w.log() =~= base + blocks(arts, *plan, prev@, next@, 0));
    let mut k: usize = 0;
    while k < plan.sources.len()
        invariant
            arts == articles@,
            plan_describes(arts, *plan),
            prev@.len() == arts.len(),
            next@.len() == arts.len(),
            arts.len() <= usize::MAX / 4,
            n == plan.sources.len(),
            r_names == plan_names(*plan),
            forall|j: int| 0 <= j < plan.sources.len() ==> (#[trigger] plan.sources@[j]).part_id < plan.total_parts,
            forall|i: int| 0 <= i < arts.len() ==> #[trigger] plan.article_part_ids@[i] < plan.total_parts,
            full == base + blocks(arts, *plan, prev@, next@, n),
            k <= plan.sources.len(),
            w.wf(),
            w.total() == old(w).total(),
            w.waiting() == Map::<usize, Page>::empty(),
            w.expected() == 1 + k + crate::plan::count_sum(arts, r_names, k as int),
            w.log() == base + blocks(arts, *plan, prev@, next@, k as int),
        decreases plan.sources.len() - k,
    {
        let ghost bk = blocks(arts, *plan, prev@, next@, k as int);
        let ghost sb = source_block(arts, *plan, prev@, next@, k as int);
        let sp = source_toc_page(plan, articles, k);
        proof {
            assert(plan.sources@[k as int].part_id == crate::plan::source_part_id(arts, r_names, k as int));
            assert(sb[0] == source_entry(arts, *plan, k as int));
            assert(sb.take(0) =~= Seq::<LogEntry>::empty());
            assert(w.log() =~= base + bk + sb.take(0));
            if log_writable(full) {
                lemma_digest_prefix(arts, *plan, prev@, next@, base, k as int, 0);
            }
        }
        match write_part(w, plan.sources[k].part_id, sp, Ghost(full)) {
            Ok(()) => {},
            Err(e) => return Err(e),
        }
        proof {
            assert(sb.take(1) =~= seq![sb[0]]);
            assert(w.log() =~= base + bk + sb.take(1));
        }
        match write_chapters(w, plan, articles, prev, next, k, Ghost(full), Ghost(base)) {
            Ok(()) => {},
            Err(e) => return Err(e),
        }
        proof {
            assert(plan.sources@[k as int].articles@ == indices_of(arts, r_names[k as int]));
        }
        k = k + 1;
    }
    Ok(())
}

/// Writes the digest of `articles` into an EPUB archive, in the configured language
/// `language`, dated `date`, with the cover image `cover` if there is one: its opening,
/// then the master table of contents, then each source's table of contents followed by
/// the pages of its articles, in plan order. It succeeds whenever that log can be written
/// as a whole (distinct file names, none named like a file epub_builder writes, within
/// the size of a zip archive without the large-file option); when it succeeds the file
/// names are distinct, the archive holds every page under its name, and it holds no
/// entries but those and the ones epub_builder writes itself.
#[verifier::spinoff_prover]
#[verifier::rlimit(60)]
pub fn write_digest(articles: &Vec<Article>, language: Option<String>, date: &str, cover: Option<Vec<u8>>) -> (r: Result<
    Vec<u8>,
    BookError,
>)
    requires
        articles.len() <= usize::MAX / 4,
    ensures
        exists|p: EpubPlan, prev: Seq<Option<String>>, next: Seq<Option<String>>|
            {
                &&& #[trigger] plan_describes(articles@, p)
                &&& #[trigger] links_describe(plan_groups(p), p.chapter_filenames@, prev, next)
                &&& (log_writable(
                    digest_log(articles@, p, prev, next, opt_view(language), date@, match cover {
                        Some(c) => Some(c@),
                        None => None,
                    }),
                ) ==> r is Ok)
                &&& (r is Ok ==> names_distinct(
                    digest_log(articles@, p, prev, next, opt_view(language), date@, match cover {
                        Some(c) => Some(c@),
                        None => None,
                    }),
                ))
                &&& (r matches Ok(bytes) ==> archive_holds(
                    bytes@,
                    digest_log(articles@, p, prev, next, opt_view(language), date@, match cover {
                        Some(c) => Some(c@),
                        None => None,
                    }),
                ))
                &&& (r matches Ok(bytes) ==> archive_only(
                    bytes@,
                    digest_log(articles@, p, prev, next, opt_view(language), date@, match cover {
                        Some(c) => Some(c@),
                        None => None,
                    }),
                ))
            },
{
    let ghost arts = articles@;
    let ghost lang_view = opt_view(language);
    let ghost cover_view: Option<Seq<u8>> = match &cover {
        Some(c) => Some(c@),
        None => None,
    };
    let plan = plan_epub(articles);
    let links = article_links(&plan, articles);
    let prev = links.0;
    let next = links.1;
    let ghost opening = opening_log(lang_view, date@, cover_view);
    let ghost base = opening + seq![master_entry(plan)];
    let ghost n = plan.sources.len() as int;
    let ghost full = digest_log(arts, plan, prev@, next@, lang_view, date@, cover_view);
    let ghost r_names = plan_names(plan);
    proof {
        assert(arts.len() == articles.len());
        crate::epub_gen::lemma_part_ids_distinct(arts, plan);
        assert(full == base + blocks(arts, plan, prev@, next@, n));
        if log_writable(full) {
            lemma_writable_prefix(full, opening.len() as int);
            assert(full.take(opening.len() as int) =~= opening);
        }
    }
    let mut w = match BookWriter::start(language, date, cover, plan.total_parts) {
        Ok(w) => w,
        Err(e) => return Err(e),
    };
    // the master table of contents is part 0
    let master = master_toc_page(&plan);
    proof {
        assert(page_of(master) == master_entry(plan));
        if log_writable(full) {
            assert(full.take(opening.len() as int + 1) =~= opening.push(page_of(master)));
        }
    }
    match write_part(&mut w, 0, master, Ghost(full)) {
        Ok(()) => {},
        Err(e) => return Err(e),
    }
    assert(w.log() =~= base + blocks(arts, plan, prev@, next@, 0));
    proof {
        lemma_part_ids_below(arts, plan);
    }
    match write_sources(&mut w, &plan, articles, &prev, &next, Ghost(full), Ghost(base)) {
        Ok(()) => {},
        Err(e) => return Err(e),
    }
    proof {
        assert(w.log() == full);
        assert(names_distinct(full));
    }
    w.finish()
}

/// Every chapter's link back to its table of contents names a page of the book: the
/// table of contents of the one source whose article list holds the chapter.
pub proof fn lemma_back_link_targets_source_toc(arts: Seq<Article>, p: EpubPlan, i: int)
    requires
        plan_describes(arts, p),
        arts.len() <= usize::MAX,
        0 <= i < arts.len(),
    ensures
        exists|k: int|
            0 <= k < p.sources.len() && (#[trigger] p.sources@[k]).articles@.contains(i as usize)
                && p.sources@[k].toc_filename@ == toc_filename(source_name(arts[i])),
{
    let r = plan_names(p);
    assert(r.contains(source_name(arts[i])));
    let k = choose|k: int| 0 <= k < r.len() && r[k] == source_name(arts[i]);
    crate::plan::lemma_indices_of(arts, r[k]);
    assert(p.sources@[k].articles@ == indices_of(arts, r[k]));
    assert(p.sources@[k].toc_filename@ == toc_filename(r[k]));
}

proof fn lemma_logs_accumulate(
    logs: Seq<Seq<(int, Seq<char>, Seq<char>, Seq<char>, Seq<u8>)>>,
    readies: Seq<Seq<Page>>,
    t: int,
)
    requires
        0 <= t <= readies.len(),
        logs.len() == readies.len() + 1,
        forall|u: int|
            0 <= u < readies.len() ==> #[trigger] logs[u + 1] == logs[u] + readies[u].map_values(
                |p: Page| page_of(p),
            ),
    ensures
        logs[t] == logs[0] + released_pages(readies.take(t)).map_values(|p: Page| page_of(p)),
    decreases t,
{
    if t == 0 {
        assert(released_pages(readies.take(0)) =~= Seq::<Page>::empty());
        assert(logs[0] + Seq::<Page>::empty().map_values(|p: Page| page_of(p)) =~= logs[0]);
    } else {
        lemma_logs_accumulate(logs, readies, t - 1);
        assert(readies.take(t).drop_last() =~= readies.take(t - 1));
        assert(readies.take(t).last() == readies[t - 1]);
        let a = released_pages(readies.take(t - 1));
        let b = readies[t - 1];
        assert((a + b).map_values(|p: Page| page_of(p)) =~= a.map_values(|p: Page| page_of(p)) + b.map_values(
            |p: Page| page_of(p),
        ));
        let u = t - 1;
        assert(logs[u + 1] == logs[u] + readies[u].map_values(|p: Page| page_of(p)));
    }
}

/// Whatever order the parts of a digest arrive in, once every part number below `n` has
/// been received exactly once, the book holds what it was opened with followed by every
/// part exactly once, in number order, and the writer is complete for `n` parts.
pub proof fn lemma_book_in_part_order(
    events: Seq<(usize, Page)>,
    logs: Seq<Seq<(int, Seq<char>, Seq<char>, Seq<char>, Seq<u8>)>>,
    exps: Seq<nat>,
    waits: Seq<Map<usize, Page>>,
    readies: Seq<Seq<Page>>,
)
    requires
        events.len() < usize::MAX,
        logs.len() == events.len() + 1,
        exps.len() == events.len() + 1,
        waits.len() == events.len() + 1,
        readies.len() == events.len(),
        exps[0] == 0,
        waits[0] == Map::<usize, Page>::empty(),
        forall|t: int|
            0 <= t < events.len() ==> receive_step(
                exps[t],
                waits[t],
                (#[trigger] events[t]).0,
                events[t].1,
                exps[t + 1],
                waits[t + 1],
                readies[t],
            ) && logs[t + 1] == logs[t] + readies[t].map_values(|p: Page| page_of(p)),
        forall|u: int| 0 <= u < events.len() ==> (#[trigger] events[u]).0 < events.len(),
        forall|u1: int, u2: int|
            0 <= u1 < events.len() && 0 <= u2 < events.len() && u1 != u2 ==> (#[trigger] events[u1]).0
                != (#[trigger] events[u2]).0,
        forall|i: int| 0 <= i < events.len() ==> #[trigger] sent_before(events, events.len() as int, i),
    ensures
        exps[events.len() as int] == events.len(),
        logs[events.len() as int] == logs[0] + Seq::new(
            events.len() as nat,
            |i: int| page_of(page_numbered(events, i)),
        ),
{
    let n = events.len() as int;
    assert forall|t: int|
        0 <= t < events.len() implies receive_step(
            exps[t],
            waits[t],
            (#[trigger] events[t]).0,
            events[t].1,
            exps[t + 1],
            waits[t + 1],
            readies[t],
        ) by {}
    lemma_sequencer_restores_order(events, exps, waits, readies);
    assert forall|u: int|
        0 <= u < readies.len() implies #[trigger] logs[u + 1] == logs[u] + readies[u].map_values(
            |p: Page| page_of(p),
        ) by {
        assert(events[u] == events[u]);
    }
    lemma_logs_accumulate(logs, readies, n);
    assert(readies.take(n) =~= readies);
    assert(released_pages(readies).map_values(|p: Page| page_of(p)) =~= Seq::new(
        events.len() as nat,
        |i: int| page_of(page_numbered(events, i)),
    ));
}

} // verus!
