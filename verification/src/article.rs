//! The archive reader: finds one article in one compressed block.
//!
//! The archive is a run of independently compressed blocks. A block, once
//! decompressed, is a run of `<page>` elements with no element around them,
//! so the reader puts a root element around the text before it is parsed as
//! a document, then looks among the root's children for the page with the
//! wanted id and reads the article's fields out of it.

use vstd::prelude::*;
use vstd::string::*;
use vstd::utf8::{decode_utf8, valid_utf8};
use crate::index::IndexEntry;
use crate::text::{decimal_of, decimal_string, parse_number, parse_u64, same_text, utf8_string};

verus! {

/// An element of a parsed document, as the XML library holds it.
#[verifier::external_type_specification]
#[verifier::external_body]
pub struct ExElement(minidom::Element);

/// What the reader looks at in an element: its name and namespace, the
/// concatenation of its own text nodes, and its child elements in document
/// order.
pub struct XmlTree {
    pub name: Seq<char>,
    pub namespace: Seq<char>,
    pub text: Seq<char>,
    pub children: Seq<XmlTree>,
}

/// What an element holds.
pub uninterp spec fn element_tree(e: minidom::Element) -> XmlTree;

/// The decompressed content of the bzip2 stream that `data` begins with, or
/// `None` where the decoder fails on it.
pub uninterp spec fn bzip2_stream(data: Seq<u8>) -> Option<Seq<u8>>;

/// The root element of the document that `text` is, or `None` where the
/// parser rejects it.
pub uninterp spec fn xml_document(text: Seq<char>) -> Option<XmlTree>;

/// The instant a timestamp text names, as seconds since the Unix epoch and
/// the nanoseconds within that second, or `None` where the text is not a
/// timestamp.
pub uninterp spec fn timestamp_instant(text: Seq<char>) -> Option<(i64, u32)>;

/// An instant in UTC: whole seconds since the Unix epoch, and the
/// nanoseconds within the second.
#[derive(Clone, Copy, Debug, PartialEq, Eq, Structural)]
pub struct Timestamp {
    pub seconds: i64,
    pub nanos: u32,
}

/// One article, as extracted from the archive.
#[derive(Clone, Debug)]
pub struct Article {
    pub id: u64,
    pub title: String,
    pub last_changed_at: Timestamp,
    pub last_changed_by: String,
    pub body: String,
}

/// What an article holds.
pub struct ArticleView {
    pub id: u64,
    pub title: Seq<char>,
    pub last_changed_at: Timestamp,
    pub last_changed_by: Seq<char>,
    pub body: Seq<char>,
}

impl View for Article {
    type V = ArticleView;

    open spec fn view(&self) -> ArticleView {
        ArticleView {
            id: self.id,
            title: self.title@,
            last_changed_at: self.last_changed_at,
            last_changed_by: self.last_changed_by@,
            body: self.body@,
        }
    }
}

/// Why no article could be returned.
#[derive(Debug)]
pub enum ArticleError {
    /// The block holds no page with the wanted id.
    ArticleNotFound,
    /// The page lacks the named element.
    MissingProperty(String),
    /// The text of the named element is not of the expected form.
    MalformedProperty(String),
    /// The block offset lies beyond the end of the archive.
    OffsetOutOfRange,
    /// The bytes at the offset are not a complete compressed stream.
    CorruptBlock,
    /// The decompressed block is not UTF-8.
    InvalidEncoding,
    /// The decompressed block is not a run of well-formed elements.
    InvalidDocument,
}

/// An `ArticleError` with its payload as a sequence of characters.
pub enum Failure {
    ArticleNotFound,
    MissingProperty(Seq<char>),
    MalformedProperty(Seq<char>),
    OffsetOutOfRange,
    CorruptBlock,
    InvalidEncoding,
    InvalidDocument,
}

impl View for ArticleError {
    type V = Failure;

    open spec fn view(&self) -> Failure {
        match self {
            ArticleError::ArticleNotFound => Failure::ArticleNotFound,
            ArticleError::MissingProperty(name) => Failure::MissingProperty(name@),
            ArticleError::MalformedProperty(name) => Failure::MalformedProperty(name@),
            ArticleError::OffsetOutOfRange => Failure::OffsetOutOfRange,
            ArticleError::CorruptBlock => Failure::CorruptBlock,
            ArticleError::InvalidEncoding => Failure::InvalidEncoding,
            ArticleError::InvalidDocument => Failure::InvalidDocument,
        }
    }
}

impl ArticleError {
    /// What the error says to a reader.
    pub open spec fn message_text(&self) -> Seq<char> {
        match self {
            ArticleError::ArticleNotFound => "requested article not found"@,
            ArticleError::MissingProperty(_) => "missing property on page"@,
            ArticleError::MalformedProperty(_) => "malformed property on page"@,
            ArticleError::OffsetOutOfRange => "block offset beyond the end of the archive"@,
            ArticleError::CorruptBlock => "block cannot be decompressed"@,
            ArticleError::InvalidEncoding => "block is not UTF-8"@,
            ArticleError::InvalidDocument => "block is not a well-formed document"@,
        }
    }

    /// The error as a message.
    pub fn message(&self) -> (r: String)
        ensures
            r@ == self.message_text(),
    {
        match self {
            ArticleError::ArticleNotFound => "requested article not found",
            ArticleError::MissingProperty(_) => "missing property on page",
            ArticleError::MalformedProperty(_) => "malformed property on page",
            ArticleError::OffsetOutOfRange => "block offset beyond the end of the archive",
            ArticleError::CorruptBlock => "block cannot be decompressed",
            ArticleError::InvalidEncoding => "block is not UTF-8",
            ArticleError::InvalidDocument => "block is not a well-formed document",
        }.to_owned()
    }
}

/// The outcome of an extraction, over views.
pub open spec fn outcome(r: Result<Article, ArticleError>) -> Result<ArticleView, Failure> {
    match r {
        Ok(a) => Ok(a@),
        Err(e) => Err(e@),
    }
}

/// Whether an element has the given name and the empty namespace.
pub open spec fn is_named(t: XmlTree, name: Seq<char>) -> bool {
    t.name == name && t.namespace.len() == 0
}

/// The position of the first element with the given name and the empty
/// namespace, or the length of the sequence if there is none.
pub open spec fn first_named(children: Seq<XmlTree>, name: Seq<char>) -> int
    decreases children.len(),
{
    if children.len() == 0 || is_named(children[0], name) {
        0
    } else {
        1 + first_named(children.skip(1), name)
    }
}

/// The first child element with the given name and the empty namespace.
pub open spec fn first_child(t: XmlTree, name: Seq<char>) -> Option<XmlTree> {
    let k = first_named(t.children, name);
    if 0 <= k < t.children.len() {
        Some(t.children[k])
    } else {
        None
    }
}

/// Whether a page carries the given id: it has an `id` child whose text is
/// the id's canonical decimal numeral.
pub open spec fn has_id(page: XmlTree, id: u64) -> bool {
    match first_child(page, "id"@) {
        Some(c) => c.text == decimal_of(id as nat),
        None => false,
    }
}

/// The position of the first page with the given id, or the length of the
/// sequence if there is none.
pub open spec fn first_page(pages: Seq<XmlTree>, id: u64) -> int
    decreases pages.len(),
{
    if pages.len() == 0 || has_id(pages[0], id) {
        0
    } else {
        1 + first_page(pages.skip(1), id)
    }
}

/// The article that a page element describes, or the first thing found
/// wrong with it. The fields are read in this order: `id`, `title`,
/// `revision`, and inside the revision `text`, `timestamp`, `contributor`
/// and the contributor's `username`.
pub open spec fn article_of(page: XmlTree) -> Result<ArticleView, Failure> {
    match first_child(page, "id"@) {
        None => Err(Failure::MissingProperty("id"@)),
        Some(id) => match parse_number(id.text) {
            None => Err(Failure::MalformedProperty("id"@)),
            Some(id) => match first_child(page, "title"@) {
                None => Err(Failure::MissingProperty("title"@)),
                Some(title) => match first_child(page, "revision"@) {
                    None => Err(Failure::MissingProperty("revision"@)),
                    Some(revision) => revision_of(id, title.text, revision),
                },
            },
        },
    }
}

/// The part of `article_of` that reads the revision element.
pub open spec fn revision_of(id: u64, title: Seq<char>, revision: XmlTree) -> Result<
    ArticleView,
    Failure,
> {
    match first_child(revision, "text"@) {
        None => Err(Failure::MissingProperty("text"@)),
        Some(body) => match first_child(revision, "timestamp"@) {
            None => Err(Failure::MissingProperty("timestamp"@)),
            Some(stamp) => match timestamp_instant(stamp.text) {
                None => Err(Failure::MalformedProperty("timestamp"@)),
                Some(instant) => match first_child(revision, "contributor"@) {
                    None => Err(Failure::MissingProperty("contributor"@)),
                    Some(contributor) => match first_child(contributor, "username"@) {
                        None => Err(Failure::MissingProperty("username"@)),
                        Some(username) => Ok(
                            ArticleView {
                                id,
                                title,
                                last_changed_at: Timestamp {
                                    seconds: instant.0,
                                    nanos: instant.1,
                                },
                                last_changed_by: username.text,
                                body: body.text,
                            },
                        ),
                    },
                },
            },
        },
    }
}

/// The article with the given id among the children of a block's root.
pub open spec fn article_in(root: XmlTree, id: u64) -> Result<ArticleView, Failure> {
    let k = first_page(root.children, id);
    if 0 <= k < root.children.len() {
        article_of(root.children[k])
    } else {
        Err(Failure::ArticleNotFound)
    }
}

/// A block's text with a root element in the empty namespace around it.
pub open spec fn wrapped(inner: Seq<char>) -> Seq<char> {
    "<root xmlns=\"\">"@ + inner + "</root>"@
}

/// The document text of the block that `block` begins with.
pub open spec fn block_text(block: Seq<u8>) -> Result<Seq<char>, Failure> {
    match bzip2_stream(block) {
        None => Err(Failure::CorruptBlock),
        Some(bytes) => if valid_utf8(bytes) {
            Ok(wrapped(decode_utf8(bytes)))
        } else {
            Err(Failure::InvalidEncoding)
        },
    }
}

/// The document text of the block that starts at `offset`.
pub open spec fn chunk_at(data: Seq<u8>, offset: u64) -> Result<Seq<char>, Failure> {
    if offset > data.len() {
        Err(Failure::OffsetOutOfRange)
    } else {
        block_text(data.skip(offset as int))
    }
}

/// The article with the given id in the block that starts at `offset`.
pub open spec fn article_at(data: Seq<u8>, offset: u64, id: u64) -> Result<ArticleView, Failure> {
    match chunk_at(data, offset) {
        Err(e) => Err(e),
        Ok(text) => match xml_document(text) {
            None => Err(Failure::InvalidDocument),
            Some(root) => article_in(root, id),
        },
    }
}

/// The first page with the id lies within the sequence or at its end;
/// the page there carries the id, and none before it does.
pub proof fn lemma_first_page_bounds(pages: Seq<XmlTree>, id: u64)
    ensures
        0 <= first_page(pages, id) <= pages.len(),
        first_page(pages, id) < pages.len() ==> has_id(pages[first_page(pages, id)], id),
        forall|j: int| 0 <= j < first_page(pages, id) ==> !has_id(#[trigger] pages[j], id),
    decreases pages.len(),
{
    if pages.len() == 0 || has_id(pages[0], id) {
    } else {
        lemma_first_page_bounds(pages.skip(1), id);
        assert forall|j: int| 0 <= j < first_page(pages, id) implies !has_id(
            #[trigger] pages[j],
            id,
        ) by {
            if j > 0 {
                assert(pages.skip(1)[j - 1] == pages[j]);
            }
        }
    }
}

/// The article returned is that of the page that carries the wanted id:
/// where page `k` of a block is the first with the id, the block yields
/// what that page describes, whatever the pages before it hold.
pub proof fn law_article_is_chosen_by_id(root: XmlTree, id: u64, k: int)
    requires
        0 <= k < root.children.len(),
        has_id(root.children[k], id),
        forall|j: int| 0 <= j < k ==> !has_id(#[trigger] root.children[j], id),
    ensures
        article_in(root, id) == article_of(root.children[k]),
{
    lemma_first_page_bounds(root.children, id);
}

/// A block none of whose pages carries the wanted id yields
/// `ArticleNotFound`.
pub proof fn law_absent_id_is_not_found(root: XmlTree, id: u64)
    requires
        forall|j: int| 0 <= j < root.children.len() ==> !has_id(#[trigger] root.children[j], id),
    ensures
        article_in(root, id) == Err::<ArticleView, Failure>(Failure::ArticleNotFound),
{
    lemma_first_page_bounds(root.children, id);
}

/// An article that is returned carries the id it was asked for by: the
/// page's `id` text is the canonical numeral of the wanted id, and the
/// article's id is the number that text stands for.
pub proof fn law_returned_article_has_the_wanted_id(root: XmlTree, id: u64)
    ensures
        article_in(root, id) matches Ok(article) ==> article.id == id,
{
    lemma_first_page_bounds(root.children, id);
    crate::text::lemma_number_reads_back(id);
}

/// Runs `bzip2_rs::DecoderReader` over `data` until it reports the end of
/// its stream, collecting what it yields. Trusted: what is collected, or
/// that the decoder failed, is a function of `data` alone.
#[verifier::external_body]
fn decompress(data: &[u8]) -> (r: Option<Vec<u8>>)
    ensures
        match r {
            Some(bytes) => bzip2_stream(data@) == Some(bytes@),
            None => bzip2_stream(data@) is None,
        },
{
    let mut decoded = Vec::new();
    let mut reader = bzip2_rs::DecoderReader::new(data);
    match std::io::copy(&mut reader, &mut decoded) {
        Ok(_) => Some(decoded),
        Err(_) => None,
    }
}

/// Calls `minidom::Element::from_str`. Trusted: the element returned, or
/// that the parser failed, is a function of `text` alone.
#[verifier::external_body]
fn parse_document(text: &str) -> (r: Option<minidom::Element>)
    ensures
        match r {
            Some(e) => xml_document(text@) == Some(element_tree(e)),
            None => xml_document(text@) is None,
        },
{
    text.parse::<minidom::Element>().ok()
}

/// Calls `minidom::Element::children`. Trusted: the child elements come in
/// document order.
#[verifier::external_body]
fn child_elements<'a>(e: &'a minidom::Element) -> (r: Vec<&'a minidom::Element>)
    ensures
        r@.len() == element_tree(*e).children.len(),
        forall|i: int|
            0 <= i < r@.len() ==> element_tree(*#[trigger] r@[i]) == element_tree(*e).children[i],
{
    e.children().collect()
}

/// Calls `minidom::Element::get_child` with the empty namespace. Trusted:
/// the result is the first child element with that name and namespace.
#[verifier::external_body]
fn child_named<'a>(e: &'a minidom::Element, name: &str) -> (r: Option<&'a minidom::Element>)
    ensures
        match r {
            Some(c) => first_child(element_tree(*e), name@) == Some(element_tree(*c)),
            None => first_child(element_tree(*e), name@) is None,
        },
{
    e.get_child(name, "")
}

/// Calls `minidom::Element::text`. Trusted: the result is the concatenation
/// of the element's own text nodes.
#[verifier::external_body]
fn element_text(e: &minidom::Element) -> (r: String)
    ensures
        r@ == element_tree(*e).text,
{
    e.text()
}

/// Calls chrono's `DateTime::<Utc>::from_str`, then `timestamp` and
/// `timestamp_subsec_nanos` on the result. Trusted: the instant, or that the
/// text was rejected, is a function of `text` alone.
#[verifier::external_body]
fn parse_timestamp(text: &str) -> (r: Option<Timestamp>)
    ensures
        match r {
            Some(t) => timestamp_instant(text@) == Some((t.seconds, t.nanos)),
            None => timestamp_instant(text@) is None,
        },
{
    match text.parse::<chrono::DateTime<chrono::Utc>>() {
        Ok(t) => Some(Timestamp { seconds: t.timestamp(), nanos: t.timestamp_subsec_nanos() }),
        Err(_) => None,
    }
}

/// The child with the given name, or the error that names it as missing.
fn try_get_child<'a>(e: &'a minidom::Element, name: &str) -> (r: Result<
    &'a minidom::Element,
    ArticleError,
>)
    ensures
        match r {
            Ok(c) => first_child(element_tree(*e), name@) == Some(element_tree(*c)),
            Err(err) => first_child(element_tree(*e), name@) is None && err@
                == Failure::MissingProperty(name@),
        },
{
    match child_named(e, name) {
        Some(c) => Ok(c),
        None => Err(ArticleError::MissingProperty(name.to_owned())),
    }
}

/// The first page with the given id among the children of `root`.
pub fn find_page<'a>(root: &'a minidom::Element, page_id: u64) -> (r: Option<
    &'a minidom::Element,
>)
    ensures
        match r {
            Some(p) => {
                let k = first_page(element_tree(*root).children, page_id);
                0 <= k < element_tree(*root).children.len() && element_tree(*p) == element_tree(
                    *root,
                ).children[k]
            },
            None => first_page(element_tree(*root).children, page_id) >= element_tree(
                *root,
            ).children.len(),
        },
{
    let wanted = decimal_string(page_id);
    let pages = child_elements(root);
    let ghost all = element_tree(*root).children;
    let n = pages.len();
    let mut i: usize = 0;
    assert(all.skip(0) =~= all);
    while i < n
        invariant
            n == pages@.len(),
            n == all.len(),
            i <= n,
            all == element_tree(*root).children,
            wanted@ == decimal_of(page_id as nat),
            forall|j: int| 0 <= j < n ==> element_tree(*#[trigger] pages@[j]) == all[j],
            first_page(all, page_id) == i + first_page(all.skip(i as int), page_id),
        decreases n - i,
    {
        let page = pages[i];
        assert(all.skip(i as int)[0] == all[i as int]);
        let found = match child_named(page, "id") {
            Some(id) => same_text(element_text(id).as_str(), wanted.as_str()),
            None => false,
        };
        assert(found == has_id(all[i as int], page_id));
        if found {
            return Some(page);
        }
        assert(all.skip(i as int).skip(1) =~= all.skip(i + 1));
        i += 1;
    }
    None
}

/// An archive: the bytes of its blocks, one after the other.
pub struct ArticleDatabase<'a> {
    pub data: &'a [u8],
}

impl<'a> ArticleDatabase<'a> {
    /// An archive over the given bytes.
    pub fn new(data: &'a [u8]) -> (r: Self)
        ensures
            r.data@ == data@,
    {
        Self { data }
    }

    /// Extracts the article that an index entry points at: the page with
    /// the entry's id in the block at the entry's offset.
    pub fn get_article(&self, idx: &IndexEntry) -> (r: Result<Article, ArticleError>)
        ensures
            outcome(r) == article_at(self.data@, idx.offset, idx.page_id),
    {
        let text = match self.get_article_chunk(idx) {
            Ok(text) => text,
            Err(e) => {
                return Err(e);
            },
        };
        match parse_document(text.as_str()) {
            Some(root) => Self::find_article(&root, idx.page_id),
            None => Err(ArticleError::InvalidDocument),
        }
    }

    /// Decompresses the block at the entry's offset and returns its text
    /// with a root element around it.
    pub fn get_article_chunk(&self, idx: &IndexEntry) -> (r: Result<String, ArticleError>)
        ensures
            match r {
                Ok(text) => chunk_at(self.data@, idx.offset) == Ok::<Seq<char>, Failure>(text@),
                Err(e) => chunk_at(self.data@, idx.offset) == Err::<Seq<char>, Failure>(e@),
            },
    {
        if idx.offset > self.data.len() as u64 {
            return Err(ArticleError::OffsetOutOfRange);
        }
        let block = vstd::slice::slice_subrange(
            self.data,
            idx.offset as usize,
            self.data.len(),
        );
        assert(block@ =~= self.data@.skip(idx.offset as int));
        let decoded = match decompress(block) {
            Some(bytes) => bytes,
            None => {
                return Err(ArticleError::CorruptBlock);
            },
        };
        let inner = match utf8_string(decoded) {
            Some(s) => s,
            None => {
                return Err(ArticleError::InvalidEncoding);
            },
        };
        let mut text = String::from_str("<root xmlns=\"\">");
        text.append(inner.as_str());
        text.append("</root>");
        Ok(text)
    }

    /// The article with the given id in a parsed block.
    pub fn find_article(root: &minidom::Element, page_id: u64) -> (r: Result<
        Article,
        ArticleError,
    >)
        ensures
            outcome(r) == article_in(element_tree(*root), page_id),
    {
        match find_page(root, page_id) {
            Some(page) => Self::parse_article(page),
            None => Err(ArticleError::ArticleNotFound),
        }
    }

    /// Reads the article that a page element describes.
    pub fn parse_article(page: &minidom::Element) -> (r: Result<Article, ArticleError>)
        ensures
            outcome(r) == article_of(element_tree(*page)),
    {
        let id_element = match try_get_child(page, "id") {
            Ok(c) => c,
            Err(e) => {
                return Err(e);
            },
        };
        let id = match parse_u64(element_text(id_element).as_str()) {
            Some(id) => id,
            None => {
                return Err(ArticleError::MalformedProperty("id".to_owned()));
            },
        };
        let title = match try_get_child(page, "title") {
            Ok(c) => element_text(c),
            Err(e) => {
                return Err(e);
            },
        };
        let revision = match try_get_child(page, "revision") {
            Ok(c) => c,
            Err(e) => {
                return Err(e);
            },
        };
        let body = match try_get_child(revision, "text") {
            Ok(c) => element_text(c),
            Err(e) => {
                return Err(e);
            },
        };
        let stamp = match try_get_child(revision, "timestamp") {
            Ok(c) => element_text(c),
            Err(e) => {
                return Err(e);
            },
        };
        let last_changed_at = match parse_timestamp(stamp.as_str()) {
            Some(t) => t,
            None => {
                return Err(ArticleError::MalformedProperty("timestamp".to_owned()));
            },
        };
        let contributor = match try_get_child(revision, "contributor") {
            Ok(c) => c,
            Err(e) => {
                return Err(e);
            },
        };
        let last_changed_by = match try_get_child(contributor, "username") {
            Ok(c) => element_text(c),
            Err(e) => {
                return Err(e);
            },
        };
        Ok(Article { id, title, last_changed_at, last_changed_by, body })
    }
}

} // verus!
