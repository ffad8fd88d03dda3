//! The renderer: a depth-first, document-order walk over the markup tree
//! that emits HTML.
//!
//! The walk carries four independent switches, one per kind of marker node.
//! A marker emits its opening sequence when its switch is off and its closing
//! sequence when it is on, and flips the switch either way.

use parse_wiki_text::{DefinitionListItem, ListItem, Node, TableCaption, TableCell, TableRow};
use vstd::prelude::*;
use vstd::string::*;
use crate::article::Article;
use crate::markup::{parse_markup, parsed_markup};
use vstd::hash_map::StringHashMap;
use crate::template::{render_template, substituted, values};
use crate::text::{decimal_of, push_char, push_decimal};

verus! {

/// What a walk has produced so far: the HTML text and the four switches.
pub struct Rendered {
    pub html: Seq<char>,
    pub bold: bool,
    pub italic: bool,
    pub bold_italic: bool,
    pub comment: bool,
}

impl Rendered {
    /// Nothing emitted, every switch off.
    pub open spec fn start() -> Rendered {
        Rendered {
            html: Seq::empty(),
            bold: false,
            italic: false,
            bold_italic: false,
            comment: false,
        }
    }

    /// The same state with `s` appended to the text.
    pub open spec fn emit(self, s: Seq<char>) -> Rendered {
        Rendered { html: self.html + s, ..self }
    }

    /// Whether every switch is off.
    pub open spec fn closed(self) -> bool {
        !self.bold && !self.italic && !self.bold_italic && !self.comment
    }
}

/// `<name>`
pub open spec fn open_tag_spec(name: Seq<char>) -> Seq<char> {
    seq!['<'] + name + seq!['>']
}

/// `</name>`
pub open spec fn close_tag_spec(name: Seq<char>) -> Seq<char> {
    "</"@ + name + seq!['>']
}

/// `<name/>`
pub open spec fn void_tag_spec(name: Seq<char>) -> Seq<char> {
    seq!['<'] + name + "/>"@
}

/// The name of the heading element of the given level: `h` and the level
/// in decimal.
pub open spec fn heading_tag(level: u8) -> Seq<char> {
    seq!['h'] + decimal_of(level as nat)
}

/// The state after one node has been rendered from state `r`.
pub open spec fn render_node_spec(node: Node, r: Rendered) -> Rendered
    decreases node,
{
    match node {
        Node::Bold { .. } => if !r.bold {
            Rendered { bold: true, ..r.emit(open_tag_spec("strong"@)) }
        } else {
            Rendered { bold: false, ..r.emit(close_tag_spec("strong"@)) }
        },
        Node::BoldItalic { .. } => if !r.bold_italic {
            Rendered {
                bold_italic: true,
                ..r.emit(open_tag_spec("strong"@)).emit(open_tag_spec("em"@))
            }
        } else {
            Rendered {
                bold_italic: false,
                ..r.emit(close_tag_spec("em"@)).emit(close_tag_spec("strong"@))
            }
        },
        Node::Italic { .. } => if !r.italic {
            Rendered { italic: true, ..r.emit(open_tag_spec("em"@)) }
        } else {
            Rendered { italic: false, ..r.emit(close_tag_spec("em"@)) }
        },
        Node::Comment { .. } => if !r.comment {
            Rendered { comment: true, ..r.emit("<!--"@) }
        } else {
            Rendered { comment: false, ..r.emit("-->"@) }
        },
        Node::Category { target, .. } => r.emit("<a class=\"category\" href=\"/"@).emit(
            target@,
        ).emit("\">"@).emit(target@).emit("</a>"@),
        Node::CharacterEntity { character, .. } => r.emit(seq![character]),
        Node::DefinitionList { items, .. } => render_definitions_spec(
            items@,
            r.emit(open_tag_spec("dl"@)),
        ).emit(close_tag_spec("dl"@)),
        Node::StartTag { name, .. } => r.emit(open_tag_spec(name@)),
        Node::EndTag { name, .. } => r.emit(close_tag_spec(name@)),
        Node::ExternalLink { nodes, .. } => render_nodes_spec(
            nodes@,
            r.emit("<a href=\"#\">"@),
        ).emit("</a>"@),
        Node::Heading { level, nodes, .. } => render_nodes_spec(
            nodes@,
            r.emit(open_tag_spec(heading_tag(level))),
        ).emit(close_tag_spec(heading_tag(level))),
        Node::HorizontalDivider { .. } => r.emit(void_tag_spec("hr"@)),
        Node::Image { target, text, .. } => render_nodes_spec(
            text@,
            r.emit(open_tag_spec("figure"@)).emit("<img src=\""@).emit(target@).emit("\"/>"@).emit(
                open_tag_spec("figcaption"@),
            ),
        ).emit(close_tag_spec("figcaption"@)).emit(close_tag_spec("figure"@)),
        Node::Link { target, text, .. } => render_nodes_spec(
            text@,
            r.emit("<a href=\"/"@).emit(target@).emit("\">"@),
        ).emit("</a>"@),
        Node::MagicWord { .. } => r,
        Node::OrderedList { items, .. } => render_items_spec(
            items@,
            r.emit(open_tag_spec("ol"@)),
        ).emit(close_tag_spec("ol"@)),
        Node::ParagraphBreak { .. } => r.emit(void_tag_spec("p"@)),
        Node::Parameter { name, default, .. } => r,
        Node::Preformatted { nodes, .. } => render_nodes_spec(
            nodes@,
            r.emit(open_tag_spec("pre"@)),
        ).emit(close_tag_spec("pre"@)),
        Node::Redirect { target, .. } => r.emit("<a href=\"/"@).emit(target@).emit(
            "\">Redirect</a>"@,
        ),
        Node::Table { attributes, captions, rows, .. } => {
            let head = render_nodes_spec(attributes@, r.emit("<table "@)).emit(">"@).emit(
                "<thead><tr>"@,
            );
            let body = render_captions_spec(captions@, head).emit("</tr></thead>"@).emit(
                "<tbody>"@,
            );
            render_rows_spec(rows@, body).emit("</tbody></table>"@)
        },
        Node::Tag { name, nodes, .. } => render_nodes_spec(
            nodes@,
            r.emit(open_tag_spec(name@)),
        ).emit(close_tag_spec(name@)),
        Node::Template { name, parameters, .. } => r,
        Node::Text { value, .. } => r.emit(value@),
        Node::UnorderedList { items, .. } => render_items_spec(
            items@,
            r.emit(open_tag_spec("ul"@)),
        ).emit(close_tag_spec("ul"@)),
    }
}

/// The state after a sequence of nodes has been rendered, in order, from
/// state `r`.
pub open spec fn render_nodes_spec(nodes: Seq<Node>, r: Rendered) -> Rendered
    decreases nodes,
{
    if nodes.len() == 0 {
        r
    } else {
        render_node_spec(nodes.last(), render_nodes_spec(nodes.drop_last(), r))
    }
}

/// Attributes that may be absent render as nothing.
pub open spec fn render_optional_spec(nodes: Option<Vec<Node>>, r: Rendered) -> Rendered
    decreases nodes,
{
    match nodes {
        Some(nodes) => render_nodes_spec(nodes@, r),
        None => r,
    }
}

/// List items: each item's nodes inside `<li>`.
pub open spec fn render_items_spec(items: Seq<ListItem>, r: Rendered) -> Rendered
    decreases items,
{
    if items.len() == 0 {
        r
    } else {
        render_nodes_spec(
            items.last().nodes@,
            render_items_spec(items.drop_last(), r).emit(open_tag_spec("li"@)),
        ).emit(close_tag_spec("li"@))
    }
}

/// Definition-list items: each item's nodes, with no element around them.
pub open spec fn render_definitions_spec(items: Seq<DefinitionListItem>, r: Rendered) -> Rendered
    decreases items,
{
    if items.len() == 0 {
        r
    } else {
        render_nodes_spec(items.last().nodes@, render_definitions_spec(items.drop_last(), r))
    }
}

/// Table captions: one `<th ...>` per caption.
pub open spec fn render_captions_spec(captions: Seq<TableCaption>, r: Rendered) -> Rendered
    decreases captions,
{
    if captions.len() == 0 {
        r
    } else {
        let before = render_captions_spec(captions.drop_last(), r).emit("<th "@);
        let opened = render_optional_spec(captions.last().attributes, before).emit(">"@);
        render_nodes_spec(captions.last().content@, opened).emit("</th>"@)
    }
}

/// Table cells: one `<td ...>` per cell.
pub open spec fn render_cells_spec(cells: Seq<TableCell>, r: Rendered) -> Rendered
    decreases cells,
{
    if cells.len() == 0 {
        r
    } else {
        let before = render_cells_spec(cells.drop_last(), r).emit("<td "@);
        let opened = render_optional_spec(cells.last().attributes, before).emit(">"@);
        render_nodes_spec(cells.last().content@, opened).emit("</td>"@)
    }
}

/// Table rows: one `<tr ...>` per row, holding its cells.
pub open spec fn render_rows_spec(rows: Seq<TableRow>, r: Rendered) -> Rendered
    decreases rows,
{
    if rows.len() == 0 {
        r
    } else {
        let before = render_rows_spec(rows.drop_last(), r).emit("<tr "@);
        let opened = render_nodes_spec(rows.last().attributes@, before).emit(">"@);
        render_cells_spec(rows.last().cells@, opened).emit("</tr>"@)
    }
}

/// The HTML of a whole document: its nodes rendered from the start state.
pub open spec fn document_html(nodes: Seq<Node>) -> Seq<char> {
    render_nodes_spec(nodes, Rendered::start()).html
}

/// The text that a borrowed-or-owned string holds.
fn cow_text<'b>(name: &'b std::borrow::Cow<'_, str>) -> (r: &'b str)
    ensures
        r@ == name@,
{
    match name {
        std::borrow::Cow::Borrowed(text) => *text,
        std::borrow::Cow::Owned(text) => text.as_str(),
    }
}

/// The walker: the HTML written so far and the four switches.
pub struct ArticleRenderer {
    pub html: String,
    pub is_italic: bool,
    pub is_bold: bool,
    pub is_bold_italic: bool,
    pub is_comment: bool,
}

impl View for ArticleRenderer {
    type V = Rendered;

    open spec fn view(&self) -> Rendered {
        Rendered {
            html: self.html@,
            bold: self.is_bold,
            italic: self.is_italic,
            bold_italic: self.is_bold_italic,
            comment: self.is_comment,
        }
    }
}

impl ArticleRenderer {
    /// A walker that has emitted nothing, with every switch off.
    pub fn new() -> (r: Self)
        ensures
            r@ == Rendered::start(),
    {
        Self {
            html: String::new(),
            is_italic: false,
            is_bold: false,
            is_bold_italic: false,
            is_comment: false,
        }
    }

    /// Appends text as it is.
    pub fn append(&mut self, data: &str)
        ensures
            final(self)@ == old(self)@.emit(data@),
    {
        self.html.append(data);
    }

    /// Appends one character.
    pub fn append_chr(&mut self, data: char)
        ensures
            final(self)@ == old(self)@.emit(seq![data]),
    {
        push_char(&mut self.html, data);
        assert(self.html@ =~= old(self).html@ + seq![data]);
    }

    /// Appends `<tag>`.
    pub fn open_tag(&mut self, tag: &str)
        ensures
            final(self)@ == old(self)@.emit(open_tag_spec(tag@)),
    {
        self.append_chr('<');
        self.append(tag);
        self.append_chr('>');
        assert(self.html@ =~= old(self).html@ + open_tag_spec(tag@));
    }

    /// Appends `</tag>`.
    pub fn close_tag(&mut self, tag: &str)
        ensures
            final(self)@ == old(self)@.emit(close_tag_spec(tag@)),
    {
        self.append("</");
        self.append(tag);
        self.append_chr('>');
        assert(self.html@ =~= old(self).html@ + close_tag_spec(tag@));
    }

    /// Appends `<tag/>`.
    pub fn void_tag(&mut self, tag: &str)
        ensures
            final(self)@ == old(self)@.emit(void_tag_spec(tag@)),
    {
        self.append_chr('<');
        self.append(tag);
        self.append("/>");
        assert(self.html@ =~= old(self).html@ + void_tag_spec(tag@));
    }

    /// Renders an article's body: whatever was written before is discarded
    /// and every switch is reset, then the body is parsed and its nodes are
    /// walked in order.
    pub fn render_article_body(&mut self, article: &Article)
        ensures
            final(self)@ == render_nodes_spec(parsed_markup(article.body@), Rendered::start()),
            final(self).html@ == document_html(parsed_markup(article.body@)),
    {
        let nodes = parse_markup(article.body.as_str());
        self.html = String::new();
        self.is_bold = false;
        self.is_italic = false;
        self.is_bold_italic = false;
        self.is_comment = false;
        self.render_nodes(&nodes);
    }

    /// Renders the nodes in order.
    pub fn render_nodes(&mut self, nodes: &Vec<Node>)
        ensures
            final(self)@ == render_nodes_spec(nodes@, old(self)@),
        decreases nodes,
    {
        let n = nodes.len();
        let mut i: usize = 0;
        while i < n
            invariant
                n == nodes@.len(),
                i <= n,
                self@ == render_nodes_spec(nodes@.take(i as int), old(self)@),
            decreases n - i,
        {
            assert(nodes@.take(i + 1).drop_last() =~= nodes@.take(i as int));
            self.render_node(&nodes[i]);
            i += 1;
        }
        assert(nodes@.take(n as int) =~= nodes@);
    }

    /// Renders attributes that may be absent.
    fn render_optional(&mut self, nodes: &Option<Vec<Node>>)
        ensures
            final(self)@ == render_optional_spec(*nodes, old(self)@),
        decreases nodes,
    {
        if let Some(nodes) = nodes {
            self.render_nodes(nodes);
        }
    }

    /// Renders list items, each inside `<li>`.
    fn render_items(&mut self, items: &Vec<ListItem>)
        ensures
            final(self)@ == render_items_spec(items@, old(self)@),
        decreases items,
    {
        let n = items.len();
        let mut i: usize = 0;
        while i < n
            invariant
                n == items@.len(),
                i <= n,
                self@ == render_items_spec(items@.take(i as int), old(self)@),
            decreases n - i,
        {
            assert(items@.take(i + 1).drop_last() =~= items@.take(i as int));
            self.open_tag("li");
            self.render_nodes(&items[i].nodes);
            self.close_tag("li");
            i += 1;
        }
        assert(items@.take(n as int) =~= items@);
    }

    /// Renders the items of a definition list, one after the other.
    fn render_definitions(&mut self, items: &Vec<DefinitionListItem>)
        ensures
            final(self)@ == render_definitions_spec(items@, old(self)@),
        decreases items,
    {
        let n = items.len();
        let mut i: usize = 0;
        while i < n
            invariant
                n == items@.len(),
                i <= n,
                self@ == render_definitions_spec(items@.take(i as int), old(self)@),
            decreases n - i,
        {
            assert(items@.take(i + 1).drop_last() =~= items@.take(i as int));
            self.render_nodes(&items[i].nodes);
            i += 1;
        }
        assert(items@.take(n as int) =~= items@);
    }

    /// Renders table captions, one `<th ...>` each.
    fn render_captions(&mut self, captions: &Vec<TableCaption>)
        ensures
            final(self)@ == render_captions_spec(captions@, old(self)@),
        decreases captions,
    {
        let n = captions.len();
        let mut i: usize = 0;
        while i < n
            invariant
                n == captions@.len(),
                i <= n,
                self@ == render_captions_spec(captions@.take(i as int), old(self)@),
            decreases n - i,
        {
            assert(captions@.take(i + 1).drop_last() =~= captions@.take(i as int));
            self.append("<th ");
            self.render_optional(&captions[i].attributes);
            self.append(">");
            self.render_nodes(&captions[i].content);
            self.append("</th>");
            i += 1;
        }
        assert(captions@.take(n as int) =~= captions@);
    }

    /// Renders the cells of a row, one `<td ...>` each.
    fn render_cells(&mut self, cells: &Vec<TableCell>)
        ensures
            final(self)@ == render_cells_spec(cells@, old(self)@),
        decreases cells,
    {
        let n = cells.len();
        let mut i: usize = 0;
        while i < n
            invariant
                n == cells@.len(),
                i <= n,
                self@ == render_cells_spec(cells@.take(i as int), old(self)@),
            decreases n - i,
        {
            assert(cells@.take(i + 1).drop_last() =~= cells@.take(i as int));
            self.append("<td ");
            self.render_optional(&cells[i].attributes);
            self.append(">");
            self.render_nodes(&cells[i].content);
            self.append("</td>");
            i += 1;
        }
        assert(cells@.take(n as int) =~= cells@);
    }

    /// Renders table rows, one `<tr ...>` each.
    fn render_rows(&mut self, rows: &Vec<TableRow>)
        ensures
            final(self)@ == render_rows_spec(rows@, old(self)@),
        decreases rows,
    {
        let n = rows.len();
        let mut i: usize = 0;
        while i < n
            invariant
                n == rows@.len(),
                i <= n,
                self@ == render_rows_spec(rows@.take(i as int), old(self)@),
            decreases n - i,
        {
            assert(rows@.take(i + 1).drop_last() =~= rows@.take(i as int));
            self.append("<tr ");
            self.render_nodes(&rows[i].attributes);
            self.append(">");
            self.render_cells(&rows[i].cells);
            self.append("</tr>");
            i += 1;
        }
        assert(rows@.take(n as int) =~= rows@);
    }

    /// Renders one node and, for a node with children, everything below it.
    pub fn render_node(&mut self, node: &Node)
        ensures
            final(self)@ == render_node_spec(*node, old(self)@),
        decreases node,
    {
        match node {
            Node::Bold { .. } => {
                if !self.is_bold {
                    self.open_tag("strong");
                } else {
                    self.close_tag("strong");
                }
                self.is_bold = !self.is_bold;
            },
            Node::BoldItalic { .. } => {
                if !self.is_bold_italic {
                    self.open_tag("strong");
                    self.open_tag("em");
                } else {
                    self.close_tag("em");
                    self.close_tag("strong");
                }
                self.is_bold_italic = !self.is_bold_italic;
            },
            Node::Italic { .. } => {
                if !self.is_italic {
                    self.open_tag("em");
                } else {
                    self.close_tag("em");
                }
                self.is_italic = !self.is_italic;
            },
            Node::Comment { .. } => {
                if !self.is_comment {
                    self.append("<!--");
                } else {
                    self.append("-->");
                }
                self.is_comment = !self.is_comment;
            },
            Node::Category { target, .. } => {
                self.append("<a class=\"category\" href=\"/");
                self.append(*target);
                self.append("\">");
                self.append(*target);
                self.append("</a>");
            },
            Node::CharacterEntity { character, .. } => {
                self.append_chr(*character);
            },
            Node::DefinitionList { items, .. } => {
                self.open_tag("dl");
                self.render_definitions(items);
                self.close_tag("dl");
            },
            Node::StartTag { name, .. } => {
                self.open_tag(cow_text(name));
            },
            Node::EndTag { name, .. } => {
                self.close_tag(cow_text(name));
            },
            Node::ExternalLink { nodes, .. } => {
                self.append("<a href=\"#\">");
                self.render_nodes(nodes);
                self.append("</a>");
            },
            Node::Heading { level, nodes, .. } => {
                let mut tag_name = String::new();
                push_char(&mut tag_name, 'h');
                push_decimal(&mut tag_name, *level as u64);
                assert(tag_name@ =~= heading_tag(*level));
                self.open_tag(tag_name.as_str());
                self.render_nodes(nodes);
                self.close_tag(tag_name.as_str());
            },
            Node::HorizontalDivider { .. } => {
                self.void_tag("hr");
            },
            Node::Image { target, text, .. } => {
                self.open_tag("figure");
                self.append("<img src=\"");
                self.append(*target);
                self.append("\"/>");
                self.open_tag("figcaption");
                self.render_nodes(text);
                self.close_tag("figcaption");
                self.close_tag("figure");
            },
            Node::Link { target, text, .. } => {
                self.append("<a href=\"/");
                self.append(*target);
                self.append("\">");
                self.render_nodes(text);
                self.append("</a>");
            },
            Node::MagicWord { .. } => {},
            Node::OrderedList { items, .. } => {
                self.open_tag("ol");
                self.render_items(items);
                self.close_tag("ol");
            },
            Node::ParagraphBreak { .. } => {
                self.void_tag("p");
            },
            Node::Parameter { .. } => {},
            Node::Preformatted { nodes, .. } => {
                self.open_tag("pre");
                self.render_nodes(nodes);
                self.close_tag("pre");
            },
            Node::Redirect { target, .. } => {
                self.append("<a href=\"/");
                self.append(*target);
                self.append("\">Redirect</a>");
            },
            Node::Table { attributes, captions, rows, .. } => {
                self.append("<table ");
                self.render_nodes(attributes);
                self.append(">");
                self.append("<thead><tr>");
                self.render_captions(captions);
                self.append("</tr></thead>");
                self.append("<tbody>");
                self.render_rows(rows);
                self.append("</tbody></table>");
            },
            Node::Tag { name, nodes, .. } => {
                self.open_tag(cow_text(name));
                self.render_nodes(nodes);
                self.close_tag(cow_text(name));
            },
            Node::Template { .. } => {},
            Node::Text { value, .. } => {
                self.append(*value);
            },
            Node::UnorderedList { items, .. } => {
                self.open_tag("ul");
                self.render_items(items);
                self.close_tag("ul");
            },
        }
    }
}

/// The four kinds of marker node.
#[derive(Clone, Copy, Debug, PartialEq, Eq, Structural)]
pub enum Marker {
    Bold,
    Italic,
    BoldItalic,
    Comment,
}

/// The switch that a marker flips.
pub open spec fn switch_of(r: Rendered, marker: Marker) -> bool {
    match marker {
        Marker::Bold => r.bold,
        Marker::Italic => r.italic,
        Marker::BoldItalic => r.bold_italic,
        Marker::Comment => r.comment,
    }
}

/// How many markers of the given kind a walk over the node meets: the node
/// itself if it is such a marker, and the markers among everything that is
/// rendered below it. What is not rendered (the arguments of a template
/// invocation or of a parameter reference) does not count.
pub open spec fn node_markers(node: Node, marker: Marker) -> nat
    decreases node,
{
    match node {
        Node::Bold { .. } => if marker is Bold {
            1
        } else {
            0
        },
        Node::BoldItalic { .. } => if marker is BoldItalic {
            1
        } else {
            0
        },
        Node::Italic { .. } => if marker is Italic {
            1
        } else {
            0
        },
        Node::Comment { .. } => if marker is Comment {
            1
        } else {
            0
        },
        Node::DefinitionList { items, .. } => definitions_markers(items@, marker),
        Node::ExternalLink { nodes, .. } => nodes_markers(nodes@, marker),
        Node::Heading { level, nodes, .. } => nodes_markers(nodes@, marker),
        Node::Image { target, text, .. } => nodes_markers(text@, marker),
        Node::Link { target, text, .. } => nodes_markers(text@, marker),
        Node::OrderedList { items, .. } => items_markers(items@, marker),
        Node::Preformatted { nodes, .. } => nodes_markers(nodes@, marker),
        Node::Table { attributes, captions, rows, .. } => nodes_markers(attributes@, marker)
            + captions_markers(captions@, marker) + rows_markers(rows@, marker),
        Node::Tag { name, nodes, .. } => nodes_markers(nodes@, marker),
        Node::UnorderedList { items, .. } => items_markers(items@, marker),
        _ => 0,
    }
}

/// The markers of the given kind that a walk over the nodes meets.
pub open spec fn nodes_markers(nodes: Seq<Node>, marker: Marker) -> nat
    decreases nodes,
{
    if nodes.len() == 0 {
        0
    } else {
        nodes_markers(nodes.drop_last(), marker) + node_markers(nodes.last(), marker)
    }
}

/// The markers among attributes that may be absent.
pub open spec fn optional_markers(nodes: Option<Vec<Node>>, marker: Marker) -> nat
    decreases nodes,
{
    match nodes {
        Some(nodes) => nodes_markers(nodes@, marker),
        None => 0,
    }
}

/// The markers among the nodes of list items.
pub open spec fn items_markers(items: Seq<ListItem>, marker: Marker) -> nat
    decreases items,
{
    if items.len() == 0 {
        0
    } else {
        items_markers(items.drop_last(), marker) + nodes_markers(items.last().nodes@, marker)
    }
}

/// The markers among the nodes of definition-list items.
pub open spec fn definitions_markers(items: Seq<DefinitionListItem>, marker: Marker) -> nat
    decreases items,
{
    if items.len() == 0 {
        0
    } else {
        definitions_markers(items.drop_last(), marker) + nodes_markers(
            items.last().nodes@,
            marker,
        )
    }
}

/// The markers among the attributes and contents of table captions.
pub open spec fn captions_markers(captions: Seq<TableCaption>, marker: Marker) -> nat
    decreases captions,
{
    if captions.len() == 0 {
        0
    } else {
        captions_markers(captions.drop_last(), marker) + optional_markers(
            captions.last().attributes,
            marker,
        ) + nodes_markers(captions.last().content@, marker)
    }
}

/// The markers among the attributes and contents of table cells.
pub open spec fn cells_markers(cells: Seq<TableCell>, marker: Marker) -> nat
    decreases cells,
{
    if cells.len() == 0 {
        0
    } else {
        cells_markers(cells.drop_last(), marker) + optional_markers(
            cells.last().attributes,
            marker,
        ) + nodes_markers(cells.last().content@, marker)
    }
}

/// The markers among the attributes and cells of table rows.
pub open spec fn rows_markers(rows: Seq<TableRow>, marker: Marker) -> nat
    decreases rows,
{
    if rows.len() == 0 {
        0
    } else {
        rows_markers(rows.drop_last(), marker) + nodes_markers(rows.last().attributes@, marker)
            + cells_markers(rows.last().cells@, marker)
    }
}

/// Where a switch stands after `count` of its markers.
pub open spec fn toggled(before: bool, count: nat) -> bool {
    before != (count % 2 == 1)
}

/// Template invocations and parameter references render nothing, whatever
/// their arguments and whatever the state: the text stays as it is and no
/// switch moves.
pub proof fn law_templates_render_nothing(node: Node, r: Rendered)
    requires
        node is Template || node is Parameter,
    ensures
        render_node_spec(node, r) == r,
{
}

/// Whether a node is of a kind below which nothing is rendered.
pub open spec fn is_leaf(node: Node) -> bool {
    !(node is DefinitionList) && !(node is ExternalLink) && !(node is Heading) && !(node is Image)
        && !(node is Link) && !(node is OrderedList) && !(node is Preformatted) && !(node is Table)
        && !(node is Tag) && !(node is UnorderedList)
}

// The toggle law is proved by induction over the tree, one lemma for each
// shape of node and each kind of sequence.

proof fn lemma_leaf_toggles(node: Node, marker: Marker, r: Rendered)
    requires
        is_leaf(node),
    ensures
        switch_of(render_node_spec(node, r), marker) == toggled(
            switch_of(r, marker),
            node_markers(node, marker),
        ),
{
}

proof fn lemma_wrapper_toggles(node: Node, marker: Marker, r: Rendered)
    requires
        node is ExternalLink || node is Heading || node is Image || node is Link
            || node is Preformatted || node is Tag,
    ensures
        switch_of(render_node_spec(node, r), marker) == toggled(
            switch_of(r, marker),
            node_markers(node, marker),
        ),
    decreases node, 0nat,
{
    match node {
        Node::ExternalLink { nodes, .. } => {
            law_markers_toggle(nodes@, marker, r.emit("<a href=\"#\">"@));
        },
        Node::Heading { level, nodes, .. } => {
            law_markers_toggle(nodes@, marker, r.emit(open_tag_spec(heading_tag(level))));
        },
        Node::Image { target, text, .. } => {
            law_markers_toggle(
                text@,
                marker,
                r.emit(open_tag_spec("figure"@)).emit("<img src=\""@).emit(target@).emit(
                    "\"/>"@,
                ).emit(open_tag_spec("figcaption"@)),
            );
        },
        Node::Link { target, text, .. } => {
            law_markers_toggle(text@, marker, r.emit("<a href=\"/"@).emit(target@).emit("\">"@));
        },
        Node::Preformatted { nodes, .. } => {
            law_markers_toggle(nodes@, marker, r.emit(open_tag_spec("pre"@)));
        },
        Node::Tag { name, nodes, .. } => {
            law_markers_toggle(nodes@, marker, r.emit(open_tag_spec(name@)));
        },
        _ => {},
    }
}

proof fn lemma_list_toggles(node: Node, marker: Marker, r: Rendered)
    requires
        node is DefinitionList || node is OrderedList || node is UnorderedList,
    ensures
        switch_of(render_node_spec(node, r), marker) == toggled(
            switch_of(r, marker),
            node_markers(node, marker),
        ),
    decreases node, 0nat,
{
    match node {
        Node::DefinitionList { items, .. } => {
            lemma_definitions_toggle(items@, marker, r.emit(open_tag_spec("dl"@)));
        },
        Node::OrderedList { items, .. } => {
            lemma_items_toggle(items@, marker, r.emit(open_tag_spec("ol"@)));
        },
        Node::UnorderedList { items, .. } => {
            lemma_items_toggle(items@, marker, r.emit(open_tag_spec("ul"@)));
        },
        _ => {},
    }
}

proof fn lemma_table_toggles(node: Node, marker: Marker, r: Rendered)
    requires
        node is Table,
    ensures
        switch_of(render_node_spec(node, r), marker) == toggled(
            switch_of(r, marker),
            node_markers(node, marker),
        ),
    decreases node, 0nat,
{
    match node {
        Node::Table { attributes, captions, rows, .. } => {
            let start = r.emit("<table "@);
            law_markers_toggle(attributes@, marker, start);
            let head = render_nodes_spec(attributes@, start).emit(">"@).emit("<thead><tr>"@);
            lemma_captions_toggle(captions@, marker, head);
            let body = render_captions_spec(captions@, head).emit("</tr></thead>"@).emit(
                "<tbody>"@,
            );
            lemma_rows_toggle(rows@, marker, body);
        },
        _ => {},
    }
}

/// Every switch ends where its markers leave it: after a walk over a node,
/// a switch has flipped once for each of its markers that the walk met.
pub proof fn law_node_toggles(node: Node, marker: Marker, r: Rendered)
    ensures
        switch_of(render_node_spec(node, r), marker) == toggled(
            switch_of(r, marker),
            node_markers(node, marker),
        ),
    decreases node, 1nat,
{
    if is_leaf(node) {
        lemma_leaf_toggles(node, marker, r);
    } else if node is Table {
        lemma_table_toggles(node, marker, r);
    } else if node is DefinitionList || node is OrderedList || node is UnorderedList {
        lemma_list_toggles(node, marker, r);
    } else {
        lemma_wrapper_toggles(node, marker, r);
    }
}

/// After a walk over a document, each switch has flipped once for each of
/// its markers, wherever in the tree they stand. A document that holds an
/// even number of each kind of marker therefore ends with every switch
/// where it began: off, for a walk from the start state.
pub proof fn law_markers_toggle(nodes: Seq<Node>, marker: Marker, r: Rendered)
    ensures
        switch_of(render_nodes_spec(nodes, r), marker) == toggled(
            switch_of(r, marker),
            nodes_markers(nodes, marker),
        ),
    decreases nodes, 0nat,
{
    if nodes.len() > 0 {
        law_markers_toggle(nodes.drop_last(), marker, r);
        law_node_toggles(nodes.last(), marker, render_nodes_spec(nodes.drop_last(), r));
    }
}

proof fn lemma_optional_toggles(nodes: Option<Vec<Node>>, marker: Marker, r: Rendered)
    ensures
        switch_of(render_optional_spec(nodes, r), marker) == toggled(
            switch_of(r, marker),
            optional_markers(nodes, marker),
        ),
    decreases nodes, 0nat,
{
    match nodes {
        Some(nodes) => {
            law_markers_toggle(nodes@, marker, r);
        },
        None => {},
    }
}

proof fn lemma_items_toggle(items: Seq<ListItem>, marker: Marker, r: Rendered)
    ensures
        switch_of(render_items_spec(items, r), marker) == toggled(
            switch_of(r, marker),
            items_markers(items, marker),
        ),
    decreases items, 0nat,
{
    if items.len() > 0 {
        lemma_items_toggle(items.drop_last(), marker, r);
        law_markers_toggle(
            items.last().nodes@,
            marker,
            render_items_spec(items.drop_last(), r).emit(open_tag_spec("li"@)),
        );
    }
}

proof fn lemma_definitions_toggle(items: Seq<DefinitionListItem>, marker: Marker, r: Rendered)
    ensures
        switch_of(render_definitions_spec(items, r), marker) == toggled(
            switch_of(r, marker),
            definitions_markers(items, marker),
        ),
    decreases items, 0nat,
{
    if items.len() > 0 {
        lemma_definitions_toggle(items.drop_last(), marker, r);
        law_markers_toggle(
            items.last().nodes@,
            marker,
            render_definitions_spec(items.drop_last(), r),
        );
    }
}

proof fn lemma_captions_toggle(captions: Seq<TableCaption>, marker: Marker, r: Rendered)
    ensures
        switch_of(render_captions_spec(captions, r), marker) == toggled(
            switch_of(r, marker),
            captions_markers(captions, marker),
        ),
    decreases captions, 0nat,
{
    if captions.len() > 0 {
        lemma_captions_toggle(captions.drop_last(), marker, r);
        let before = render_captions_spec(captions.drop_last(), r).emit("<th "@);
        lemma_optional_toggles(captions.last().attributes, marker, before);
        let opened = render_optional_spec(captions.last().attributes, before).emit(">"@);
        law_markers_toggle(captions.last().content@, marker, opened);
    }
}

proof fn lemma_cells_toggle(cells: Seq<TableCell>, marker: Marker, r: Rendered)
    ensures
        switch_of(render_cells_spec(cells, r), marker) == toggled(
            switch_of(r, marker),
            cells_markers(cells, marker),
        ),
    decreases cells, 0nat,
{
    if cells.len() > 0 {
        lemma_cells_toggle(cells.drop_last(), marker, r);
        let before = render_cells_spec(cells.drop_last(), r).emit("<td "@);
        lemma_optional_toggles(cells.last().attributes, marker, before);
        let opened = render_optional_spec(cells.last().attributes, before).emit(">"@);
        law_markers_toggle(cells.last().content@, marker, opened);
    }
}

proof fn lemma_rows_toggle(rows: Seq<TableRow>, marker: Marker, r: Rendered)
    ensures
        switch_of(render_rows_spec(rows, r), marker) == toggled(
            switch_of(r, marker),
            rows_markers(rows, marker),
        ),
    decreases rows, 0nat,
{
    if rows.len() > 0 {
        lemma_rows_toggle(rows.drop_last(), marker, r);
        let before = render_rows_spec(rows.drop_last(), r).emit("<tr "@);
        law_markers_toggle(rows.last().attributes@, marker, before);
        let opened = render_nodes_spec(rows.last().attributes@, before).emit(">"@);
        lemma_cells_toggle(rows.last().cells@, marker, opened);
    }
}

/// A walk from the start state over a document that holds an even number
/// of each kind of marker ends with every switch off.
pub proof fn law_balanced_document_ends_closed(nodes: Seq<Node>)
    requires
        nodes_markers(nodes, Marker::Bold) % 2 == 0,
        nodes_markers(nodes, Marker::Italic) % 2 == 0,
        nodes_markers(nodes, Marker::BoldItalic) % 2 == 0,
        nodes_markers(nodes, Marker::Comment) % 2 == 0,
    ensures
        render_nodes_spec(nodes, Rendered::start()).closed(),
{
    law_markers_toggle(nodes, Marker::Bold, Rendered::start());
    law_markers_toggle(nodes, Marker::Italic, Rendered::start());
    law_markers_toggle(nodes, Marker::BoldItalic, Rendered::start());
    law_markers_toggle(nodes, Marker::Comment, Rendered::start());
}

/// The text of a text node.
pub open spec fn text_value(node: Node) -> Seq<char> {
    match node {
        Node::Text { value, .. } => value@,
        _ => Seq::empty(),
    }
}

/// Text between two bold markers, rendered from a state whose bold switch
/// is off, comes out inside exactly one `<strong>` element, and the switch
/// is off again afterwards.
pub proof fn law_bold_pair_wraps_text(nodes: Seq<Node>, r: Rendered)
    requires
        !r.bold,
        nodes.len() == 3,
        nodes[0] is Bold,
        nodes[1] is Text,
        nodes[2] is Bold,
    ensures
        render_nodes_spec(nodes, r) == r.emit(open_tag_spec("strong"@)).emit(
            text_value(nodes[1]),
        ).emit(close_tag_spec("strong"@)),
{
    let two = nodes.drop_last();
    let one = two.drop_last();
    assert(one.drop_last() =~= Seq::<Node>::empty());
    assert(render_nodes_spec(one.drop_last(), r) == r);
    assert(one.last() == nodes[0]);
    let opened = render_node_spec(nodes[0], r);
    assert(render_nodes_spec(one, r) == opened);
    assert(opened == Rendered { bold: true, ..r.emit(open_tag_spec("strong"@)) });
    assert(two.last() == nodes[1]);
    let filled = render_node_spec(nodes[1], opened);
    assert(render_nodes_spec(two, r) == filled);
    assert(filled == opened.emit(text_value(nodes[1])));
    assert(nodes.last() == nodes[2]);
    let closed = render_node_spec(nodes[2], filled);
    assert(render_nodes_spec(nodes, r) == closed);
    assert(closed == Rendered { bold: false, ..filled.emit(close_tag_spec("strong"@)) });
}

/// The state `r` as it would be had `prefix` been emitted before
/// everything else.
pub open spec fn rebased(r: Rendered, prefix: Seq<char>) -> Rendered {
    Rendered { html: prefix + r.html, ..r }
}

/// Emitting and putting text in front can be done in either order.
pub broadcast proof fn lemma_emit_rebased(r: Rendered, prefix: Seq<char>, s: Seq<char>)
    ensures
        #[trigger] rebased(r, prefix).emit(s) == rebased(r.emit(s), prefix),
{
    assert((prefix + r.html) + s =~= prefix + (r.html + s));
}

// That rendering only appends is proved by induction over the tree, one
// lemma for each shape of node and each kind of sequence.

proof fn lemma_leaf_appends(node: Node, r: Rendered, prefix: Seq<char>)
    requires
        is_leaf(node),
    ensures
        render_node_spec(node, rebased(r, prefix)) == rebased(render_node_spec(node, r), prefix),
{
    broadcast use lemma_emit_rebased;

}

proof fn lemma_wrapper_appends(node: Node, r: Rendered, prefix: Seq<char>)
    requires
        node is ExternalLink || node is Heading || node is Image || node is Link
            || node is Preformatted || node is Tag,
    ensures
        render_node_spec(node, rebased(r, prefix)) == rebased(render_node_spec(node, r), prefix),
    decreases node, 0nat,
{
    broadcast use lemma_emit_rebased;

    match node {
        Node::ExternalLink { nodes, .. } => {
            law_rendering_appends(nodes@, r.emit("<a href=\"#\">"@), prefix);
        },
        Node::Heading { level, nodes, .. } => {
            law_rendering_appends(nodes@, r.emit(open_tag_spec(heading_tag(level))), prefix);
        },
        Node::Image { target, text, .. } => {
            law_rendering_appends(
                text@,
                r.emit(open_tag_spec("figure"@)).emit("<img src=\""@).emit(target@).emit(
                    "\"/>"@,
                ).emit(open_tag_spec("figcaption"@)),
                prefix,
            );
        },
        Node::Link { target, text, .. } => {
            law_rendering_appends(
                text@,
                r.emit("<a href=\"/"@).emit(target@).emit("\">"@),
                prefix,
            );
        },
        Node::Preformatted { nodes, .. } => {
            law_rendering_appends(nodes@, r.emit(open_tag_spec("pre"@)), prefix);
        },
        Node::Tag { name, nodes, .. } => {
            law_rendering_appends(nodes@, r.emit(open_tag_spec(name@)), prefix);
        },
        _ => {},
    }
}

proof fn lemma_list_appends(node: Node, r: Rendered, prefix: Seq<char>)
    requires
        node is DefinitionList || node is OrderedList || node is UnorderedList,
    ensures
        render_node_spec(node, rebased(r, prefix)) == rebased(render_node_spec(node, r), prefix),
    decreases node, 0nat,
{
    broadcast use lemma_emit_rebased;

    match node {
        Node::DefinitionList { items, .. } => {
            lemma_definitions_append(items@, r.emit(open_tag_spec("dl"@)), prefix);
        },
        Node::OrderedList { items, .. } => {
            lemma_items_append(items@, r.emit(open_tag_spec("ol"@)), prefix);
        },
        Node::UnorderedList { items, .. } => {
            lemma_items_append(items@, r.emit(open_tag_spec("ul"@)), prefix);
        },
        _ => {},
    }
}

proof fn lemma_table_appends(node: Node, r: Rendered, prefix: Seq<char>)
    requires
        node is Table,
    ensures
        render_node_spec(node, rebased(r, prefix)) == rebased(render_node_spec(node, r), prefix),
    decreases node, 0nat,
{
    broadcast use lemma_emit_rebased;

    match node {
        Node::Table { attributes, captions, rows, .. } => {
            let start = r.emit("<table "@);
            law_rendering_appends(attributes@, start, prefix);
            let head = render_nodes_spec(attributes@, start).emit(">"@).emit("<thead><tr>"@);
            lemma_captions_append(captions@, head, prefix);
            let body = render_captions_spec(captions@, head).emit("</tr></thead>"@).emit(
                "<tbody>"@,
            );
            lemma_rows_append(rows@, body, prefix);
        },
        _ => {},
    }
}

proof fn lemma_node_appends(node: Node, r: Rendered, prefix: Seq<char>)
    ensures
        render_node_spec(node, rebased(r, prefix)) == rebased(render_node_spec(node, r), prefix),
    decreases node, 1nat,
{
    if is_leaf(node) {
        lemma_leaf_appends(node, r, prefix);
    } else if node is Table {
        lemma_table_appends(node, r, prefix);
    } else if node is DefinitionList || node is OrderedList || node is UnorderedList {
        lemma_list_appends(node, r, prefix);
    } else {
        lemma_wrapper_appends(node, r, prefix);
    }
}

/// Rendering only appends, and what it appends does not depend on what was
/// emitted before: a walk from a state with more text in front yields the
/// same result with that text in front. What a document adds is thus a
/// function of the document and the four switches alone, and a walk from
/// the start state a function of the document alone.
pub proof fn law_rendering_appends(nodes: Seq<Node>, r: Rendered, prefix: Seq<char>)
    ensures
        render_nodes_spec(nodes, rebased(r, prefix)) == rebased(
            render_nodes_spec(nodes, r),
            prefix,
        ),
    decreases nodes, 0nat,
{
    if nodes.len() > 0 {
        law_rendering_appends(nodes.drop_last(), r, prefix);
        lemma_node_appends(nodes.last(), render_nodes_spec(nodes.drop_last(), r), prefix);
    }
}

proof fn lemma_optional_appends(nodes: Option<Vec<Node>>, r: Rendered, prefix: Seq<char>)
    ensures
        render_optional_spec(nodes, rebased(r, prefix)) == rebased(
            render_optional_spec(nodes, r),
            prefix,
        ),
    decreases nodes, 0nat,
{
    match nodes {
        Some(nodes) => {
            law_rendering_appends(nodes@, r, prefix);
        },
        None => {},
    }
}

proof fn lemma_items_append(items: Seq<ListItem>, r: Rendered, prefix: Seq<char>)
    ensures
        render_items_spec(items, rebased(r, prefix)) == rebased(
            render_items_spec(items, r),
            prefix,
        ),
    decreases items, 0nat,
{
    broadcast use lemma_emit_rebased;

    if items.len() > 0 {
        lemma_items_append(items.drop_last(), r, prefix);
        law_rendering_appends(
            items.last().nodes@,
            render_items_spec(items.drop_last(), r).emit(open_tag_spec("li"@)),
            prefix,
        );
    }
}

proof fn lemma_definitions_append(items: Seq<DefinitionListItem>, r: Rendered, prefix: Seq<char>)
    ensures
        render_definitions_spec(items, rebased(r, prefix)) == rebased(
            render_definitions_spec(items, r),
            prefix,
        ),
    decreases items, 0nat,
{
    if items.len() > 0 {
        lemma_definitions_append(items.drop_last(), r, prefix);
        law_rendering_appends(
            items.last().nodes@,
            render_definitions_spec(items.drop_last(), r),
            prefix,
        );
    }
}

proof fn lemma_captions_append(captions: Seq<TableCaption>, r: Rendered, prefix: Seq<char>)
    ensures
        render_captions_spec(captions, rebased(r, prefix)) == rebased(
            render_captions_spec(captions, r),
            prefix,
        ),
    decreases captions, 0nat,
{
    broadcast use lemma_emit_rebased;

    if captions.len() > 0 {
        lemma_captions_append(captions.drop_last(), r, prefix);
        let before = render_captions_spec(captions.drop_last(), r).emit("<th "@);
        lemma_optional_appends(captions.last().attributes, before, prefix);
        let opened = render_optional_spec(captions.last().attributes, before).emit(">"@);
        law_rendering_appends(captions.last().content@, opened, prefix);
    }
}

proof fn lemma_cells_append(cells: Seq<TableCell>, r: Rendered, prefix: Seq<char>)
    ensures
        render_cells_spec(cells, rebased(r, prefix)) == rebased(
            render_cells_spec(cells, r),
            prefix,
        ),
    decreases cells, 0nat,
{
    broadcast use lemma_emit_rebased;

    if cells.len() > 0 {
        lemma_cells_append(cells.drop_last(), r, prefix);
        let before = render_cells_spec(cells.drop_last(), r).emit("<td "@);
        lemma_optional_appends(cells.last().attributes, before, prefix);
        let opened = render_optional_spec(cells.last().attributes, before).emit(">"@);
        law_rendering_appends(cells.last().content@, opened, prefix);
    }
}

proof fn lemma_rows_append(rows: Seq<TableRow>, r: Rendered, prefix: Seq<char>)
    ensures
        render_rows_spec(rows, rebased(r, prefix)) == rebased(render_rows_spec(rows, r), prefix),
    decreases rows, 0nat,
{
    broadcast use lemma_emit_rebased;

    if rows.len() > 0 {
        lemma_rows_append(rows.drop_last(), r, prefix);
        let before = render_rows_spec(rows.drop_last(), r).emit("<tr "@);
        law_rendering_appends(rows.last().attributes@, before, prefix);
        let opened = render_nodes_spec(rows.last().attributes@, before).emit(">"@);
        lemma_cells_append(rows.last().cells@, opened, prefix);
    }
}

/// Two walks over the same document from states whose switches agree add
/// the same text and leave the same switches, whatever each had emitted
/// before.
pub proof fn law_rendering_is_a_function_of_document_and_switches(
    nodes: Seq<Node>,
    first: Rendered,
    second: Rendered,
)
    requires
        first.bold == second.bold,
        first.italic == second.italic,
        first.bold_italic == second.bold_italic,
        first.comment == second.comment,
    ensures
        ({
            let bare = Rendered { html: Seq::empty(), ..first };
            let added = render_nodes_spec(nodes, bare);
            &&& render_nodes_spec(nodes, first) == rebased(added, first.html)
            &&& render_nodes_spec(nodes, second) == rebased(added, second.html)
        }),
{
    let bare = Rendered { html: Seq::empty(), ..first };
    assert(first.html + bare.html =~= first.html);
    assert(second.html + bare.html =~= second.html);
    assert(rebased(bare, first.html) == first);
    assert(rebased(bare, second.html) == second);
    law_rendering_appends(nodes, bare, first.html);
    law_rendering_appends(nodes, bare, second.html);
}

/// A page shell with `title` and `body` filled in.
pub open spec fn article_page(shell: Seq<char>, title: Seq<char>, body: Seq<char>) -> Seq<char> {
    substituted(shell, Map::empty().insert("title"@, title).insert("body"@, body))
}

/// The page of an article: its body is parsed and rendered to HTML, which
/// is spliced into the page shell together with the title.
pub fn render_article(shell: &str, article: &Article) -> (r: String)
    ensures
        r@ == article_page(shell@, article.title@, document_html(parsed_markup(article.body@))),
{
    let mut renderer = ArticleRenderer::new();
    renderer.render_article_body(article);
    let mut variables: StringHashMap<&str> = StringHashMap::new();
    variables.insert("title".to_owned(), article.title.as_str());
    variables.insert("body".to_owned(), renderer.html.as_str());
    assert(values(variables@) =~= Map::empty().insert("title"@, article.title@).insert(
        "body"@,
        document_html(parsed_markup(article.body@)),
    ));
    render_template(shell, &variables)
}

} // verus!
