use std::borrow::Cow;

use parse_wiki_text::{
    Configuration, DefinitionListItem, DefinitionListItemType, ListItem, Node, Parameter,
    TableCaption, TableCell, TableCellType, TableRow,
};
use wiki_rs::article::{Article, Timestamp};
use wiki_rs::render::{render_article, ArticleRenderer};

fn article(body: &str) -> Article {
    Article {
        id: 1,
        title: "Rust".to_string(),
        last_changed_at: Timestamp { seconds: 0, nanos: 0 },
        last_changed_by: "someone".to_string(),
        body: body.to_string(),
    }
}

fn render_body(body: &str) -> String {
    let mut renderer = ArticleRenderer::new();
    renderer.render_article_body(&article(body));
    renderer.html
}

fn render(nodes: &Vec<Node>) -> String {
    let mut renderer = ArticleRenderer::new();
    renderer.render_nodes(nodes);
    renderer.html
}

fn text(value: &'static str) -> Node<'static> {
    Node::Text { value, start: 0, end: 0 }
}

fn bold() -> Node<'static> {
    Node::Bold { start: 0, end: 0 }
}

fn italic() -> Node<'static> {
    Node::Italic { start: 0, end: 0 }
}

fn bold_italic() -> Node<'static> {
    Node::BoldItalic { start: 0, end: 0 }
}

fn comment() -> Node<'static> {
    Node::Comment { start: 0, end: 0 }
}

fn item(nodes: Vec<Node<'static>>) -> ListItem<'static> {
    ListItem { nodes, start: 0, end: 0 }
}

fn caption(
    attributes: Option<Vec<Node<'static>>>,
    content: Vec<Node<'static>>,
) -> TableCaption<'static> {
    TableCaption { attributes, content, start: 0, end: 0 }
}

fn cell(attributes: Option<Vec<Node<'static>>>, content: Vec<Node<'static>>) -> TableCell<'static> {
    TableCell { attributes, content, start: 0, end: 0, type_: TableCellType::Ordinary }
}

fn row(attributes: Vec<Node<'static>>, cells: Vec<TableCell<'static>>) -> TableRow<'static> {
    TableRow { attributes, cells, start: 0, end: 0 }
}

fn table(
    attributes: Vec<Node<'static>>,
    captions: Vec<TableCaption<'static>>,
    rows: Vec<TableRow<'static>>,
) -> Node<'static> {
    Node::Table { attributes, captions, rows, start: 0, end: 0 }
}

#[test]
fn bold_markers_toggle() {
    let mut renderer = ArticleRenderer::new();
    renderer.render_article_body(&article("'''bold''' normal '''more'''"));
    assert_eq!(renderer.html, "<strong>bold</strong> normal <strong>more</strong>");
    assert_eq!(renderer.html.matches("<strong>").count(), 2);
    assert_eq!(renderer.html.matches("</strong>").count(), 2);
    assert!(!renderer.is_bold);
    assert!(!renderer.is_italic);
    assert!(!renderer.is_bold_italic);
    assert!(!renderer.is_comment);
}

#[test]
fn unbalanced_marker_leaves_its_switch_on() {
    let nodes = vec![bold(), text("a"), italic(), text("b"), italic()];
    let mut renderer = ArticleRenderer::new();
    renderer.render_nodes(&nodes);
    assert_eq!(renderer.html, "<strong>a<em>b</em>");
    assert!(renderer.is_bold);
    assert!(!renderer.is_italic);
}

#[test]
fn markers_inside_children_flip_the_same_switches() {
    let nodes = vec![
        Node::Heading { level: 3, nodes: vec![bold(), text("a")], start: 0, end: 0 },
        text("b"),
        bold(),
    ];
    let mut renderer = ArticleRenderer::new();
    renderer.render_nodes(&nodes);
    assert_eq!(renderer.html, "<h3><strong>a</h3>b</strong>");
    assert!(!renderer.is_bold);
}

#[test]
fn markers_are_tracked_independently() {
    let nodes = vec![
        bold_italic(),
        text("x"),
        bold(),
        bold_italic(),
        comment(),
        text("hidden"),
        comment(),
        bold(),
    ];
    assert_eq!(render(&nodes), "<strong><em>x<strong></em></strong><!--hidden--></strong>");
}

#[test]
fn rendering_starts_afresh() {
    let mut renderer = ArticleRenderer::new();
    renderer.render_article_body(&article("'''a"));
    assert_eq!(renderer.html, "<strong>a");
    assert!(renderer.is_bold);
    renderer.render_article_body(&article("'''b"));
    assert_eq!(renderer.html, "<strong>b");
    assert!(renderer.is_bold);
}

#[test]
fn table_with_one_caption_and_one_cell() {
    let table = table(
        vec![],
        vec![caption(None, vec![text("H")])],
        vec![row(vec![], vec![cell(None, vec![text("V")])])],
    );
    assert_eq!(
        render(&vec![table]),
        "<table ><thead><tr><th >H</th></tr></thead><tbody><tr ><td >V</td></tr></tbody></table>"
    );
}

#[test]
fn table_attributes_are_rendered_inside_the_tags() {
    let table = table(
        vec![text("class=\"wide\"")],
        vec![caption(Some(vec![text("id=\"c\"")]), vec![text("H")])],
        vec![
            row(
                vec![text("id=\"r\"")],
                vec![
                    cell(Some(vec![text("id=\"d\"")]), vec![text("1")]),
                    cell(None, vec![text("2")]),
                ],
            ),
            row(vec![], vec![]),
        ],
    );
    assert_eq!(
        render(&vec![table]),
        "<table class=\"wide\"><thead><tr><th id=\"c\">H</th></tr></thead><tbody>\
         <tr id=\"r\"><td id=\"d\">1</td><td >2</td></tr><tr ></tr></tbody></table>"
    );
}

#[test]
fn parsed_table_renders_caption_and_cell() {
    assert_eq!(
        render_body("{|\n|+H\n|-\n|V\n|}"),
        "<table ><thead><tr><th >H</th></tr></thead><tbody><tr ><td >V</td></tr></tbody></table>"
    );
}

#[test]
fn templates_and_parameters_render_nothing() {
    let nodes = vec![
        text("a"),
        Node::Template {
            name: vec![text("Infobox")],
            parameters: vec![Parameter {
                name: Some(vec![text("key")]),
                value: vec![bold(), text("value")],
                start: 0,
                end: 0,
            }],
            start: 0,
            end: 0,
        },
        Node::Parameter {
            name: vec![text("p")],
            default: Some(vec![text("d")]),
            start: 0,
            end: 0,
        },
        Node::MagicWord { start: 0, end: 0 },
        text("b"),
    ];
    let mut renderer = ArticleRenderer::new();
    renderer.render_nodes(&nodes);
    assert_eq!(renderer.html, "ab");
    assert!(!renderer.is_bold);
    assert_eq!(render_body("a{{Infobox|key='''value'''}}{{{p|d}}}b"), "ab");
}

#[test]
fn rendering_twice_gives_the_same_text() {
    let body = "== Title ==\n'''a''' ''b'' [[Target|shown]]\n* one\n* two\n";
    let first = render_body(body);
    let second = render_body(body);
    assert_eq!(first, second);
    assert_eq!(first, render(&Configuration::default().parse(body).nodes));
}

#[test]
fn headings_use_their_level() {
    let nodes = vec![
        Node::Heading { level: 2, nodes: vec![text("Two")], start: 0, end: 0 },
        Node::Heading { level: 6, nodes: vec![], start: 0, end: 0 },
        Node::Heading { level: 12, nodes: vec![text("x")], start: 0, end: 0 },
    ];
    assert_eq!(render(&nodes), "<h2>Two</h2><h6></h6><h12>x</h12>");
    assert_eq!(render_body("== Title =="), "<h2>Title</h2>");
}

#[test]
fn lists_wrap_their_items() {
    let items = || vec![item(vec![text("one")]), item(vec![bold(), text("two")])];
    assert_eq!(
        render(&vec![Node::OrderedList { items: items(), start: 0, end: 0 }]),
        "<ol><li>one</li><li><strong>two</li></ol>"
    );
    assert_eq!(
        render(&vec![Node::UnorderedList { items: items(), start: 0, end: 0 }]),
        "<ul><li>one</li><li><strong>two</li></ul>"
    );
    assert_eq!(
        render(&vec![Node::DefinitionList {
            items: vec![
                DefinitionListItem {
                    nodes: vec![text("term")],
                    type_: DefinitionListItemType::Term,
                    start: 0,
                    end: 0,
                },
                DefinitionListItem {
                    nodes: vec![text("details")],
                    type_: DefinitionListItemType::Details,
                    start: 0,
                    end: 0,
                },
            ],
            start: 0,
            end: 0,
        }]),
        "<dl>termdetails</dl>"
    );
}

#[test]
fn links_and_images() {
    let nodes = vec![
        Node::Link { target: "Rust", text: vec![text("the language")], start: 0, end: 0 },
        Node::ExternalLink { nodes: vec![text("site")], start: 0, end: 0 },
        Node::Image { target: "File:a.png", text: vec![text("cap")], start: 0, end: 0 },
        Node::Category {
            target: "Category:Languages",
            ordinal: vec![text("ignored")],
            start: 0,
            end: 0,
        },
        Node::Redirect { target: "Elsewhere", start: 0, end: 0 },
    ];
    assert_eq!(
        render(&nodes),
        "<a href=\"/Rust\">the language</a><a href=\"#\">site</a>\
         <figure><img src=\"File:a.png\"/><figcaption>cap</figcaption></figure>\
         <a class=\"category\" href=\"/Category:Languages\">Category:Languages</a>\
         <a href=\"/Elsewhere\">Redirect</a>"
    );
}

#[test]
fn tags_text_and_breaks() {
    let nodes = vec![
        Node::StartTag { name: Cow::Borrowed("br"), start: 0, end: 0 },
        Node::EndTag { name: Cow::Owned("div".to_string()), start: 0, end: 0 },
        Node::Tag { name: Cow::Borrowed("ref"), nodes: vec![text("note")], start: 0, end: 0 },
        Node::Preformatted { nodes: vec![text(" code")], start: 0, end: 0 },
        Node::CharacterEntity { character: '&', start: 0, end: 0 },
        Node::CharacterEntity { character: 'é', start: 0, end: 0 },
        Node::HorizontalDivider { start: 0, end: 0 },
        Node::ParagraphBreak { start: 0, end: 0 },
        text("plain"),
    ];
    assert_eq!(render(&nodes), "<br></div><ref>note</ref><pre> code</pre>&é<hr/><p/>plain");
}

#[test]
fn empty_document_renders_nothing() {
    assert_eq!(render(&Vec::new()), "");
    assert_eq!(render_body(""), "");
}

#[test]
fn helpers_append_tags() {
    let mut renderer = ArticleRenderer::new();
    renderer.append("a");
    renderer.append_chr('b');
    renderer.open_tag("i");
    renderer.close_tag("i");
    renderer.void_tag("hr");
    renderer.render_node(&text("c"));
    renderer.render_nodes(&vec![text("d"), text("e")]);
    assert_eq!(renderer.html, "ab<i></i><hr/>cde");
}

#[test]
fn article_is_spliced_into_the_shell() {
    let page = render_article(
        "<title>{{title}}</title><body>{{ BODY }}</body>{{other}}",
        &article("''hi''"),
    );
    assert_eq!(page, "<title>Rust</title><body><em>hi</em></body>{{other}}");
}

#[test]
fn parsed_markup_is_rendered() {
    assert_eq!(
        render_body("[[Target|shown]] and [[Plain]]"),
        "<a href=\"/Target\">shown</a> and <a href=\"/Plain\">Plain</a>"
    );
    assert_eq!(render_body("* one\n* two"), "<ul><li>one</li><li>two</li></ul>");
    assert_eq!(render_body("# one\n# two"), "<ol><li>one</li><li>two</li></ol>");
    assert_eq!(render_body("a &amp; b"), "a & b");
    assert_eq!(render_body("----"), "<hr/>");
    assert_eq!(render_body("one\n\ntwo"), "one<p/>two");
    assert_eq!(render_body("'''''both'''''"), "<strong><em>both</em></strong>");
}

#[test]
fn a_comment_is_one_marker() {
    let mut renderer = ArticleRenderer::new();
    renderer.render_article_body(&article("a<!-- hidden -->b"));
    assert_eq!(renderer.html, "a<!--b");
    assert!(renderer.is_comment);
    renderer.render_article_body(&article("a<!-- one -->b<!-- two -->c"));
    assert_eq!(renderer.html, "a<!--b-->c");
    assert!(!renderer.is_comment);
}
