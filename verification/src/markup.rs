//! The markup syntax tree and the parser that produces it.
//!
//! The tree is the markup parser's own. Its types are declared here as they
//! are defined, with nothing claimed of them, so that the renderer can match
//! on them. The tree is a forest of nodes in document order. Inline
//! formatting is carried by marker nodes (`Bold`, `Italic`, `BoldItalic`,
//! `Comment`) that are not paired by the parser: whether a marker opens or
//! closes is decided by how many of its kind came before it.

use vstd::prelude::*;

verus! {

/// `parse_wiki_text::Node`: a node of the tree.
#[verifier::external_type_specification]
pub struct ExNode<'a>(parse_wiki_text::Node<'a>);

/// `parse_wiki_text::ListItem`: an item of an ordered or unordered list.
#[verifier::external_type_specification]
pub struct ExListItem<'a>(parse_wiki_text::ListItem<'a>);

/// `parse_wiki_text::DefinitionListItem`: an item of a definition list.
#[verifier::external_type_specification]
pub struct ExDefinitionListItem<'a>(parse_wiki_text::DefinitionListItem<'a>);

/// `parse_wiki_text::DefinitionListItemType`: term or details.
#[verifier::external_type_specification]
pub struct ExDefinitionListItemType(parse_wiki_text::DefinitionListItemType);

/// `parse_wiki_text::TableCaption`: a caption of a table.
#[verifier::external_type_specification]
pub struct ExTableCaption<'a>(parse_wiki_text::TableCaption<'a>);

/// `parse_wiki_text::TableCell`: a cell of a table row.
#[verifier::external_type_specification]
pub struct ExTableCell<'a>(parse_wiki_text::TableCell<'a>);

/// `parse_wiki_text::TableCellType`: heading or ordinary.
#[verifier::external_type_specification]
pub struct ExTableCellType(parse_wiki_text::TableCellType);

/// `parse_wiki_text::TableRow`: a row of a table.
#[verifier::external_type_specification]
pub struct ExTableRow<'a>(parse_wiki_text::TableRow<'a>);

/// `parse_wiki_text::Parameter`: an argument of a template invocation.
#[verifier::external_type_specification]
pub struct ExParameter<'a>(parse_wiki_text::Parameter<'a>);

/// The nodes that a text parses to under the parser's default
/// configuration.
pub uninterp spec fn parsed_markup(text: Seq<char>) -> Seq<parse_wiki_text::Node<'static>>;

/// Calls `parse_wiki_text::Configuration::default`, then `parse` on the
/// result, and hands out the nodes of the output. Trusted: the nodes are a
/// function of the text alone.
#[verifier::external_body]
pub(crate) fn parse_markup<'a>(text: &'a str) -> (r: Vec<parse_wiki_text::Node<'a>>)
    ensures
        r@ == parsed_markup(text@),
{
    parse_wiki_text::Configuration::default().parse(text).nodes
}

} // verus!
