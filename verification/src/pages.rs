//! The two pages the reader serves: an article, and the results of a search.
//! Both are page shells from the resource table with placeholders filled in.

use vstd::prelude::*;
use vstd::string::*;
use vstd::utf8::{decode_utf8, valid_utf8};
use crate::article::Article;
use crate::index::IndexEntry;
use crate::markup::parsed_markup;
use crate::render::{article_page, document_html, render_article};
use crate::resource::ResourceManager;
use vstd::hash_map::StringHashMap;
use crate::template::{render_template, substituted, values};

verus! {

/// Whether the table holds a text that can serve as the shell `name`.
pub open spec fn has_shell(resources: &ResourceManager, name: Seq<char>) -> bool {
    resources@.contains_key(name) && valid_utf8(resources@[name].bytes())
}

/// The text of the shell `name`.
pub open spec fn shell_text(resources: &ResourceManager, name: Seq<char>) -> Seq<char>
    recommends
        has_shell(resources, name),
{
    decode_utf8(resources@[name].bytes())
}

/// The titles as list items, one `<li>` element each, in order.
pub open spec fn result_items(titles: Seq<Seq<char>>) -> Seq<char>
    decreases titles.len(),
{
    if titles.len() == 0 {
        Seq::empty()
    } else {
        result_items(titles.drop_last()) + "<li>"@ + titles.last() + "</li>"@
    }
}

/// The titles of the entries.
pub open spec fn titles_of(entries: Seq<&IndexEntry>) -> Seq<Seq<char>> {
    entries.map_values(|e: &IndexEntry| e.page_name@)
}

/// The shell `name` as text.
fn find_shell(resources: &ResourceManager, name: &str) -> (r: String)
    requires
        has_shell(resources, name@),
    ensures
        r@ == shell_text(resources, name@),
{
    match resources.find_resource(name) {
        Some(file) => file.to_string(),
        None => {
            proof {
                assert(false);
            }
            String::new()
        },
    }
}

/// The article page: the shell `article.html` with `title` and `body`
/// filled in. The shell must be registered, as text.
pub fn render_article_page(resources: &ResourceManager, article: &Article) -> (r: String)
    requires
        has_shell(resources, "article.html"@),
    ensures
        r@ == article_page(
            shell_text(resources, "article.html"@),
            article.title@,
            document_html(parsed_markup(article.body@)),
        ),
{
    let shell = find_shell(resources, "article.html");
    render_article(shell.as_str(), article)
}

/// The results page: the shell `search.html` with `query` filled in, and
/// `results` filled with one list item per entry. The shell must be
/// registered, as text.
pub fn render_results_page(
    resources: &ResourceManager,
    query: &str,
    index_entries: &Vec<&IndexEntry>,
) -> (r: String)
    requires
        has_shell(resources, "search.html"@),
    ensures
        r@ == substituted(
            shell_text(resources, "search.html"@),
            Map::empty().insert("query"@, query@).insert(
                "results"@,
                result_items(titles_of(index_entries@)),
            ),
        ),
{
    let shell = find_shell(resources, "search.html");
    let mut items = String::new();
    let n = index_entries.len();
    let mut i: usize = 0;
    while i < n
        invariant
            n == index_entries@.len(),
            i <= n,
            items@ == result_items(titles_of(index_entries@).take(i as int)),
        decreases n - i,
    {
        let ghost titles = titles_of(index_entries@);
        assert(titles.take(i + 1).drop_last() =~= titles.take(i as int));
        assert(titles.take(i + 1).last() == index_entries@[i as int].page_name@);
        items.append("<li>");
        items.append(index_entries[i].page_name.as_str());
        items.append("</li>");
        i += 1;
    }
    assert(titles_of(index_entries@).take(n as int) =~= titles_of(index_entries@));
    let mut variables: StringHashMap<&str> = StringHashMap::new();
    variables.insert("query".to_owned(), query);
    variables.insert("results".to_owned(), items.as_str());
    assert(values(variables@) =~= Map::empty().insert("query"@, query@).insert(
        "results"@,
        result_items(titles_of(index_entries@)),
    ));
    render_template(shell.as_str(), &variables)
}

} // verus!
