use wiki_rs::article::{Article, Timestamp};
use wiki_rs::index::Index;
use wiki_rs::pages::{render_article_page, render_results_page};
use wiki_rs::resource::ResourceManager;

fn resources() -> ResourceManager {
    let mut resources = ResourceManager::new();
    resources.register("article.html", b"<h1>{{title}}</h1>{{body}}");
    resources.register("search.html", b"<h1>{{ Query }}</h1><ul>{{results}}</ul>");
    resources
}

#[test]
fn article_page_fills_the_shell() {
    let article = Article {
        id: 9,
        title: "Albedo".to_string(),
        last_changed_at: Timestamp { seconds: 0, nanos: 0 },
        last_changed_by: "someone".to_string(),
        body: "''light''".to_string(),
    };
    assert_eq!(
        render_article_page(&resources(), &article),
        "<h1>Albedo</h1><em>light</em>"
    );
}

#[test]
fn results_page_lists_the_titles() {
    let index = Index::load("1:1:Alabama\n2:2:Albedo\n3:3:Berlin\n");
    let hits = index.find_article("al");
    assert_eq!(
        render_results_page(&resources(), "al", &hits),
        "<h1>al</h1><ul><li>Albedo</li><li>Alabama</li></ul>"
    );
    assert_eq!(
        render_results_page(&resources(), "zz", &index.find_article("zz")),
        "<h1>zz</h1><ul></ul>"
    );
}
