use wiki_rs::route::{parse_url, resolve, ParsedUrl, UrlError};

#[test]
fn article_addresses() {
    match parse_url("local://wiki.rs/article/Rust_(programming_language)") {
        Ok(ParsedUrl::Article(name)) => assert_eq!(name, "Rust_(programming_language)"),
        other => panic!("{:?}", other),
    }
    match parse_url("local://wiki.rs/article/Caf%C3%A9%20au%20lait") {
        Ok(ParsedUrl::Article(name)) => assert_eq!(name, "Café au lait"),
        other => panic!("{:?}", other),
    }
}

#[test]
fn resource_addresses() {
    match parse_url("local://wiki.rs/res/styles.css") {
        Ok(ParsedUrl::Resource(name)) => assert_eq!(name, "styles.css"),
        other => panic!("{:?}", other),
    }
}

#[test]
fn search_addresses() {
    match parse_url("local://wiki.rs/search?q=rust+lang&x=1") {
        Ok(ParsedUrl::Search(query)) => assert_eq!(query, "rust lang"),
        other => panic!("{:?}", other),
    }
    assert_eq!(parse_url("local://wiki.rs/search").err(), Some(UrlError::MissingParameter));
}

#[test]
fn addresses_that_name_nothing() {
    assert_eq!(parse_url("local://wiki.rs/other/x").err(), Some(UrlError::UnknownNamespace));
    assert_eq!(parse_url("local://wiki.rs/article").err(), Some(UrlError::IncompletePath));
    assert_eq!(parse_url("not an address").err(), Some(UrlError::InvalidUrl));
    assert_eq!(parse_url("mailto:someone@example.org").err(), Some(UrlError::InvalidUrl));
    assert_eq!(parse_url("local://wiki.rs/article/%FF").err(), Some(UrlError::InvalidUrl));
}

#[test]
fn resolve_decides_from_segments() {
    let segments = vec!["article".to_string(), "A%2FB".to_string()];
    match resolve(&segments, None) {
        Ok(ParsedUrl::Article(name)) => assert_eq!(name, "A/B"),
        other => panic!("{:?}", other),
    }
    let segments = vec!["search".to_string()];
    match resolve(&segments, Some("q".to_string())) {
        Ok(ParsedUrl::Search(query)) => assert_eq!(query, "q"),
        other => panic!("{:?}", other),
    }
    assert_eq!(resolve(&Vec::new(), None).err(), Some(UrlError::IncompletePath));
    assert_eq!(resolve(&vec!["res".to_string()], None).err(), Some(UrlError::IncompletePath));
    assert_eq!(
        resolve(&vec!["RES".to_string(), "x".to_string()], None).err(),
        Some(UrlError::UnknownNamespace)
    );
}

#[test]
fn url_errors_have_messages() {
    assert_eq!(UrlError::UnknownNamespace.message(), "url namespace not found");
    assert_eq!(UrlError::IncompletePath.message(), "url path is incomplete");
    assert_eq!(UrlError::MissingParameter.message(), "missing query parameter");
    assert_eq!(UrlError::InvalidUrl.message(), "not a url with a path");
}
