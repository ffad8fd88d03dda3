use wiki_rs::resource::{MimeType, ResourceFile, ResourceManager};

#[test]
fn extensions_map_to_types() {
    assert_eq!(MimeType::from_extension(".txt"), MimeType::Text);
    assert_eq!(MimeType::from_extension(".html"), MimeType::Html);
    assert_eq!(MimeType::from_extension(".js"), MimeType::Js);
    assert_eq!(MimeType::from_extension(".jpg"), MimeType::Jpg);
    assert_eq!(MimeType::from_extension(".jpeg"), MimeType::Jpg);
    assert_eq!(MimeType::from_extension(".png"), MimeType::Png);
    assert_eq!(MimeType::from_extension(".css"), MimeType::Css);
    assert_eq!(MimeType::from_extension(".bin"), MimeType::OctetStream);
    assert_eq!(MimeType::from_extension("txt"), MimeType::OctetStream);
    assert_eq!(MimeType::from_extension(".TXT"), MimeType::OctetStream);
}

#[test]
fn types_have_names() {
    assert_eq!(MimeType::Text.to_string(), "text/plain");
    assert_eq!(MimeType::Html.to_string(), "text/html");
    assert_eq!(MimeType::Css.to_string(), "text/css");
    assert_eq!(MimeType::Js.to_string(), "application/javascript");
    assert_eq!(MimeType::Png.to_string(), "image/png");
    assert_eq!(MimeType::Jpg.to_string(), "image/jpg");
    assert_eq!(MimeType::OctetStream.to_string(), "application/octet-stream");
}

#[test]
fn binary_types_are_the_images_and_the_fallback() {
    assert!(!MimeType::Text.is_binary());
    assert!(!MimeType::Html.is_binary());
    assert!(!MimeType::Css.is_binary());
    assert!(!MimeType::Js.is_binary());
    assert!(MimeType::Png.is_binary());
    assert!(MimeType::Jpg.is_binary());
    assert!(MimeType::OctetStream.is_binary());
}

#[test]
fn mime_is_inferred_from_the_last_dot() {
    assert_eq!(ResourceManager::infer_mime("styles.css"), MimeType::Css);
    assert_eq!(ResourceManager::infer_mime("a.b.html"), MimeType::Html);
    assert_eq!(ResourceManager::infer_mime("archive.tar.gz"), MimeType::OctetStream);
    assert_eq!(ResourceManager::infer_mime("README"), MimeType::OctetStream);
    assert_eq!(ResourceManager::infer_mime(".png"), MimeType::Png);
    assert_eq!(ResourceManager::infer_mime("photo."), MimeType::OctetStream);
    assert_eq!(ResourceManager::infer_mime(""), MimeType::OctetStream);
}

#[test]
fn text_resources_round_trip() {
    let file = ResourceFile::new(MimeType::Html, "<p>héllo</p>".as_bytes().to_vec());
    assert_eq!(file.mime_type, "text/html");
    assert_eq!(file.to_string(), "<p>héllo</p>");
    assert_eq!(file.to_binary(), "<p>héllo</p>".as_bytes().to_vec());
}

#[test]
fn binary_resources_round_trip() {
    let file = ResourceFile::new(MimeType::Png, vec![0x89, 0x50, 0x4e, 0x47, 0xff]);
    assert_eq!(file.mime_type, "image/png");
    assert_eq!(file.to_binary(), vec![0x89, 0x50, 0x4e, 0x47, 0xff]);
    let text = ResourceFile::new(MimeType::OctetStream, b"plain".to_vec());
    assert_eq!(text.to_string(), "plain");
}

#[test]
fn registered_resources_are_found() {
    let mut resources = ResourceManager::new();
    assert!(resources.find_resource("styles.css").is_none());
    resources.register("styles.css", b"body {}");
    resources.register("logo.png", &[1, 2, 3]);
    let css = resources.find_resource("styles.css").unwrap();
    assert_eq!(css.mime_type, "text/css");
    assert_eq!(css.to_string(), "body {}");
    let logo = resources.find_resource("logo.png").unwrap();
    assert_eq!(logo.mime_type, "image/png");
    assert_eq!(logo.to_binary(), vec![1, 2, 3]);
    assert!(resources.find_resource("Styles.css").is_none());
}

#[test]
fn registering_again_replaces() {
    let mut resources = ResourceManager::new();
    resources.register("a.txt", b"old");
    resources.register("b.txt", b"other");
    resources.register("a.txt", b"new");
    assert_eq!(resources.find_resource("a.txt").unwrap().to_string(), "new");
    assert_eq!(resources.find_resource("b.txt").unwrap().to_string(), "other");
}
