use wiki_rs::article::{find_page, Article, ArticleDatabase, ArticleError, Timestamp};
use wiki_rs::index::IndexEntry;

fn block_one() -> Vec<u8> {
    vec![
        66, 90, 104, 57, 49, 65, 89, 38, 83, 89, 133, 130, 249, 160, 0, 0,
        146, 223, 128, 84, 16, 80, 130, 255, 247, 17, 0, 12, 16, 63, 231, 223,
        96, 48, 1, 91, 106, 195, 9, 83, 83, 83, 19, 212, 211, 67, 38, 153,
        54, 166, 209, 0, 52, 63, 84, 104, 37, 4, 41, 234, 0, 61, 67, 212,
        0, 0, 0, 5, 84, 212, 202, 76, 108, 160, 210, 105, 145, 160, 26, 104,
        26, 24, 148, 18, 216, 74, 80, 36, 98, 37, 47, 123, 143, 214, 251, 250,
        112, 179, 110, 222, 246, 52, 49, 184, 79, 53, 104, 74, 99, 51, 234, 17,
        10, 186, 229, 81, 119, 107, 24, 102, 176, 90, 36, 210, 120, 96, 104, 42,
        43, 51, 33, 21, 138, 186, 163, 248, 83, 11, 7, 142, 116, 113, 184, 40,
        30, 83, 111, 33, 43, 175, 164, 236, 149, 18, 2, 14, 16, 104, 32, 209,
        73, 19, 24, 98, 98, 138, 122, 60, 158, 199, 32, 48, 227, 21, 145, 20,
        144, 168, 240, 10, 165, 54, 113, 164, 198, 124, 146, 96, 156, 21, 187, 148,
        42, 19, 209, 171, 193, 204, 132, 210, 3, 52, 47, 226, 197, 100, 167, 210,
        129, 8, 136, 156, 183, 37, 214, 198, 161, 5, 197, 248, 96, 78, 134, 77,
        41, 105, 74, 134, 83, 143, 45, 5, 12, 182, 90, 100, 235, 6, 7, 71,
        100, 206, 163, 17, 26, 51, 179, 166, 122, 243, 197, 117, 230, 185, 44, 102,
        217, 6, 165, 234, 188, 150, 147, 114, 138, 50, 20, 238, 42, 130, 243, 161,
        114, 103, 22, 9, 154, 217, 144, 131, 154, 203, 53, 66, 228, 33, 148, 188,
        169, 69, 26, 138, 170, 100, 65, 190, 7, 241, 119, 36, 83, 133, 9, 8,
        88, 47, 154, 0,
    ]
}

fn block_two() -> Vec<u8> {
    vec![
        66, 90, 104, 57, 49, 65, 89, 38, 83, 89, 17, 143, 59, 23, 0, 0,
        70, 91, 128, 84, 16, 80, 2, 254, 23, 4, 16, 62, 231, 223, 96, 48,
        0, 219, 108, 134, 166, 72, 209, 160, 3, 64, 52, 122, 128, 5, 79, 209,
        2, 0, 26, 104, 0, 26, 1, 40, 68, 158, 9, 168, 201, 166, 152, 128,
        1, 163, 193, 47, 17, 20, 16, 44, 17, 20, 203, 220, 105, 134, 139, 187,
        119, 4, 65, 111, 115, 108, 181, 162, 215, 24, 226, 65, 240, 97, 0, 16,
        215, 107, 105, 174, 42, 237, 251, 7, 53, 175, 11, 67, 1, 32, 28, 46,
        121, 19, 64, 239, 168, 26, 72, 201, 73, 80, 11, 24, 57, 207, 98, 163,
        18, 4, 167, 144, 81, 34, 107, 80, 96, 87, 126, 182, 254, 188, 35, 59,
        149, 67, 86, 8, 24, 152, 22, 238, 42, 149, 71, 144, 62, 150, 142, 37,
        86, 38, 109, 53, 97, 229, 10, 81, 199, 231, 192, 184, 145, 50, 177, 150,
        83, 34, 99, 101, 145, 51, 42, 167, 19, 81, 162, 124, 98, 242, 167, 138,
        83, 53, 101, 88, 146, 38, 61, 248, 24, 80, 209, 67, 224, 252, 93, 201,
        20, 225, 66, 64, 70, 60, 236, 92,
    ]
}

fn block_three() -> Vec<u8> {
    vec![
        66, 90, 104, 57, 49, 65, 89, 38, 83, 89, 200, 59, 233, 134, 0, 0,
        37, 31, 128, 0, 3, 255, 21, 16, 1, 22, 16, 62, 167, 223, 96, 48,
        0, 214, 3, 24, 76, 77, 6, 8, 196, 50, 48, 152, 53, 60, 168, 3,
        77, 0, 0, 0, 4, 138, 52, 84, 253, 38, 83, 212, 193, 30, 80, 192,
        201, 163, 207, 136, 33, 107, 24, 2, 128, 154, 102, 17, 58, 68, 138, 33,
        34, 140, 109, 65, 201, 197, 230, 15, 126, 180, 245, 159, 2, 169, 7, 147,
        162, 113, 4, 245, 32, 133, 86, 160, 145, 66, 106, 76, 40, 82, 171, 78,
        118, 151, 206, 117, 22, 226, 193, 83, 192, 101, 250, 57, 11, 174, 24, 232,
        104, 180, 19, 82, 214, 246, 72, 57, 120, 248, 10, 5, 194, 144, 94, 176,
        93, 104, 23, 34, 35, 100, 64, 44, 108, 48, 97, 205, 176, 184, 97, 228,
        132, 122, 10, 132, 177, 109, 92, 183, 44, 236, 14, 100, 202, 132, 205, 118,
        44, 137, 163, 160, 125, 34, 197, 147, 27, 77, 80, 85, 12, 130, 35, 96,
        178, 50, 96, 248, 63, 98, 238, 72, 167, 10, 18, 25, 7, 125, 48, 192,
    ]
}

fn block_not_xml() -> Vec<u8> {
    vec![
        66, 90, 104, 57, 49, 65, 89, 38, 83, 89, 219, 77, 154, 90, 0, 0,
        0, 9, 128, 0, 5, 50, 173, 212, 0, 32, 0, 34, 152, 0, 104, 64,
        0, 10, 54, 246, 28, 93, 200, 210, 145, 154, 67, 133, 220, 145, 78, 20,
        36, 54, 211, 102, 150, 128,
    ]
}

fn block_not_utf8() -> Vec<u8> {
    vec![
        66, 90, 104, 57, 49, 65, 89, 38, 83, 89, 164, 106, 219, 109, 0, 0,
        4, 25, 128, 128, 0, 128, 5, 34, 128, 64, 0, 0, 1, 160, 0, 49,
        6, 76, 65, 0, 211, 210, 105, 96, 115, 126, 46, 228, 138, 112, 161, 33,
        72, 213, 182, 218,
    ]
}

fn entry(offset: u64, page_id: u64) -> IndexEntry {
    IndexEntry { offset, page_id, page_name: String::new() }
}

fn archive() -> Vec<u8> {
    let mut data = block_one();
    data.extend(block_two());
    data.extend(block_three());
    data
}

fn read_article(data: &[u8], idx: &IndexEntry) -> Result<Article, ArticleError> {
    ArticleDatabase::new(data).get_article(idx)
}

fn document(inner: &str) -> minidom::Element {
    format!("<root xmlns=\"\">{}</root>", inner).parse().unwrap()
}

#[test]
fn second_record_of_a_block_is_returned() {
    let data = block_one();
    let database = ArticleDatabase::new(&data);
    let article = database.get_article(&entry(0, 2)).unwrap();
    assert_eq!(article.id, 2);
    assert_eq!(article.title, "Second");
    assert_eq!(article.body, "'''bold''' normal '''more'''");
    assert_eq!(article.last_changed_by, "bob");
    assert_eq!(article.last_changed_at, Timestamp { seconds: 1623053350, nanos: 0 });
}

#[test]
fn first_record_of_a_block_is_returned() {
    let data = block_one();
    let database = ArticleDatabase::new(&data);
    let article = database.get_article(&entry(0, 1)).unwrap();
    assert_eq!(article.id, 1);
    assert_eq!(article.title, "First");
    assert_eq!(article.body, "Body of the first");
    assert_eq!(article.last_changed_by, "alice");
    assert_eq!(article.last_changed_at, Timestamp { seconds: 1577934245, nanos: 0 });
}

#[test]
fn absent_record_is_not_found() {
    let data = block_one();
    let database = ArticleDatabase::new(&data);
    assert!(matches!(database.get_article(&entry(0, 99)), Err(ArticleError::ArticleNotFound)));
    assert!(matches!(database.get_article(&entry(0, 100)), Err(ArticleError::ArticleNotFound)));
}

#[test]
fn block_is_read_from_its_offset() {
    let data = archive();
    let second = block_one().len() as u64;
    let article = read_article(&data, &entry(second, 3)).unwrap();
    assert_eq!(article.title, "Third");
    assert_eq!(article.body, "third body");
    assert_eq!(article.last_changed_by, "carol");
    assert_eq!(article.last_changed_at.seconds, 1668258855);
    assert!(matches!(read_article(&data, &entry(second, 1)), Err(ArticleError::ArticleNotFound)));
}

#[test]
fn bytes_after_the_block_are_ignored() {
    let data = archive();
    assert_eq!(read_article(&data, &entry(0, 1)).unwrap().title, "First");
    assert!(matches!(read_article(&data, &entry(0, 3)), Err(ArticleError::ArticleNotFound)));
}

#[test]
fn missing_fields_are_named() {
    let data = archive();
    let third = (block_one().len() + block_two().len()) as u64;
    match read_article(&data, &entry(third, 4)) {
        Err(ArticleError::MissingProperty(name)) => assert_eq!(name, "username"),
        other => panic!("{:?}", other),
    }
    match read_article(&data, &entry(third, 6)) {
        Err(ArticleError::MissingProperty(name)) => assert_eq!(name, "revision"),
        other => panic!("{:?}", other),
    }
    match read_article(&data, &entry(third, 5)) {
        Err(ArticleError::MalformedProperty(name)) => assert_eq!(name, "timestamp"),
        other => panic!("{:?}", other),
    }
}

#[test]
fn offsets_beyond_the_archive_are_refused() {
    let data = block_one();
    let end = data.len() as u64;
    assert!(matches!(read_article(&data, &entry(end + 1, 1)), Err(ArticleError::OffsetOutOfRange)));
    assert!(matches!(
        read_article(&data, &entry(u64::MAX, 1)),
        Err(ArticleError::OffsetOutOfRange)
    ));
    assert!(matches!(read_article(&data, &entry(end, 1)), Err(ArticleError::CorruptBlock)));
}

#[test]
fn damaged_blocks_are_refused() {
    assert!(matches!(read_article(&[], &entry(0, 1)), Err(ArticleError::CorruptBlock)));
    assert!(matches!(
        read_article(b"not bzip2 at all", &entry(0, 1)),
        Err(ArticleError::CorruptBlock)
    ));
    assert!(matches!(read_article(&block_one(), &entry(3, 1)), Err(ArticleError::CorruptBlock)));
    assert!(matches!(
        read_article(&block_not_utf8(), &entry(0, 1)),
        Err(ArticleError::InvalidEncoding)
    ));
    assert!(matches!(
        read_article(&block_not_xml(), &entry(0, 1)),
        Err(ArticleError::InvalidDocument)
    ));
}

#[test]
fn chunk_is_wrapped_in_a_root() {
    let data = archive();
    let database = ArticleDatabase::new(&data);
    let text = database.get_article_chunk(&entry(block_one().len() as u64, 0)).unwrap();
    assert!(text.starts_with("<root xmlns=\"\"><page>\n    <title>Third</title>"));
    assert!(text.ends_with("</page>\n  </root>"));
}

#[test]
fn pages_are_found_by_the_text_of_their_id() {
    let root = document(
        "<page><id>01</id><title>Padded</title></page>\
         <other><id>1</id></other>\
         <page><revision><id>1</id></revision><title>Nested</title></page>\
         <page><title>Late</title><id>1</id></page>\
         <page><id>1</id><title>Shadowed</title></page>",
    );
    let page = find_page(&root, 1).unwrap();
    assert_eq!(page.name(), "other");
    assert!(find_page(&root, 2).is_none());
    assert!(find_page(&document(""), 1).is_none());
}

#[test]
fn fields_are_read_in_order() {
    let full = "<id>7</id><title>T</title><revision><text>B</text>\
                <timestamp>2001-02-03 04:05:06.5+01:00</timestamp>\
                <contributor><username>U</username></contributor></revision>";
    let root = document(&format!("<page>{}</page>", full));
    let article = ArticleDatabase::find_article(&root, 7).unwrap();
    assert_eq!(article.id, 7);
    assert_eq!(article.title, "T");
    assert_eq!(article.body, "B");
    assert_eq!(article.last_changed_by, "U");
    assert_eq!(article.last_changed_at, Timestamp { seconds: 981169506, nanos: 500_000_000 });

    let cases = [
        ("<page/>", "id"),
        ("<page><id>1</id></page>", "title"),
        ("<page><id>1</id><title>T</title></page>", "revision"),
        ("<page><id>1</id><title>T</title><revision/></page>", "text"),
        ("<page><id>1</id><title>T</title><revision><text/></revision></page>", "timestamp"),
        (
            "<page><id>1</id><title>T</title><revision><text/>\
             <timestamp>2001-02-03T04:05:06Z</timestamp></revision></page>",
            "contributor",
        ),
        (
            "<page><id>1</id><title>T</title><revision><text/>\
             <timestamp>2001-02-03T04:05:06Z</timestamp><contributor/></revision></page>",
            "username",
        ),
    ];
    for (inner, missing) in cases {
        let root = document(inner);
        let page = root.children().next().unwrap();
        match ArticleDatabase::parse_article(page) {
            Err(ArticleError::MissingProperty(name)) => assert_eq!(name, missing),
            other => panic!("{:?}", other),
        }
    }
    let root = document("<page><id>x</id></page>");
    match ArticleDatabase::parse_article(root.children().next().unwrap()) {
        Err(ArticleError::MalformedProperty(name)) => assert_eq!(name, "id"),
        other => panic!("{:?}", other),
    }
}

#[test]
fn empty_elements_have_empty_text() {
    let root = document(
        "<page><id>3</id><title/><revision><text></text>\
         <timestamp>1970-01-01T00:00:00Z</timestamp>\
         <contributor><username/></contributor></revision></page>",
    );
    let article = ArticleDatabase::find_article(&root, 3).unwrap();
    assert_eq!(article.title, "");
    assert_eq!(article.body, "");
    assert_eq!(article.last_changed_by, "");
    assert_eq!(article.last_changed_at, Timestamp { seconds: 0, nanos: 0 });
}

#[test]
fn chunk_of_a_damaged_block_is_refused() {
    let data = block_one();
    let database = ArticleDatabase::new(&data);
    assert!(matches!(database.get_article_chunk(&entry(1, 0)), Err(ArticleError::CorruptBlock)));
    assert!(matches!(
        database.get_article_chunk(&entry(data.len() as u64 + 1, 0)),
        Err(ArticleError::OffsetOutOfRange)
    ));
}

#[test]
fn errors_have_messages() {
    assert_eq!(ArticleError::ArticleNotFound.message(), "requested article not found");
    assert_eq!(
        ArticleError::MissingProperty("title".to_string()).message(),
        "missing property on page"
    );
    assert_eq!(
        ArticleError::MalformedProperty("id".to_string()).message(),
        "malformed property on page"
    );
    assert_eq!(
        ArticleError::OffsetOutOfRange.message(),
        "block offset beyond the end of the archive"
    );
    assert_eq!(ArticleError::CorruptBlock.message(), "block cannot be decompressed");
    assert_eq!(ArticleError::InvalidEncoding.message(), "block is not UTF-8");
    assert_eq!(ArticleError::InvalidDocument.message(), "block is not a well-formed document");
}
