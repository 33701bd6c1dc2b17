use syndication_junction::structs::{Author, Channel, Db, Item, MediaContent, Rss};
use syndication_junction::sort::sort_items_by_published;
use syndication_junction::structs::ContainsMedia;

fn bare_item(guid: &str) -> Item {
    Item {
        guid: guid.to_string(),
        title: None,
        plain_title: None,
        imageurl: None,
        link: None,
        description: None,
        author: None,
        pub_date: None,
        create_date: None,
        update_date: None,
        media_content: None,
        content_encoded: None,
    }
}

fn rss(title: &str, link: &str, items: Vec<Item>) -> Rss {
    Rss {
        channel: Channel { title: title.to_string(), link: link.to_string(), item: items },
        version: Some("2.0".to_string()),
        webfeeds: None,
        media: None,
        content: None,
    }
}

// seconds 100 after the epoch, in the canonical date format
const T100: &str = "Thu, 01 Jan 1970 00:01:40 +0000";
const T200: &str = "Thu, 01 Jan 1970 00:03:20 +0000";

#[test]
fn sort_keeps_input_order_for_equal_and_missing_timestamps() {
    let mut a = bare_item("first100");
    a.pub_date = Some(T100.to_string());
    let b = bare_item("missing");
    let mut c = bare_item("second100");
    c.pub_date = Some(T100.to_string());
    let sorted = sort_items_by_published(&vec![a, b, c]);
    let order: Vec<&str> = sorted.iter().map(|i| i.guid.as_str()).collect();
    assert_eq!(order, vec!["first100", "second100", "missing"]);
}

#[test]
fn sort_puts_most_recent_first() {
    let mut a = bare_item("older");
    a.pub_date = Some(T100.to_string());
    let mut b = bare_item("newer");
    b.pub_date = Some(T200.to_string());
    let sorted = sort_items_by_published(&vec![a, b]);
    assert_eq!(sorted[0].guid, "newer");
    assert_eq!(sorted[1].guid, "older");
}

#[test]
fn published_timestamp_reads_gmt_dates() {
    let mut it = bare_item("g");
    it.pub_date = Some("Thu, 01 Jan 1970 00:01:40 GMT".to_string());
    assert_eq!(it.get_published_timestamp(), Some(100));
    it.update_date = Some(T200.to_string());
    assert_eq!(it.get_updated_timestamp(), Some(200));
    it.create_date = Some("not a date".to_string());
    assert_eq!(it.get_created_timestamp(), None);
    assert_eq!(bare_item("h").get_published_timestamp(), None);
}

#[test]
fn title_synthesis_three_words() {
    let mut db = Db::new();
    db.description_title_word_count = 3;
    db.add_media_to_content_encoded = false;
    let mut it = bare_item("g");
    it.description = Some("<p>Hello world, this is a test post about things</p>".to_string());
    db.ingest("u".to_string(), rss("S", "L", vec![it]));
    let out = db.output_rss();
    assert!(out.contains("<title>Hello world, this...</title>"), "{}", out);
}

#[test]
fn title_synthesis_keeps_short_bodies_whole() {
    let mut db = Db::new();
    db.add_media_to_content_encoded = false;
    let mut it = bare_item("g");
    it.description = Some("<p>Just a few words</p>".to_string());
    db.ingest("u".to_string(), rss("S", "L", vec![it]));
    let out = db.output_rss();
    assert!(out.contains("<title>Just a few words</title>"), "{}", out);
}

#[test]
fn truncation_keeps_leading_items() {
    let mut db = Db::new();
    db.max_entries_published = 2;
    db.add_media_to_content_encoded = false;
    db.include_description_as_title_if_none_given = false;
    let mut items = Vec::new();
    for k in 0..5 {
        let mut it = bare_item(&format!("g{}", k));
        // later items get more recent timestamps
        it.pub_date = Some(format!("Thu, 01 Jan 1970 00:00:0{} +0000", k));
        items.push(it);
    }
    db.ingest("u".to_string(), rss("S", "L", items));
    let out = db.output_rss();
    assert_eq!(out.matches("<guid>").count(), 2, "{}", out);
    assert!(out.contains("<guid>g4</guid>"));
    assert!(out.contains("<guid>g3</guid>"));
    assert!(!out.contains("<guid>g2</guid>"));
}

#[test]
fn empty_store_serializes_to_wellformed_document() {
    let db = Db::new();
    let out = db.output_rss();
    let expected = "<?xml version=\"1.0\" encoding=\"UTF-8\"?><rss version=\"2.0\" xmlns:webfeeds=\"http://webfeeds.org/rss/1.0\" xmlns:media=\"http://search.yahoo.com/mrss/\" xmlns:content=\"http://purl.org/rss/1.0/modules/content/\"><channel><title></title><link></link></channel></rss>";
    assert_eq!(out, expected);
    // the document must also read back without error
    let mut reader = quick_xml::Reader::from_str(&out);
    loop {
        match reader.read_event() {
            Ok(quick_xml::events::Event::Eof) => break,
            Ok(_) => {},
            Err(e) => panic!("output did not parse: {}", e),
        }
    }
}

#[test]
fn author_fill_uses_owning_source() {
    let mut db = Db::new();
    db.add_media_to_content_encoded = false;
    db.include_description_as_title_if_none_given = false;
    let it = bare_item("g");
    db.ingest("u".to_string(), rss("Source name", "http://src", vec![it]));
    let out = db.output_rss();
    assert!(out.contains("<author><name>Source name</name><uri>http://src</uri></author>"), "{}", out);
}

#[test]
fn author_kept_unless_overridden() {
    let mut db = Db::new();
    db.add_media_to_content_encoded = false;
    db.include_description_as_title_if_none_given = false;
    let mut it = bare_item("g");
    it.author = Some(Author { name: "Original".to_string(), uri: "http://orig".to_string() });
    db.ingest("u".to_string(), rss("Source name", "http://src", vec![it.clone()]));
    let out = db.output_rss();
    assert!(out.contains("<name>Original</name>"), "{}", out);
    let mut db2 = Db::new();
    db2.add_media_to_content_encoded = false;
    db2.include_description_as_title_if_none_given = false;
    db2.override_item_author = true;
    db2.ingest("u".to_string(), rss("Source name", "http://src", vec![it]));
    let out2 = db2.output_rss();
    assert!(out2.contains("<name>Source name</name>"), "{}", out2);
}

#[test]
fn rich_body_filled_from_body_and_media_injected() {
    let mut db = Db::new();
    db.include_description_as_title_if_none_given = false;
    let mut it = bare_item("g");
    it.description = Some("plain body".to_string());
    it.media_content = Some(vec![MediaContent {
        url: "https://pics/x.png".to_string(),
        description: Some("alt text".to_string()),
        mime_type: "image/png".to_string(),
        file_size: None,
        medium: "image".to_string(),
    }]);
    db.ingest("u".to_string(), rss("S", "L", vec![it]));
    let out = db.output_rss();
    // the rich body is the copied body, a break, then the unreferenced image
    let expected = "plain body&lt;br&gt;&lt;img src=&quot;https://pics/x.png&quot; alt=&quot;alt text&quot; /&gt;";
    assert!(out.contains(expected), "{}", out);
}

#[test]
fn referenced_media_is_not_injected_again() {
    let mut db = Db::new();
    db.include_description_as_title_if_none_given = false;
    let mut it = bare_item("g");
    it.content_encoded = Some("see https://pics/x.png here".to_string());
    it.media_content = Some(vec![MediaContent {
        url: "https://pics/x.png".to_string(),
        description: None,
        mime_type: "image/png".to_string(),
        file_size: None,
        medium: "image".to_string(),
    }]);
    db.ingest("u".to_string(), rss("S", "L", vec![it]));
    let out = db.output_rss();
    assert!(out.contains("see https://pics/x.png here&lt;br&gt;"), "{}", out);
    assert!(!out.contains("&lt;img"), "{}", out);
}

#[test]
fn media_html_by_mime_class() {
    let img = MediaContent {
        url: "u".to_string(),
        description: Some("d".to_string()),
        mime_type: "image/png".to_string(),
        file_size: None,
        medium: "image".to_string(),
    };
    assert_eq!(img.into_html(), "<img src=\"u\" alt=\"d\" />");
    let vid = MediaContent {
        url: "v".to_string(),
        description: Some("movie".to_string()),
        mime_type: "video/mp4".to_string(),
        file_size: None,
        medium: "video".to_string(),
    };
    assert_eq!(vid.into_html(), "<video src=\"v\" type=\"video/mp4\" controls>movie</video>");
    let other = MediaContent {
        url: "w".to_string(),
        description: Some("just text".to_string()),
        mime_type: "audio/ogg".to_string(),
        file_size: None,
        medium: "audio".to_string(),
    };
    assert_eq!(other.into_html(), "just text");
}

#[test]
fn media_list_renders_every_asset() {
    let list = Some(vec![
        MediaContent {
            url: "a".to_string(),
            description: None,
            mime_type: "image/png".to_string(),
            file_size: None,
            medium: "image".to_string(),
        },
        MediaContent {
            url: "b".to_string(),
            description: Some("t".to_string()),
            mime_type: "text/plain".to_string(),
            file_size: None,
            medium: "text".to_string(),
        },
    ]);
    let html = list.into_html();
    assert_eq!(html, vec!["<img src=\"a\" alt=\"\" />".to_string(), "t".to_string()]);
    let none: Option<Vec<MediaContent>> = None;
    assert_eq!(none.into_html().len(), 0);
}
