use syndication_junction::structs::{Author, Channel, Db, FeedOptions, FeedSource, Item, Rss};
use syndication_junction::merge::CombineItemLists;

fn item(guid: &str, title: Option<&str>, description: Option<&str>) -> Item {
    Item {
        guid: guid.to_string(),
        title: title.map(|t| t.to_string()),
        plain_title: None,
        imageurl: None,
        link: None,
        description: description.map(|d| d.to_string()),
        author: None,
        pub_date: None,
        create_date: None,
        update_date: None,
        media_content: None,
        content_encoded: None,
    }
}

fn rss(title: &str, link: &str, items: Vec<Item>) -> Rss {
    Rss {
        channel: Channel { title: title.to_string(), link: link.to_string(), item: items },
        version: Some("2.0".to_string()),
        webfeeds: None,
        media: None,
        content: None,
    }
}

#[test]
fn guid_join_overwrites_in_place() {
    let mut stored = vec![
        item("a", Some("old a"), Some("body a")),
        item("b", Some("old b"), Some("body b")),
    ];
    stored[0].link = Some("http://kept".to_string());
    stored[0].author = Some(Author { name: "kept".to_string(), uri: "kept".to_string() });
    let incoming = vec![item("a", Some("new a"), Some("new body a"))];
    stored.update_list_by_guids(incoming);
    assert_eq!(stored.len(), 2);
    // position and identity fields kept, content overwritten
    assert_eq!(stored[0].guid, "a");
    assert_eq!(stored[0].title.as_deref(), Some("new a"));
    assert_eq!(stored[0].description.as_deref(), Some("new body a"));
    assert_eq!(stored[0].link.as_deref(), Some("http://kept"));
    assert_eq!(stored[0].author.as_ref().unwrap().name, "kept");
    assert_eq!(stored[1].title.as_deref(), Some("old b"));
}

#[test]
fn new_items_append_in_incoming_order() {
    let mut stored = vec![item("a", Some("a"), None)];
    let incoming = vec![
        item("b", Some("b"), None),
        item("a", Some("a2"), None),
        item("c", Some("c"), None),
    ];
    stored.update_list_by_guids(incoming);
    assert_eq!(stored.len(), 3);
    assert_eq!(stored[0].guid, "a");
    assert_eq!(stored[0].title.as_deref(), Some("a2"));
    assert_eq!(stored[1].guid, "b");
    assert_eq!(stored[2].guid, "c");
}

#[test]
fn ingest_twice_equals_ingest_once() {
    let mut once = Db::new();
    let mut twice = Db::new();
    let feed = || rss("Feed", "http://feed", vec![
        item("x", Some("x"), Some("dx")),
        item("y", None, Some("dy")),
    ]);
    once.ingest("http://feed".to_string(), feed());
    twice.ingest("http://feed".to_string(), feed());
    twice.ingest("http://feed".to_string(), feed());
    assert_eq!(once.to_saved_text(), twice.to_saved_text());
}

#[test]
fn ingest_creates_slot_with_defaults() {
    let mut db = Db::new();
    db.ingest("http://feed".to_string(), rss("T", "L", vec![item("g", None, None)]));
    assert_eq!(db.rss.len(), 1);
    let slot: &FeedSource = &db.rss[0];
    assert_eq!(slot.url, "http://feed");
    let o: &FeedOptions = &slot.options;
    assert_eq!(o.manipulate_input, "");
    assert!(o.retain_all_entries);
    assert_eq!(o.title, "T");
    assert_eq!(o.link, "L");
    assert_eq!(o.rss.channel.item.len(), 1);
}

#[test]
fn ingest_overwrites_source_title_and_link() {
    let mut db = Db::new();
    db.ingest("u".to_string(), rss("Old name", "old link", vec![item("g", None, None)]));
    db.ingest("u".to_string(), rss("New name", "new link", vec![item("g", None, None)]));
    assert_eq!(db.rss.len(), 1);
    assert_eq!(db.rss[0].options.title, "New name");
    assert_eq!(db.rss[0].options.link, "new link");
    assert_eq!(db.rss[0].options.rss.channel.title, "New name");
    assert_eq!(db.rss[0].options.rss.channel.item.len(), 1);
}

#[test]
fn db_new_defaults() {
    let db = Db::new();
    assert_eq!(db.rss.len(), 0);
    assert!(db.output_one_channel);
    assert_eq!(db.title, "");
    assert_eq!(db.link, "");
    assert!(db.include_description_as_title_if_none_given);
    assert_eq!(db.description_title_word_count, 10);
    assert_eq!(db.title_ellipsis, "...");
    assert!(db.populate_content_encoded);
    assert!(db.add_media_to_content_encoded);
    assert_eq!(db.max_entries_published, -1);
    assert!(!db.override_item_author);
}
