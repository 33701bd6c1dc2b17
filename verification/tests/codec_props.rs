use syndication_junction::structs::{Author, Channel, Db, FeedOptions, FeedSource, Item,
    MediaContent, Rss};

fn full_item() -> Item {
    Item {
        guid: "guid-1".to_string(),
        title: Some("a title".to_string()),
        plain_title: Some("plain".to_string()),
        imageurl: None,
        link: Some("http://l".to_string()),
        description: Some("body with \"quotes\" and 7:colons".to_string()),
        author: Some(Author { name: "n".to_string(), uri: "u".to_string() }),
        pub_date: Some("Thu, 01 Jan 1970 00:01:40 +0000".to_string()),
        create_date: None,
        update_date: Some("x".to_string()),
        media_content: Some(vec![MediaContent {
            url: "https://m/1.png".to_string(),
            description: Some("alt".to_string()),
            mime_type: "image/png".to_string(),
            file_size: Some("123".to_string()),
            medium: "image".to_string(),
        }]),
        content_encoded: Some("<p>rich</p>".to_string()),
    }
}

fn full_db() -> Db {
    let mut db = Db::new();
    db.title = "Out".to_string();
    db.link = "http://out".to_string();
    db.max_entries_published = 7;
    db.description_title_word_count = -3;
    db.rss.push(FeedSource {
        url: "http://feed".to_string(),
        options: FeedOptions {
            rss: Rss {
                channel: Channel {
                    title: "Feed".to_string(),
                    link: "http://feed/home".to_string(),
                    item: vec![full_item()],
                },
                version: Some("2.0".to_string()),
                webfeeds: None,
                media: Some("ns".to_string()),
                content: None,
            },
            manipulate_input: "cat -".to_string(),
            retain_all_entries: false,
            title: "Feed".to_string(),
            link: "http://feed/home".to_string(),
        },
    });
    db
}

fn assert_items_equal(a: &Item, b: &Item) {
    assert_eq!(a.guid, b.guid);
    assert_eq!(a.title, b.title);
    assert_eq!(a.plain_title, b.plain_title);
    assert_eq!(a.imageurl, b.imageurl);
    assert_eq!(a.link, b.link);
    assert_eq!(a.description, b.description);
    assert_eq!(a.pub_date, b.pub_date);
    assert_eq!(a.create_date, b.create_date);
    assert_eq!(a.update_date, b.update_date);
    assert_eq!(a.content_encoded, b.content_encoded);
    match (&a.author, &b.author) {
        (None, None) => {},
        (Some(x), Some(y)) => {
            assert_eq!(x.name, y.name);
            assert_eq!(x.uri, y.uri);
        },
        _ => panic!("author mismatch"),
    }
    match (&a.media_content, &b.media_content) {
        (None, None) => {},
        (Some(x), Some(y)) => {
            assert_eq!(x.len(), y.len());
            for k in 0..x.len() {
                assert_eq!(x[k].url, y[k].url);
                assert_eq!(x[k].description, y[k].description);
                assert_eq!(x[k].mime_type, y[k].mime_type);
                assert_eq!(x[k].file_size, y[k].file_size);
                assert_eq!(x[k].medium, y[k].medium);
            }
        },
        _ => panic!("media mismatch"),
    }
}

#[test]
fn store_round_trip_field_for_field() {
    let db = full_db();
    let text = db.to_saved_text();
    let back = Db::from_saved_text(&text).expect("reload failed");
    assert_eq!(back.rss.len(), db.rss.len());
    assert_eq!(back.rss[0].url, db.rss[0].url);
    let (o1, o2) = (&db.rss[0].options, &back.rss[0].options);
    assert_eq!(o1.manipulate_input, o2.manipulate_input);
    assert_eq!(o1.retain_all_entries, o2.retain_all_entries);
    assert_eq!(o1.title, o2.title);
    assert_eq!(o1.link, o2.link);
    assert_eq!(o1.rss.channel.title, o2.rss.channel.title);
    assert_eq!(o1.rss.channel.link, o2.rss.channel.link);
    assert_eq!(o1.rss.version, o2.rss.version);
    assert_eq!(o1.rss.webfeeds, o2.rss.webfeeds);
    assert_eq!(o1.rss.media, o2.rss.media);
    assert_eq!(o1.rss.content, o2.rss.content);
    assert_eq!(o1.rss.channel.item.len(), o2.rss.channel.item.len());
    assert_items_equal(&o1.rss.channel.item[0], &o2.rss.channel.item[0]);
    assert_eq!(back.output_one_channel, db.output_one_channel);
    assert_eq!(back.title, db.title);
    assert_eq!(back.link, db.link);
    assert_eq!(
        back.include_description_as_title_if_none_given,
        db.include_description_as_title_if_none_given,
    );
    assert_eq!(back.description_title_word_count, db.description_title_word_count);
    assert_eq!(back.title_ellipsis, db.title_ellipsis);
    assert_eq!(back.populate_content_encoded, db.populate_content_encoded);
    assert_eq!(back.add_media_to_content_encoded, db.add_media_to_content_encoded);
    assert_eq!(back.max_entries_published, db.max_entries_published);
    assert_eq!(back.override_item_author, db.override_item_author);
}

#[test]
fn fresh_store_round_trips() {
    let db = Db::new();
    let text = db.to_saved_text();
    let back = Db::from_saved_text(&text).expect("reload failed");
    assert_eq!(back.to_saved_text(), text);
}

#[test]
fn malformed_text_is_rejected() {
    assert!(Db::from_saved_text("").is_none());
    assert!(Db::from_saved_text("garbage").is_none());
    assert!(Db::from_saved_text("sources:x").is_none());
    let good = Db::new().to_saved_text();
    let mut truncated = good.clone();
    truncated.pop();
    assert!(Db::from_saved_text(&truncated).is_none());
    let padded = format!("{}extra", good);
    assert!(Db::from_saved_text(&padded).is_none());
}
