use syndication_junction::relocate::{local_file_name, relocate_url, DownloadImageOptions};
use syndication_junction::scan::{clean_chars, repair_feed_text};
use syndication_junction::structs::{Author, Entry, Feed, Item, Link};
use syndication_junction::structs::MediaContent;

fn chars(s: &str) -> Vec<char> {
    s.chars().collect()
}

fn string(v: &Vec<char>) -> String {
    v.iter().collect()
}

#[test]
fn clean_repairs_prefixed_element_names() {
    let fixed = clean_chars(&chars("<media:content url=\"u\">x</media:content>"));
    assert_eq!(string(&fixed), "<media-content url=\"u\">x</media-content >");
}

#[test]
fn clean_leaves_plain_markup_alone() {
    let fixed = clean_chars(&chars("<p>a &amp; b</p><br/>"));
    assert_eq!(string(&fixed), "<p>a &amp; b</p><br/>");
}

#[test]
fn entry_converts_to_item() {
    let e = Entry {
        id: "entry-7".to_string(),
        title: "An entry".to_string(),
        author: Author { name: "a".to_string(), uri: "http://a".to_string() },
        updated: "2023-01-02T03:04:05.000Z".to_string(),
        content: "<p>full</p>".to_string(),
        media_content: None,
        link: Link { rel: "alternate".to_string(), href: "http://e/7".to_string() },
        summary: "short".to_string(),
    };
    let it: Item = e.into_item();
    assert_eq!(it.guid, "entry-7");
    assert_eq!(it.title.as_deref(), Some("An entry"));
    assert_eq!(it.plain_title.as_deref(), Some("An entry"));
    assert_eq!(it.link.as_deref(), Some("http://e/7"));
    assert_eq!(it.description.as_deref(), Some("short"));
    assert_eq!(it.content_encoded.as_deref(), Some("<p>full</p>"));
    assert_eq!(it.pub_date.as_deref(), Some("Mon, 02 Jan 2023 03:04:05 +0000"));
    assert_eq!(it.update_date, it.pub_date);
    assert!(it.create_date.is_none());
    assert_eq!(it.author.as_ref().unwrap().name, "a");
}

#[test]
fn entry_log_feed_converts_to_canonical_feed() {
    let e = Entry {
        id: "only".to_string(),
        title: "t".to_string(),
        author: Author { name: "a".to_string(), uri: "http://home".to_string() },
        updated: "never".to_string(),
        content: "c".to_string(),
        media_content: None,
        link: Link { rel: "alternate".to_string(), href: "http://x".to_string() },
        summary: "s".to_string(),
    };
    let f = Feed {
        id: "feed".to_string(),
        title: "Feed title".to_string(),
        subtitle: "sub".to_string(),
        entry: Some(vec![e]),
        author: Author { name: "a".to_string(), uri: "http://home".to_string() },
        updated: None,
    };
    let rss = f.into_rss();
    assert_eq!(rss.channel.title, "Feed title");
    assert_eq!(rss.channel.link, "http://home");
    assert_eq!(rss.version.as_deref(), Some("2.0"));
    assert_eq!(rss.channel.item.len(), 1);
    assert_eq!(rss.channel.item[0].guid, "only");
    assert_eq!(rss.channel.item[0].content_encoded.as_deref(), Some("c"));
    // an unparseable entry-log time yields no date at all
    assert!(rss.channel.item[0].pub_date.is_none());

    let empty = Feed {
        id: "feed".to_string(),
        title: "T".to_string(),
        subtitle: "s".to_string(),
        entry: None,
        author: Author { name: "a".to_string(), uri: "u".to_string() },
        updated: None,
    };
    assert_eq!(empty.into_rss().channel.item.len(), 0);
}

#[test]
fn relocation_rewrites_scheme_to_host_media_path() {
    assert_eq!(
        relocate_url("https://pics.example/x.png", "http://host"),
        "http://host/media/pics.example/x.png",
    );
    assert_eq!(local_file_name("https://pics.example/x.png"), "pics.example/x.png");
    assert_eq!(local_file_name("http://pics.example/y.png"), "pics.example/y.png");
}

#[test]
fn download_options_resolve_with_default_directory() {
    let (u, d) = DownloadImageOptions::Url("https://a/b.png".to_string()).resolve();
    assert_eq!(u, "https://a/b.png");
    assert_eq!(d, "output/media/");
    let (u2, d2) = DownloadImageOptions::UrlAndOutputDir("x".to_string(), "dir/".to_string())
        .resolve();
    assert_eq!(u2, "x");
    assert_eq!(d2, "dir/");
}

#[test]
fn description_image_rewrite_escapes_percents() {
    let mut it = Item {
        guid: "g".to_string(),
        title: None,
        plain_title: None,
        imageurl: None,
        link: None,
        description: Some(
            "<img src=\"https://a/b%20c.png\"> and again https://a/b%20c.png".to_string(),
        ),
        author: None,
        pub_date: None,
        create_date: None,
        update_date: None,
        media_content: None,
        content_encoded: Some("<img src=\"https://a/b%20c.png\">".to_string()),
    };
    let srcs = it.description_image_sources();
    assert_eq!(srcs, vec!["https://a/b%20c.png".to_string()]);
    let csrcs = it.content_image_sources();
    assert_eq!(csrcs, vec!["https://a/b%20c.png".to_string()]);
    it.rewrite_description_image("https://a/b%20c.png", "http://host");
    assert_eq!(
        it.description.as_deref(),
        Some("<img src=\"http://host/media/a/b%2520c.png\"> and again http://host/media/a/b%2520c.png"),
    );
    it.rewrite_content_image("https://a/b%20c.png", "http://host");
    assert_eq!(
        it.content_encoded.as_deref(),
        Some("<img src=\"http://host/media/a/b%20c.png\">"),
    );
}

#[test]
fn structured_media_relocation_rewrites_one_asset() {
    let mut it = Item {
        guid: "g".to_string(),
        title: None,
        plain_title: None,
        imageurl: None,
        link: None,
        description: None,
        author: None,
        pub_date: None,
        create_date: None,
        update_date: None,
        media_content: Some(vec![
            MediaContent {
                url: "https://a/1.png".to_string(),
                description: None,
                mime_type: "image/png".to_string(),
                file_size: None,
                medium: "image".to_string(),
            },
            MediaContent {
                url: "https://a/2.png".to_string(),
                description: None,
                mime_type: "image/png".to_string(),
                file_size: None,
                medium: "image".to_string(),
            },
        ]),
        content_encoded: None,
    };
    it.relocate_media_url(0, "http://host");
    let media = it.media_content.as_ref().unwrap();
    assert_eq!(media[0].url, "http://host/media/a/1.png");
    assert_eq!(media[1].url, "https://a/2.png");
}

#[test]
fn updated_time_formats_into_item_date_format() {
    let e = Entry {
        id: "i".to_string(),
        title: "t".to_string(),
        author: Author { name: "a".to_string(), uri: "u".to_string() },
        updated: "2015-02-18T23:16:09.000Z".to_string(),
        content: "c".to_string(),
        media_content: None,
        link: Link { rel: "r".to_string(), href: "h".to_string() },
        summary: "s".to_string(),
    };
    assert_eq!(
        e.get_updated_time_as_item_format().as_deref(),
        Some("Wed, 18 Feb 2015 23:16:09 +0000"),
    );
    let bad = Entry { updated: "yesterday".to_string(), ..e };
    assert!(bad.get_updated_time_as_item_format().is_none());
}

#[test]
fn bare_ampersands_before_spaces_are_escaped() {
    assert_eq!(repair_feed_text("a & b &amp; c &x"), "a &amp; b &amp; c &x");
}

#[test]
fn free_text_containers_are_wrapped() {
    assert_eq!(
        repair_feed_text("<item><description>a <b> c</description></item>"),
        "<item><description><![CDATA[a <b> c]]></description></item>",
    );
    assert_eq!(
        repair_feed_text("<summary>s</summary><content>c</content>"),
        "<summary><![CDATA[s]]></summary><content><![CDATA[c]]></content>",
    );
}

#[test]
fn already_wrapped_containers_stay_unchanged() {
    assert_eq!(
        repair_feed_text("<description><![CDATA[x]]></description>"),
        "<description><![CDATA[x]]></description>",
    );
}

#[test]
fn repair_combines_rename_escape_and_wrap() {
    // the renamed rich-body element is wrapped in its renamed spelling
    assert_eq!(
        repair_feed_text("<content:encoded>fish & chips</content:encoded>"),
        "<content-encoded ><![CDATA[fish &amp; chips]]></content-encoded >",
    );
    assert_eq!(
        repair_feed_text("<media:description>alt</media:description>"),
        "<media-description ><![CDATA[alt]]></media-description >",
    );
}
