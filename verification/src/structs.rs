//! The canonical data model: media assets, items, channels, the persisted
//! store, and the entry-log schema, together with the spec-level views that
//! every contract in the library speaks of.

use vstd::prelude::*;
use crate::text::{push_all, push_str_chars, replace_all, starts_with, starts_with_chars, to_chars,
    from_chars, replace_all_chars};
use crate::timefmt::{chrono_parse_secs, chrono_format_secs, item_date_fmt, parse_datetime_secs,
    format_datetime_secs};

verus! {

// ---------------------------------------------------------------------------
// Media assets
// ---------------------------------------------------------------------------

/// One media asset attached to an item.
pub struct MediaContent {
    pub url: String,
    pub description: Option<String>,
    pub mime_type: String,
    pub file_size: Option<String>,
    pub medium: String,
}

/// Spec view of a media asset.
#[verifier::ext_equal]
pub ghost struct MediaV {
    pub url: Seq<char>,
    pub description: Option<Seq<char>>,
    pub mime_type: Seq<char>,
    pub file_size: Option<Seq<char>>,
    pub medium: Seq<char>,
}

impl DeepView for MediaContent {
    type V = MediaV;

    open spec fn deep_view(&self) -> MediaV {
        MediaV {
            url: self.url@,
            description: self.description.deep_view(),
            mime_type: self.mime_type@,
            file_size: self.file_size.deep_view(),
            medium: self.medium@,
        }
    }
}

/// The HTML fragment rendering one media asset: an image tag, a video tag,
/// or the bare description text, depending on the MIME class.
pub open spec fn media_html(m: MediaV) -> Seq<char> {
    let desc = match m.description {
        Some(d) => d,
        None => Seq::<char>::empty(),
    };
    if starts_with(m.mime_type, "image"@) {
        "<img src=\""@ + m.url + "\" alt=\""@ + desc + "\" />"@
    } else if starts_with(m.mime_type, "video"@) {
        "<video src=\""@ + m.url + "\" type=\""@ + m.mime_type + "\" controls>"@ + desc
            + "</video>"@
    } else {
        desc
    }
}

impl MediaContent {
    /// Renders this asset as an HTML fragment.
    pub fn into_html(&self) -> (r: String)
        ensures
            r@ == media_html(self.deep_view()),
    {
        let url = to_chars(self.url.as_str());
        let desc: Vec<char> = match &self.description {
            Some(d) => to_chars(d.as_str()),
            None => Vec::new(),
        };
        let mime = to_chars(self.mime_type.as_str());
        let image_pat = to_chars("image");
        let video_pat = to_chars("video");
        let mut out: Vec<char> = Vec::new();
        if starts_with_chars(&mime, &image_pat) {
            push_str_chars(&mut out, "<img src=\"");
            push_all(&mut out, &url);
            push_str_chars(&mut out, "\" alt=\"");
            push_all(&mut out, &desc);
            push_str_chars(&mut out, "\" />");
        } else if starts_with_chars(&mime, &video_pat) {
            push_str_chars(&mut out, "<video src=\"");
            push_all(&mut out, &url);
            push_str_chars(&mut out, "\" type=\"");
            push_all(&mut out, &mime);
            push_str_chars(&mut out, "\" controls>");
            push_all(&mut out, &desc);
            push_str_chars(&mut out, "</video>");
        } else {
            push_all(&mut out, &desc);
        }
        proof {
            assert(out@ =~= media_html(self.deep_view()));
        }
        from_chars(&out)
    }
}

impl Clone for MediaContent {
    /// Copies the asset; the copy has the same view.
    fn clone(&self) -> (r: Self)
        ensures
            r.deep_view() == self.deep_view(),
    {
        MediaContent {
            url: self.url.clone(),
            description: clone_opt_string(&self.description),
            mime_type: self.mime_type.clone(),
            file_size: clone_opt_string(&self.file_size),
            medium: self.medium.clone(),
        }
    }
}

/// Copies an optional string.
pub fn clone_opt_string(o: &Option<String>) -> (r: Option<String>)
    ensures
        r.deep_view() == o.deep_view(),
{
    match o {
        Some(s) => Some(s.clone()),
        None => None,
    }
}

/// Copies a media-asset list; the copy has the same view.
pub fn clone_media_list(v: &Vec<MediaContent>) -> (r: Vec<MediaContent>)
    ensures
        r.deep_view() == v.deep_view(),
{
    let mut r: Vec<MediaContent> = Vec::new();
    let mut i: usize = 0;
    while i < v.len()
        invariant
            i <= v.len(),
            r.len() == i,
            r.deep_view() =~= v.deep_view().take(i as int),
        decreases v.len() - i,
    {
        let ghost prev = r.deep_view();
        let c = v[i].clone();
        r.push(c);
        proof {
            assert(r@.len() == i + 1);
            assert forall|k: int| 0 <= k < i + 1 implies r.deep_view()[k] == v.deep_view().take(
                i + 1,
            )[k] by {
                if k < i {
                    assert(r.deep_view()[k] == prev[k]);
                } else {
                    assert(r.deep_view()[k] == r@[k].deep_view());
                }
            }
            assert(r.deep_view() =~= v.deep_view().take(i + 1));
        }
        i += 1;
    }
    proof {
        assert(v.deep_view().take(v.len() as int) =~= v.deep_view());
    }
    r
}

/// Copies an optional media-asset list.
pub fn clone_opt_media(o: &Option<Vec<MediaContent>>) -> (r: Option<Vec<MediaContent>>)
    ensures
        r.deep_view() == o.deep_view(),
{
    match o {
        Some(v) => Some(clone_media_list(v)),
        None => None,
    }
}

/// The HTML fragments of a sequence of media assets, in order.
pub open spec fn media_html_list(ms: Seq<MediaV>) -> Seq<Seq<char>> {
    ms.map_values(|m: MediaV| media_html(m))
}

/// A holder of media assets that can render them as HTML fragments.
pub trait ContainsMedia {
    /// The fragments this holder renders to.
    spec fn html_list_view(&self) -> Seq<Seq<char>>;

    /// Renders every held asset.
    fn into_html(&self) -> (r: Vec<String>)
        ensures
            r.deep_view() == self.html_list_view(),
    ;
}

impl ContainsMedia for Option<Vec<MediaContent>> {
    open spec fn html_list_view(&self) -> Seq<Seq<char>> {
        match self {
            Some(v) => media_html_list(v.deep_view()),
            None => Seq::empty(),
        }
    }

    fn into_html(&self) -> (r: Vec<String>) {
        match self {
            Some(mcs) => {
                let mut r: Vec<String> = Vec::new();
                let mut i: usize = 0;
                while i < mcs.len()
                    invariant
                        i <= mcs.len(),
                        r.len() == i,
                        r.deep_view() =~= media_html_list(mcs.deep_view().take(i as int)),
                    decreases mcs.len() - i,
                {
                    let ghost prev = r.deep_view();
                    let h = mcs[i].into_html();
                    r.push(h);
                    proof {
                        assert(r@.len() == i + 1);
                        assert forall|k: int| 0 <= k < i + 1 implies r.deep_view()[k]
                            == media_html_list(mcs.deep_view().take(i + 1))[k] by {
                            if k < i {
                                assert(r.deep_view()[k] == prev[k]);
                            } else {
                                assert(r.deep_view()[k] == r@[k].deep_view());
                            }
                        }
                        assert(r.deep_view() =~= media_html_list(mcs.deep_view().take(i + 1)));
                    }
                    i += 1;
                }
                proof {
                    assert(mcs.deep_view().take(mcs.len() as int) =~= mcs.deep_view());
                }
                r
            },
            None => Vec::new(),
        }
    }
}

// ---------------------------------------------------------------------------
// Authors and items
// ---------------------------------------------------------------------------

/// The author of an item or of an entry-log feed.
pub struct Author {
    pub name: String,
    pub uri: String,
}

/// Spec view of an author.
#[verifier::ext_equal]
pub ghost struct AuthorV {
    pub name: Seq<char>,
    pub uri: Seq<char>,
}

impl DeepView for Author {
    type V = AuthorV;

    open spec fn deep_view(&self) -> AuthorV {
        AuthorV { name: self.name@, uri: self.uri@ }
    }
}

impl Clone for Author {
    /// Copies the author; the copy has the same view.
    fn clone(&self) -> (r: Self)
        ensures
            r.deep_view() == self.deep_view(),
    {
        Author { name: self.name.clone(), uri: self.uri.clone() }
    }
}

/// Copies an optional author.
pub fn clone_opt_author(o: &Option<Author>) -> (r: Option<Author>)
    ensures
        r.deep_view() == o.deep_view(),
{
    match o {
        Some(a) => Some(a.clone()),
        None => None,
    }
}

/// One canonical content entry, identified within its source by `guid`.
pub struct Item {
    pub guid: String,
    pub title: Option<String>,
    pub plain_title: Option<String>,
    pub imageurl: Option<String>,
    pub link: Option<String>,
    pub description: Option<String>,
    pub author: Option<Author>,
    pub pub_date: Option<String>,
    pub create_date: Option<String>,
    pub update_date: Option<String>,
    pub media_content: Option<Vec<MediaContent>>,
    pub content_encoded: Option<String>,
}

/// Spec view of an item.
#[verifier::ext_equal]
pub ghost struct ItemV {
    pub guid: Seq<char>,
    pub title: Option<Seq<char>>,
    pub plain_title: Option<Seq<char>>,
    pub imageurl: Option<Seq<char>>,
    pub link: Option<Seq<char>>,
    pub description: Option<Seq<char>>,
    pub author: Option<AuthorV>,
    pub pub_date: Option<Seq<char>>,
    pub create_date: Option<Seq<char>>,
    pub update_date: Option<Seq<char>>,
    pub media_content: Option<Seq<MediaV>>,
    pub content_encoded: Option<Seq<char>>,
}

impl DeepView for Item {
    type V = ItemV;

    open spec fn deep_view(&self) -> ItemV {
        ItemV {
            guid: self.guid@,
            title: self.title.deep_view(),
            plain_title: self.plain_title.deep_view(),
            imageurl: self.imageurl.deep_view(),
            link: self.link.deep_view(),
            description: self.description.deep_view(),
            author: self.author.deep_view(),
            pub_date: self.pub_date.deep_view(),
            create_date: self.create_date.deep_view(),
            update_date: self.update_date.deep_view(),
            media_content: self.media_content.deep_view(),
            content_encoded: self.content_encoded.deep_view(),
        }
    }
}

impl Clone for Item {
    /// Copies the item; the copy has the same view.
    fn clone(&self) -> (r: Self)
        ensures
            r.deep_view() == self.deep_view(),
    {
        Item {
            guid: self.guid.clone(),
            title: clone_opt_string(&self.title),
            plain_title: clone_opt_string(&self.plain_title),
            imageurl: clone_opt_string(&self.imageurl),
            link: clone_opt_string(&self.link),
            description: clone_opt_string(&self.description),
            author: clone_opt_author(&self.author),
            pub_date: clone_opt_string(&self.pub_date),
            create_date: clone_opt_string(&self.create_date),
            update_date: clone_opt_string(&self.update_date),
            media_content: clone_opt_media(&self.media_content),
            content_encoded: clone_opt_string(&self.content_encoded),
        }
    }
}

/// Seconds since the epoch read from an optional canonical date string,
/// with the `GMT` zone name normalized to a numeric offset first.
pub open spec fn date_key(d: Option<Seq<char>>) -> Option<i64> {
    match d {
        Some(s) => chrono_parse_secs(replace_all(s, "GMT"@, "+0000"@), item_date_fmt()),
        None => None,
    }
}

/// Reads an optional canonical date string as seconds since the epoch,
/// normalizing the `GMT` zone name first.
fn date_to_secs(d: &Option<String>) -> (r: Option<i64>)
    ensures
        r == date_key(d.deep_view()),
{
    let normalized: Option<String> = match d {
        Some(s) => {
            proof {
                reveal_strlit("GMT");
            }
            let sv = to_chars(s.as_str());
            let pat = to_chars("GMT");
            let rep = to_chars("+0000");
            let replaced = replace_all_chars(&sv, &pat, &rep);
            Some(from_chars(&replaced))
        },
        None => None,
    };
    crate::timefmt::get_timestamp_from_string(normalized, "%a, %d %h %Y %H:%M:%S %z")
}

/// The content fields of `b` written over `a`; `a` keeps its identity
/// fields: `guid`, `link` and `author`.
pub open spec fn update_item(a: ItemV, b: ItemV) -> ItemV {
    ItemV {
        guid: a.guid,
        link: a.link,
        author: a.author,
        title: b.title,
        plain_title: b.plain_title,
        imageurl: b.imageurl,
        description: b.description,
        pub_date: b.pub_date,
        create_date: b.create_date,
        update_date: b.update_date,
        media_content: b.media_content,
        content_encoded: b.content_encoded,
    }
}

impl Item {
    /// Seconds since the epoch of the creation date, when it parses.
    pub fn get_created_timestamp(&self) -> (r: Option<i64>)
        ensures
            r == date_key(self.deep_view().create_date),
    {
        date_to_secs(&self.create_date)
    }

    /// Seconds since the epoch of the update date, when it parses.
    pub fn get_updated_timestamp(&self) -> (r: Option<i64>)
        ensures
            r == date_key(self.deep_view().update_date),
    {
        date_to_secs(&self.update_date)
    }

    /// Seconds since the epoch of the publication date, when it parses.
    pub fn get_published_timestamp(&self) -> (r: Option<i64>)
        ensures
            r == date_key(self.deep_view().pub_date),
    {
        date_to_secs(&self.pub_date)
    }

    /// Overwrites this item's content fields with those of `new_item`,
    /// keeping `guid`, `link` and `author`.
    pub fn update(&mut self, new_item: Item)
        ensures
            final(self).deep_view() == update_item(old(self).deep_view(), new_item.deep_view()),
    {
        self.title = new_item.title;
        self.plain_title = new_item.plain_title;
        self.description = new_item.description;
        self.imageurl = new_item.imageurl;
        self.content_encoded = new_item.content_encoded;
        self.media_content = new_item.media_content;
        self.update_date = new_item.update_date;
        self.pub_date = new_item.pub_date;
        self.create_date = new_item.create_date;
    }
}

// ---------------------------------------------------------------------------
// Channels and the persisted store
// ---------------------------------------------------------------------------

/// One feed channel: its title, link and items.
pub struct Channel {
    pub title: String,
    pub link: String,
    pub item: Vec<Item>,
}

/// Spec view of a channel.
#[verifier::ext_equal]
pub ghost struct ChannelV {
    pub title: Seq<char>,
    pub link: Seq<char>,
    pub item: Seq<ItemV>,
}

impl DeepView for Channel {
    type V = ChannelV;

    open spec fn deep_view(&self) -> ChannelV {
        ChannelV { title: self.title@, link: self.link@, item: self.item.deep_view() }
    }
}

/// A canonical feed document: a channel plus namespace attributes.
pub struct Rss {
    pub channel: Channel,
    pub version: Option<String>,
    pub webfeeds: Option<String>,
    pub media: Option<String>,
    pub content: Option<String>,
}

/// Spec view of a canonical feed document.
#[verifier::ext_equal]
pub ghost struct RssV {
    pub channel: ChannelV,
    pub version: Option<Seq<char>>,
    pub webfeeds: Option<Seq<char>>,
    pub media: Option<Seq<char>>,
    pub content: Option<Seq<char>>,
}

impl DeepView for Rss {
    type V = RssV;

    open spec fn deep_view(&self) -> RssV {
        RssV {
            channel: self.channel.deep_view(),
            version: self.version.deep_view(),
            webfeeds: self.webfeeds.deep_view(),
            media: self.media.deep_view(),
            content: self.content.deep_view(),
        }
    }
}

/// The stored state and output policy of one ingested source.
pub struct FeedOptions {
    pub rss: Rss,
    /// Command line an operator may set to rewrite raw feed text before
    /// parsing.
    pub manipulate_input: String,
    pub retain_all_entries: bool,
    pub title: String,
    pub link: String,
}

/// Spec view of a source's stored state.
#[verifier::ext_equal]
pub ghost struct FeedOptionsV {
    pub rss: RssV,
    pub manipulate_input: Seq<char>,
    pub retain_all_entries: bool,
    pub title: Seq<char>,
    pub link: Seq<char>,
}

impl DeepView for FeedOptions {
    type V = FeedOptionsV;

    open spec fn deep_view(&self) -> FeedOptionsV {
        FeedOptionsV {
            rss: self.rss.deep_view(),
            manipulate_input: self.manipulate_input@,
            retain_all_entries: self.retain_all_entries,
            title: self.title@,
            link: self.link@,
        }
    }
}

/// One slot of the store: a source URL and that source's stored state.
pub struct FeedSource {
    pub url: String,
    pub options: FeedOptions,
}

/// Spec view of a store slot.
#[verifier::ext_equal]
pub ghost struct FeedSourceV {
    pub url: Seq<char>,
    pub options: FeedOptionsV,
}

impl DeepView for FeedSource {
    type V = FeedSourceV;

    open spec fn deep_view(&self) -> FeedSourceV {
        FeedSourceV { url: self.url@, options: self.options.deep_view() }
    }
}

/// The top-level persisted store: every ingested source's state plus the
/// output policy.
pub struct Db {
    pub rss: Vec<FeedSource>,
    pub output_one_channel: bool,
    pub title: String,
    pub link: String,
    pub include_description_as_title_if_none_given: bool,
    pub description_title_word_count: i32,
    pub title_ellipsis: String,
    pub populate_content_encoded: bool,
    pub add_media_to_content_encoded: bool,
    pub max_entries_published: i32,
    pub override_item_author: bool,
}

/// Spec view of the store.
#[verifier::ext_equal]
pub ghost struct DbV {
    pub rss: Seq<FeedSourceV>,
    pub output_one_channel: bool,
    pub title: Seq<char>,
    pub link: Seq<char>,
    pub include_description_as_title_if_none_given: bool,
    pub description_title_word_count: int,
    pub title_ellipsis: Seq<char>,
    pub populate_content_encoded: bool,
    pub add_media_to_content_encoded: bool,
    pub max_entries_published: int,
    pub override_item_author: bool,
}

impl DeepView for Db {
    type V = DbV;

    open spec fn deep_view(&self) -> DbV {
        DbV {
            rss: self.rss.deep_view(),
            output_one_channel: self.output_one_channel,
            title: self.title@,
            link: self.link@,
            include_description_as_title_if_none_given:
                self.include_description_as_title_if_none_given,
            description_title_word_count: self.description_title_word_count as int,
            title_ellipsis: self.title_ellipsis@,
            populate_content_encoded: self.populate_content_encoded,
            add_media_to_content_encoded: self.add_media_to_content_encoded,
            max_entries_published: self.max_entries_published as int,
            override_item_author: self.override_item_author,
        }
    }
}

/// The fresh store: no sources, and the default output policy.
pub open spec fn db_default() -> DbV {
    DbV {
        rss: Seq::empty(),
        output_one_channel: true,
        title: Seq::empty(),
        link: Seq::empty(),
        include_description_as_title_if_none_given: true,
        description_title_word_count: 10,
        title_ellipsis: "..."@,
        populate_content_encoded: true,
        add_media_to_content_encoded: true,
        max_entries_published: -1,
        override_item_author: false,
    }
}

impl Db {
    /// Builds the fresh store with the default output policy.
    pub fn new() -> (r: Db)
        ensures
            r.deep_view() == db_default(),
    {
        let r = Db {
            rss: Vec::new(),
            output_one_channel: true,
            title: String::new(),
            link: String::new(),
            include_description_as_title_if_none_given: true,
            description_title_word_count: 10,
            title_ellipsis: String::from_str("..."),
            populate_content_encoded: true,
            add_media_to_content_encoded: true,
            max_entries_published: -1,
            override_item_author: false,
        };
        proof {
            assert(r.rss.deep_view() =~= Seq::<FeedSourceV>::empty());
            assert(r.deep_view() =~~= db_default());
        }
        r
    }
}

// ---------------------------------------------------------------------------
// The entry-log schema
// ---------------------------------------------------------------------------

/// A hyperlink of an entry-log feed.
pub struct Link {
    pub rel: String,
    pub href: String,
}

/// Spec view of a hyperlink.
#[verifier::ext_equal]
pub ghost struct LinkV {
    pub rel: Seq<char>,
    pub href: Seq<char>,
}

impl DeepView for Link {
    type V = LinkV;

    open spec fn deep_view(&self) -> LinkV {
        LinkV { rel: self.rel@, href: self.href@ }
    }
}

/// One entry of an entry-log feed.
pub struct Entry {
    pub id: String,
    pub title: String,
    pub author: Author,
    pub updated: String,
    pub content: String,
    pub media_content: Option<Vec<MediaContent>>,
    pub link: Link,
    pub summary: String,
}

/// Spec view of an entry.
#[verifier::ext_equal]
pub ghost struct EntryV {
    pub id: Seq<char>,
    pub title: Seq<char>,
    pub author: AuthorV,
    pub updated: Seq<char>,
    pub content: Seq<char>,
    pub media_content: Option<Seq<MediaV>>,
    pub link: LinkV,
    pub summary: Seq<char>,
}

impl DeepView for Entry {
    type V = EntryV;

    open spec fn deep_view(&self) -> EntryV {
        EntryV {
            id: self.id@,
            title: self.title@,
            author: self.author.deep_view(),
            updated: self.updated@,
            content: self.content@,
            media_content: self.media_content.deep_view(),
            link: self.link.deep_view(),
            summary: self.summary@,
        }
    }
}

/// The entry's update time re-rendered in the canonical item date format,
/// when the entry-log time parses and lies in the representable range.
pub open spec fn entry_updated_item_fmt(updated: Seq<char>) -> Option<Seq<char>> {
    match chrono_parse_secs(updated, "%Y-%m-%dT%T%.3fZ"@) {
        Some(ts) => chrono_format_secs(ts),
        None => None,
    }
}

/// The canonical item an entry converts to: identity from the entry id,
/// titles and bodies copied, and all timestamps set to the re-rendered
/// update time.
pub open spec fn entry_to_item(e: EntryV) -> ItemV {
    let pd = entry_updated_item_fmt(e.updated);
    ItemV {
        guid: e.id,
        title: Some(e.title),
        plain_title: Some(e.title),
        imageurl: None,
        link: Some(e.link.href),
        description: Some(e.summary),
        author: Some(e.author),
        pub_date: pd,
        create_date: None,
        update_date: pd,
        media_content: e.media_content,
        content_encoded: Some(e.content),
    }
}

impl Entry {
    /// The entry's update time in the canonical item date format.
    pub fn get_updated_time_as_item_format(&self) -> (r: Option<String>)
        ensures
            r.deep_view() == entry_updated_item_fmt(self.updated@),
    {
        let ts = parse_datetime_secs(self.updated.as_str(), "%Y-%m-%dT%T%.3fZ");
        match ts {
            Some(t) => format_datetime_secs(t, "%a, %d %h %Y %H:%M:%S %z"),
            None => None,
        }
    }

    /// Converts this entry into a canonical item.
    pub fn into_item(&self) -> (r: Item)
        ensures
            r.deep_view() == entry_to_item(self.deep_view()),
    {
        let pub_date = self.get_updated_time_as_item_format();
        let r = Item {
            guid: self.id.clone(),
            title: Some(self.title.clone()),
            plain_title: Some(self.title.clone()),
            imageurl: None,
            link: Some(self.link.href.clone()),
            description: Some(self.summary.clone()),
            pub_date: clone_opt_string(&pub_date),
            create_date: None,
            update_date: pub_date,
            media_content: clone_opt_media(&self.media_content),
            content_encoded: Some(self.content.clone()),
            author: Some(self.author.clone()),
        };
        proof {
            assert(r.deep_view() =~~= entry_to_item(self.deep_view()));
        }
        r
    }
}

/// An entry-log feed document.
pub struct Feed {
    pub id: String,
    pub title: String,
    pub subtitle: String,
    pub entry: Option<Vec<Entry>>,
    pub author: Author,
    pub updated: Option<String>,
}

/// Spec view of an entry-log feed document.
#[verifier::ext_equal]
pub ghost struct FeedV {
    pub id: Seq<char>,
    pub title: Seq<char>,
    pub subtitle: Seq<char>,
    pub entry: Option<Seq<EntryV>>,
    pub author: AuthorV,
    pub updated: Option<Seq<char>>,
}

impl DeepView for Feed {
    type V = FeedV;

    open spec fn deep_view(&self) -> FeedV {
        FeedV {
            id: self.id@,
            title: self.title@,
            subtitle: self.subtitle@,
            entry: self.entry.deep_view(),
            author: self.author.deep_view(),
            updated: self.updated.deep_view(),
        }
    }
}

/// The canonical items of a sequence of entries, in order.
pub open spec fn entries_to_items(es: Seq<EntryV>) -> Seq<ItemV> {
    es.map_values(|e: EntryV| entry_to_item(e))
}

/// The canonical feed an entry-log feed converts to: the channel title from
/// the feed title, the channel link from the feed author's URI, every entry
/// converted to an item, and the canonical namespace attributes.
pub open spec fn feed_to_rss(f: FeedV) -> RssV {
    RssV {
        channel: ChannelV {
            title: f.title,
            link: f.author.uri,
            item: entries_to_items(
                match f.entry {
                    Some(es) => es,
                    None => Seq::empty(),
                },
            ),
        },
        version: Some("2.0"@),
        webfeeds: Some("http://webfeeds.org/rss/1.0"@),
        media: Some("http://search.yahoo.com/mrss/"@),
        content: Some("http://purl.org/rss/1.0/modules/content/"@),
    }
}

impl Feed {
    /// Converts this entry-log feed into the canonical feed form.
    pub fn into_rss(&self) -> (r: Rss)
        ensures
            r.deep_view() == feed_to_rss(self.deep_view()),
    {
        let mut items: Vec<Item> = Vec::new();
        match &self.entry {
            Some(es) => {
                let mut i: usize = 0;
                while i < es.len()
                    invariant
                        i <= es.len(),
                        items.len() == i,
                        items.deep_view() =~= entries_to_items(es.deep_view().take(i as int)),
                    decreases es.len() - i,
                {
                    let ghost prev = items.deep_view();
                    let it = es[i].into_item();
                    items.push(it);
                    proof {
                        assert(items@.len() == i + 1);
                        assert forall|k: int| 0 <= k < i + 1 implies items.deep_view()[k]
                            == entries_to_items(es.deep_view().take(i + 1))[k] by {
                            if k < i {
                                assert(items.deep_view()[k] == prev[k]);
                            } else {
                                assert(items.deep_view()[k] == items@[k].deep_view());
                            }
                        }
                        assert(items.deep_view() =~= entries_to_items(es.deep_view().take(i + 1)));
                    }
                    i += 1;
                }
                proof {
                    assert(es.deep_view().take(es.len() as int) =~= es.deep_view());
                }
            },
            None => {
                proof {
                    assert(items.deep_view() =~= entries_to_items(Seq::<EntryV>::empty()));
                }
            },
        }
        let r = Rss {
            channel: Channel {
                title: self.title.clone(),
                link: self.author.uri.clone(),
                item: items,
            },
            version: Some(String::from_str("2.0")),
            webfeeds: Some(String::from_str("http://webfeeds.org/rss/1.0")),
            media: Some(String::from_str("http://search.yahoo.com/mrss/")),
            content: Some(String::from_str("http://purl.org/rss/1.0/modules/content/")),
        };
        proof {
            assert(r.deep_view() =~~= feed_to_rss(self.deep_view()));
        }
        r
    }
}

} // verus!
