//! Serialization of the canonical feed form to its XML wire text: escaped
//! text elements in declared order, attributes on the feed element, and no
//! element at all for an absent optional field.

use vstd::prelude::*;
use crate::scan::{xml_escape, xml_escape_chars};
use crate::structs::{Author, AuthorV, Item, ItemV, MediaContent, MediaV, RssV};
use crate::text::{push_all, push_str_chars, to_chars};

verus! {

/// `<name>content</name>`.
pub open spec fn elem(name: Seq<char>, content: Seq<char>) -> Seq<char> {
    seq!['<'] + name + seq!['>'] + content + seq!['<', '/'] + name + seq!['>']
}

/// An element holding escaped text content.
pub open spec fn text_elem(name: Seq<char>, content: Seq<char>) -> Seq<char> {
    elem(name, xml_escape(content))
}

/// An optional text element: absent fields emit nothing, not an empty
/// element.
pub open spec fn opt_text_elem(name: Seq<char>, content: Option<Seq<char>>) -> Seq<char> {
    match content {
        Some(c) => text_elem(name, c),
        None => Seq::empty(),
    }
}

/// ` name="value"` with the value escaped.
pub open spec fn attr(name: Seq<char>, value: Seq<char>) -> Seq<char> {
    seq![' '] + name + seq!['=', '"'] + xml_escape(value) + seq!['"']
}

/// An optional attribute: absent values emit nothing.
pub open spec fn opt_attr(name: Seq<char>, value: Option<Seq<char>>) -> Seq<char> {
    match value {
        Some(v) => attr(name, v),
        None => Seq::empty(),
    }
}

/// The author element: name and uri as text elements.
pub open spec fn xml_of_author(a: Option<AuthorV>) -> Seq<char> {
    match a {
        Some(a) => "<author>"@ + text_elem("name"@, a.name) + text_elem("uri"@, a.uri)
            + "</author>"@,
        None => Seq::empty(),
    }
}

/// One media element: its reference data as attributes, its description as
/// a child element.
pub open spec fn xml_of_media(m: MediaV) -> Seq<char> {
    "<media:content"@ + attr("url"@, m.url) + attr("type"@, m.mime_type) + opt_attr(
        "fileSize"@,
        m.file_size,
    ) + attr("medium"@, m.medium) + ">"@ + opt_text_elem("media:description"@, m.description)
        + "</media:content>"@
}

/// The media elements of a list, in order.
pub open spec fn xml_of_media_seq(ms: Seq<MediaV>) -> Seq<char>
    decreases ms.len(),
{
    if ms.len() == 0 {
        Seq::empty()
    } else {
        xml_of_media(ms[0]) + xml_of_media_seq(ms.skip(1))
    }
}

/// The media elements of an optional list.
pub open spec fn xml_of_media_list(ms: Option<Seq<MediaV>>) -> Seq<char> {
    match ms {
        Some(l) => xml_of_media_seq(l),
        None => Seq::empty(),
    }
}

/// One item element, fields in declared order; absent fields are omitted.
pub open spec fn xml_of_item(it: ItemV) -> Seq<char> {
    "<item>"@ + text_elem("guid"@, it.guid) + opt_text_elem("title"@, it.title) + opt_text_elem(
        "plainTitle"@,
        it.plain_title,
    ) + opt_text_elem("imageurl"@, it.imageurl) + opt_text_elem("link"@, it.link) + opt_text_elem(
        "description"@,
        it.description,
    ) + xml_of_author(it.author) + opt_text_elem("pubDate"@, it.pub_date) + opt_text_elem(
        "createDate"@,
        it.create_date,
    ) + opt_text_elem("updateDate"@, it.update_date) + xml_of_media_list(it.media_content)
        + opt_text_elem("content:encoded"@, it.content_encoded) + "</item>"@
}

/// The item elements of a sequence, in order.
pub open spec fn xml_of_items(items: Seq<ItemV>) -> Seq<char>
    decreases items.len(),
{
    if items.len() == 0 {
        Seq::empty()
    } else {
        xml_of_item(items[0]) + xml_of_items(items.skip(1))
    }
}

/// The whole feed element: namespace attributes, then the channel with its
/// title, link and items.
pub open spec fn xml_of_rss(r: RssV) -> Seq<char> {
    "<rss"@ + opt_attr("version"@, r.version) + opt_attr("xmlns:webfeeds"@, r.webfeeds)
        + opt_attr("xmlns:media"@, r.media) + opt_attr("xmlns:content"@, r.content) + ">"@
        + "<channel>"@ + text_elem("title"@, r.channel.title) + text_elem("link"@, r.channel.link)
        + xml_of_items(r.channel.item) + "</channel></rss>"@
}

/// The complete output document: prolog plus feed element.
pub open spec fn xml_document(r: RssV) -> Seq<char> {
    "<?xml version=\"1.0\" encoding=\"UTF-8\"?>"@ + xml_of_rss(r)
}

/// Appends `<name>`, the escaped content, and `</name>`.
pub fn push_text_elem(out: &mut Vec<char>, name: &str, content: &Vec<char>)
    ensures
        final(out)@ == old(out)@ + text_elem(name@, content@),
{
    let ghost orig = out@;
    out.push('<');
    push_str_chars(out, name);
    out.push('>');
    let e = xml_escape_chars(content);
    push_all(out, &e);
    out.push('<');
    out.push('/');
    push_str_chars(out, name);
    out.push('>');
    proof {
        assert(out@ =~= orig + text_elem(name@, content@));
    }
}

/// Appends the element for a present optional text field, nothing for an
/// absent one.
pub fn push_opt_text_elem(out: &mut Vec<char>, name: &str, content: &Option<String>)
    ensures
        final(out)@ == old(out)@ + opt_text_elem(name@, content.deep_view()),
{
    match content {
        Some(c) => {
            let cv = to_chars(c.as_str());
            push_text_elem(out, name, &cv);
        },
        None => {
            proof {
                assert(out@ =~= out@ + opt_text_elem(name@, content.deep_view()));
            }
        },
    }
}

/// Appends ` name="value"` with the value escaped.
pub fn push_attr(out: &mut Vec<char>, name: &str, value: &Vec<char>)
    ensures
        final(out)@ == old(out)@ + attr(name@, value@),
{
    let ghost orig = out@;
    out.push(' ');
    push_str_chars(out, name);
    out.push('=');
    out.push('"');
    let e = xml_escape_chars(value);
    push_all(out, &e);
    out.push('"');
    proof {
        assert(out@ =~= orig + attr(name@, value@));
    }
}

/// Appends the attribute for a present optional value, nothing for an
/// absent one.
pub fn push_opt_attr(out: &mut Vec<char>, name: &str, value: &Option<String>)
    ensures
        final(out)@ == old(out)@ + opt_attr(name@, value.deep_view()),
{
    match value {
        Some(v) => {
            let vv = to_chars(v.as_str());
            push_attr(out, name, &vv);
        },
        None => {
            proof {
                assert(out@ =~= out@ + opt_attr(name@, value.deep_view()));
            }
        },
    }
}

/// Appends the author element when an author is present.
pub fn push_author(out: &mut Vec<char>, a: &Option<Author>)
    ensures
        final(out)@ == old(out)@ + xml_of_author(a.deep_view()),
{
    match a {
        Some(author) => {
            let ghost orig = out@;
            push_str_chars(out, "<author>");
            let nv = to_chars(author.name.as_str());
            push_text_elem(out, "name", &nv);
            let uv = to_chars(author.uri.as_str());
            push_text_elem(out, "uri", &uv);
            push_str_chars(out, "</author>");
            proof {
                assert(out@ =~= orig + xml_of_author(a.deep_view()));
            }
        },
        None => {
            proof {
                assert(out@ =~= out@ + xml_of_author(a.deep_view()));
            }
        },
    }
}

/// Appends one media element.
pub fn push_media(out: &mut Vec<char>, m: &MediaContent)
    ensures
        final(out)@ == old(out)@ + xml_of_media(m.deep_view()),
{
    let ghost orig = out@;
    push_str_chars(out, "<media:content");
    let uv = to_chars(m.url.as_str());
    push_attr(out, "url", &uv);
    let tv = to_chars(m.mime_type.as_str());
    push_attr(out, "type", &tv);
    push_opt_attr(out, "fileSize", &m.file_size);
    let mv = to_chars(m.medium.as_str());
    push_attr(out, "medium", &mv);
    push_str_chars(out, ">");
    push_opt_text_elem(out, "media:description", &m.description);
    push_str_chars(out, "</media:content>");
    proof {
        assert(out@ =~= orig + xml_of_media(m.deep_view()));
    }
}

/// Appends the media elements of an optional list.
pub fn push_media_list(out: &mut Vec<char>, ms: &Option<Vec<MediaContent>>)
    ensures
        final(out)@ == old(out)@ + xml_of_media_list(ms.deep_view()),
{
    match ms {
        Some(l) => {
            let ghost orig = out@;
            let ghost lv = l.deep_view();
            let mut i: usize = 0;
            proof {
                assert(lv.skip(0) =~= lv);
            }
            while i < l.len()
                invariant
                    i <= l.len(),
                    lv == l.deep_view(),
                    l.len() == lv.len(),
                    orig + xml_of_media_seq(lv) == out@ + xml_of_media_seq(lv.skip(i as int)),
                decreases l.len() - i,
            {
                let ghost rem = lv.skip(i as int);
                push_media(out, &l[i]);
                proof {
                    assert(rem[0] == lv[i as int]);
                    assert(rem.skip(1) =~= lv.skip(i + 1));
                    assert(xml_of_media_seq(rem) == xml_of_media(lv[i as int]) + xml_of_media_seq(
                        lv.skip(i + 1),
                    ));
                }
                i += 1;
            }
            proof {
                assert(lv.skip(lv.len() as int) =~= Seq::<MediaV>::empty());
                assert(xml_of_media_seq(Seq::<MediaV>::empty()) == Seq::<char>::empty());
                assert(out@ + Seq::<char>::empty() =~= out@);
            }
        },
        None => {
            proof {
                assert(out@ =~= out@ + xml_of_media_list(ms.deep_view()));
            }
        },
    }
}

/// Appends one item element.
pub fn push_item(out: &mut Vec<char>, it: &Item)
    ensures
        final(out)@ == old(out)@ + xml_of_item(it.deep_view()),
{
    let ghost orig = out@;
    push_str_chars(out, "<item>");
    let gv = to_chars(it.guid.as_str());
    push_text_elem(out, "guid", &gv);
    push_opt_text_elem(out, "title", &it.title);
    push_opt_text_elem(out, "plainTitle", &it.plain_title);
    push_opt_text_elem(out, "imageurl", &it.imageurl);
    push_opt_text_elem(out, "link", &it.link);
    push_opt_text_elem(out, "description", &it.description);
    push_author(out, &it.author);
    push_opt_text_elem(out, "pubDate", &it.pub_date);
    push_opt_text_elem(out, "createDate", &it.create_date);
    push_opt_text_elem(out, "updateDate", &it.update_date);
    push_media_list(out, &it.media_content);
    push_opt_text_elem(out, "content:encoded", &it.content_encoded);
    push_str_chars(out, "</item>");
    proof {
        assert(out@ =~= orig + xml_of_item(it.deep_view()));
    }
}

/// Appends every item element, in order.
pub fn push_items(out: &mut Vec<char>, items: &Vec<Item>)
    ensures
        final(out)@ == old(out)@ + xml_of_items(items.deep_view()),
{
    let ghost orig = out@;
    let ghost iv = items.deep_view();
    let mut i: usize = 0;
    proof {
        assert(iv.skip(0) =~= iv);
    }
    while i < items.len()
        invariant
            i <= items.len(),
            iv == items.deep_view(),
            items.len() == iv.len(),
            orig + xml_of_items(iv) == out@ + xml_of_items(iv.skip(i as int)),
        decreases items.len() - i,
    {
        let ghost rem = iv.skip(i as int);
        push_item(out, &items[i]);
        proof {
            assert(rem[0] == iv[i as int]);
            assert(rem.skip(1) =~= iv.skip(i + 1));
            assert(xml_of_items(rem) == xml_of_item(iv[i as int]) + xml_of_items(iv.skip(i + 1)));
        }
        i += 1;
    }
    proof {
        assert(iv.skip(iv.len() as int) =~= Seq::<ItemV>::empty());
        assert(xml_of_items(Seq::<ItemV>::empty()) == Seq::<char>::empty());
        assert(out@ + Seq::<char>::empty() =~= out@);
    }
}

} // verus!
