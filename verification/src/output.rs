//! The output synthesizer: fills missing authors, titles and rich bodies
//! per the store's policy, injects unreferenced media into rich bodies,
//! sorts the combined timeline most recent first, truncates it, and
//! serializes the result to the canonical XML wire form.

use vstd::prelude::*;
use crate::scan::strip_tags;
use crate::sort::{sort_desc, sort_items_by_published};
use crate::structs::{Author, AuthorV, Db, DbV, Item, ItemV, MediaV, RssV, ChannelV, media_html,
    clone_opt_string};
use crate::text::{contains_sub, contains_chars, join_char, join_upto, push_all, replace_all,
    replace_all_chars, split_char, split_chars, to_chars, from_chars, trim, trim_chars};
use crate::scan::strip_tags_chars;
use crate::xml::{push_attr, push_items, push_text_elem, xml_document};

verus! {

// ---------------------------------------------------------------------------
// Title synthesis
// ---------------------------------------------------------------------------

/// The title derived from a body: markup stripped, the apostrophe entity
/// unescaped, and the text cut to the first `n` whitespace-separated words
/// with the ellipsis appended when more words follow.
pub open spec fn synth_title(d: Seq<char>, n: int, ellipsis: Seq<char>) -> Seq<char> {
    let text = replace_all(strip_tags(d), "&#39;"@, "'"@);
    let parts = split_char(text, ' ');
    if 0 <= n < parts.len() {
        trim(join_char(parts.take(n), ' ')) + ellipsis
    } else {
        text
    }
}

/// Derives a title from a body text.
pub fn synth_title_chars(d: &Vec<char>, n: i32, ellipsis: &Vec<char>) -> (r: Vec<char>)
    ensures
        r@ == synth_title(d@, n as int, ellipsis@),
{
    let stripped = strip_tags_chars(d);
    proof {
        reveal_strlit("&#39;");
    }
    let pat = to_chars("&#39;");
    let rep = to_chars("'");
    let text = replace_all_chars(&stripped, &pat, &rep);
    let parts = split_chars(&text, ' ');
    if n >= 0 && parts.len() > (n as usize) {
        let joined = join_upto(&parts, n as usize, ' ');
        let mut out = trim_chars(&joined);
        push_all(&mut out, ellipsis);
        out
    } else {
        text
    }
}

// ---------------------------------------------------------------------------
// Item synthesis
// ---------------------------------------------------------------------------

/// The item with its author filled from the owning source when it has none
/// or the store overrides authors.
pub open spec fn fill_author(
    it: ItemV,
    src_title: Seq<char>,
    src_link: Seq<char>,
    override_author: bool,
) -> ItemV {
    if it.author is None || override_author {
        ItemV { author: Some(AuthorV { name: src_title, uri: src_link }), ..it }
    } else {
        it
    }
}

/// The item with a title derived from its body when it has none and the
/// store's policy asks for one.
pub open spec fn fill_title(it: ItemV, enabled: bool, n: int, ellipsis: Seq<char>) -> ItemV {
    if it.title is None && enabled {
        ItemV {
            title: match it.description {
                Some(d) => Some(synth_title(d, n, ellipsis)),
                None => None,
            },
            ..it
        }
    } else {
        it
    }
}

/// The item with its body copied into the rich body when the rich body is
/// absent and the store's policy asks for it.
pub open spec fn fill_content(it: ItemV, enabled: bool) -> ItemV {
    if it.content_encoded is None && enabled {
        ItemV { content_encoded: it.description, ..it }
    } else {
        it
    }
}

/// The HTML fragments of the media assets whose URL does not already occur
/// in the rich body, in order.
pub open spec fn media_fragments(ms: Seq<MediaV>, ce: Seq<char>) -> Seq<Seq<char>>
    decreases ms.len(),
{
    if ms.len() == 0 {
        Seq::empty()
    } else {
        let rest = media_fragments(ms.skip(1), ce);
        if !contains_sub(ce, ms[0].url) {
            seq![media_html(ms[0])] + rest
        } else {
            rest
        }
    }
}

/// The item with unreferenced media rendered and appended to its rich body
/// after a line break, when it has a rich body and the store's policy asks
/// for it.
pub open spec fn inject_media(it: ItemV, enabled: bool) -> ItemV {
    match it.content_encoded {
        Some(ce) => if enabled {
            let frags = match it.media_content {
                Some(ms) => media_fragments(ms, ce),
                None => Seq::empty(),
            };
            ItemV { content_encoded: Some(ce + "<br>"@ + join_char(frags, ' ')), ..it }
        } else {
            it
        },
        None => it,
    }
}

/// One item as the output synthesizer emits it, given its owning source's
/// title and link and the store's policy.
pub open spec fn synth_item_v(
    it: ItemV,
    src_title: Seq<char>,
    src_link: Seq<char>,
    db: DbV,
) -> ItemV {
    inject_media(
        fill_content(
            fill_title(
                fill_author(it, src_title, src_link, db.override_item_author),
                db.include_description_as_title_if_none_given,
                db.description_title_word_count,
                db.title_ellipsis,
            ),
            db.populate_content_encoded,
        ),
        db.add_media_to_content_encoded,
    )
}

/// Synthesizes the output form of one item.
pub fn synth_item(it: &Item, src_title: &String, src_link: &String, db: &Db) -> (r: Item)
    ensures
        r.deep_view() == synth_item_v(it.deep_view(), src_title@, src_link@, db.deep_view()),
{
    let ghost v0 = it.deep_view();
    let ghost dbv = db.deep_view();
    let mut r = it.clone();
    if r.author.is_none() || db.override_item_author {
        r.author = Some(Author { name: src_title.clone(), uri: src_link.clone() });
    }
    let ghost v1 = fill_author(v0, src_title@, src_link@, dbv.override_item_author);
    proof {
        assert(r.deep_view() =~~= v1);
    }
    if r.title.is_none() && db.include_description_as_title_if_none_given {
        r.title = match &r.description {
            Some(d) => {
                let dv = to_chars(d.as_str());
                let ev = to_chars(db.title_ellipsis.as_str());
                let tv = synth_title_chars(&dv, db.description_title_word_count, &ev);
                Some(from_chars(&tv))
            },
            None => None,
        };
    }
    let ghost v2 = fill_title(
        v1,
        dbv.include_description_as_title_if_none_given,
        dbv.description_title_word_count,
        dbv.title_ellipsis,
    );
    proof {
        assert(r.deep_view() =~~= v2);
    }
    if r.content_encoded.is_none() && db.populate_content_encoded {
        r.content_encoded = clone_opt_string(&r.description);
    }
    let ghost v3 = fill_content(v2, dbv.populate_content_encoded);
    proof {
        assert(r.deep_view() =~~= v3);
    }
    if r.content_encoded.is_some() && db.add_media_to_content_encoded {
        let ce: Vec<char> = match &r.content_encoded {
            Some(c) => to_chars(c.as_str()),
            None => Vec::new(),
        };
        let mut frags: Vec<Vec<char>> = Vec::new();
        match &r.media_content {
            Some(ms) => {
                let ghost msv = ms.deep_view();
                let mut i: usize = 0;
                proof {
                    assert(msv.skip(0) =~= msv);
                    assert(Seq::<Seq<char>>::empty() + media_fragments(msv, ce@)
                        =~= media_fragments(msv, ce@));
                }
                while i < ms.len()
                    invariant
                        i <= ms.len(),
                        msv == ms.deep_view(),
                        ms.len() == msv.len(),
                        media_fragments(msv, ce@) == frags.deep_view() + media_fragments(
                            msv.skip(i as int),
                            ce@,
                        ),
                    decreases ms.len() - i,
                {
                    let ghost pre = frags.deep_view();
                    let ghost rem = msv.skip(i as int);
                    proof {
                        assert(rem[0] == msv[i as int]);
                        assert(rem.skip(1) =~= msv.skip(i + 1));
                    }
                    let url = to_chars(ms[i].url.as_str());
                    if !contains_chars(&ce, &url) {
                        let h = ms[i].into_html();
                        let hv = to_chars(h.as_str());
                        frags.push(hv);
                        proof {
                            assert(frags.deep_view() =~~= pre.push(media_html(msv[i as int])));
                            assert(pre + (seq![media_html(msv[i as int])] + media_fragments(
                                msv.skip(i + 1),
                                ce@,
                            )) =~= pre.push(media_html(msv[i as int])) + media_fragments(
                                msv.skip(i + 1),
                                ce@,
                            ));
                        }
                    }
                    i += 1;
                }
                proof {
                    assert(msv.skip(msv.len() as int) =~= Seq::<MediaV>::empty());
                    assert(media_fragments(Seq::<MediaV>::empty(), ce@) == Seq::<Seq<
                        char,
                    >>::empty());
                    assert(frags.deep_view() + Seq::<Seq<char>>::empty() =~= frags.deep_view());
                }
            },
            None => {
                proof {
                    assert(frags.deep_view() =~= Seq::<Seq<char>>::empty());
                }
            },
        }
        let joined = join_upto(&frags, frags.len(), ' ');
        proof {
            assert(frags.deep_view().take(frags.len() as int) =~= frags.deep_view());
        }
        let mut outc = ce;
        crate::text::push_str_chars(&mut outc, "<br>");
        push_all(&mut outc, &joined);
        r.content_encoded = Some(from_chars(&outc));
    }
    proof {
        assert(r.deep_view() =~~= inject_media(v3, dbv.add_media_to_content_encoded));
    }
    r
}

// ---------------------------------------------------------------------------
// The combined timeline
// ---------------------------------------------------------------------------

/// The synthesized output forms of a source's items, in order.
pub open spec fn synth_list(items: Seq<ItemV>, t: Seq<char>, l: Seq<char>, db: DbV) -> Seq<
    ItemV,
> {
    items.map_values(|it: ItemV| synth_item_v(it, t, l, db))
}

/// Every stored source's synthesized items, flattened in source order.
pub open spec fn all_items(slots: Seq<crate::structs::FeedSourceV>, db: DbV) -> Seq<ItemV>
    decreases slots.len(),
{
    if slots.len() == 0 {
        Seq::empty()
    } else {
        synth_list(
            slots[0].options.rss.channel.item,
            slots[0].options.title,
            slots[0].options.link,
            db,
        ) + all_items(slots.skip(1), db)
    }
}

/// The timeline cut to `max` leading items when `max` is positive;
/// non-positive `max` keeps everything.
pub open spec fn truncate_items(s: Seq<ItemV>, max: int) -> Seq<ItemV> {
    if max > 0 && s.len() > max {
        s.take(max)
    } else {
        s
    }
}

/// The complete output feed of a store: every source's items synthesized,
/// sorted most recent first, truncated per policy, under the store's own
/// title and link and the canonical namespace attributes.
pub open spec fn output_feed(db: DbV) -> RssV {
    RssV {
        channel: ChannelV {
            title: db.title,
            link: db.link,
            item: truncate_items(sort_desc(all_items(db.rss, db)), db.max_entries_published),
        },
        version: Some("2.0"@),
        webfeeds: Some("http://webfeeds.org/rss/1.0"@),
        media: Some("http://search.yahoo.com/mrss/"@),
        content: Some("http://purl.org/rss/1.0/modules/content/"@),
    }
}

impl Db {
    /// Serializes the store's combined, synthesized, sorted and truncated
    /// timeline as the complete canonical XML output document. A store
    /// with no items yields a well-formed document with an empty channel.
    pub fn output_rss(&self) -> (r: String)
        ensures
            r@ == xml_document(output_feed(self.deep_view())),
    {
        let ghost dbv = self.deep_view();
        let ghost slots = self.rss.deep_view();
        let mut items: Vec<Item> = Vec::new();
        let mut s: usize = 0;
        proof {
            assert(slots.skip(0) =~= slots);
            assert(Seq::<ItemV>::empty() + all_items(slots, dbv) =~= all_items(slots, dbv));
        }
        while s < self.rss.len()
            invariant
                s <= self.rss.len(),
                dbv == self.deep_view(),
                slots == self.rss.deep_view(),
                self.rss.len() == slots.len(),
                all_items(slots, dbv) == items.deep_view() + all_items(
                    slots.skip(s as int),
                    dbv,
                ),
            decreases self.rss.len() - s,
        {
            let ghost rem = slots.skip(s as int);
            let ghost pre = items.deep_view();
            let slot = &self.rss[s];
            let ghost iv = slot.options.rss.channel.item.deep_view();
            proof {
                assert(rem[0] == slots[s as int]);
                assert(rem.skip(1) =~= slots.skip(s + 1));
                assert(all_items(rem, dbv) == synth_list(
                    iv,
                    slot.options.title@,
                    slot.options.link@,
                    dbv,
                ) + all_items(slots.skip(s + 1), dbv));
            }
            let src = &slot.options.rss.channel.item;
            let mut i: usize = 0;
            while i < src.len()
                invariant
                    i <= src.len(),
                    dbv == self.deep_view(),
                    iv == src.deep_view(),
                    src.len() == iv.len(),
                    items.len() >= i,
                    items.deep_view() =~= pre + synth_list(
                        iv.take(i as int),
                        slot.options.title@,
                        slot.options.link@,
                        dbv,
                    ),
                decreases src.len() - i,
            {
                let ghost mid = items.deep_view();
                let n = synth_item(&src[i], &slot.options.title, &slot.options.link, self);
                items.push(n);
                proof {
                    assert(items@.len() == mid.len() + 1);
                    assert forall|k: int| 0 <= k < items@.len() implies items.deep_view()[k] == (
                    pre + synth_list(
                        iv.take(i + 1),
                        slot.options.title@,
                        slot.options.link@,
                        dbv,
                    ))[k] by {
                        if k < mid.len() {
                            assert(items.deep_view()[k] == mid[k]);
                        } else {
                            assert(items.deep_view()[k] == items@[k].deep_view());
                        }
                    }
                    assert(items.deep_view() =~= pre + synth_list(
                        iv.take(i + 1),
                        slot.options.title@,
                        slot.options.link@,
                        dbv,
                    ));
                }
                i += 1;
            }
            proof {
                assert(iv.take(iv.len() as int) =~= iv);
                assert(pre + synth_list(iv, slot.options.title@, slot.options.link@, dbv)
                    + all_items(slots.skip(s + 1), dbv) =~= pre + (synth_list(
                    iv,
                    slot.options.title@,
                    slot.options.link@,
                    dbv,
                ) + all_items(slots.skip(s + 1), dbv)));
            }
            s += 1;
        }
        proof {
            assert(slots.skip(slots.len() as int) =~= Seq::<crate::structs::FeedSourceV>::empty());
            assert(all_items(Seq::<crate::structs::FeedSourceV>::empty(), dbv) == Seq::<
                ItemV,
            >::empty());
            assert(items.deep_view() + Seq::<ItemV>::empty() =~= items.deep_view());
        }
        let mut sorted = sort_items_by_published(&items);
        if self.max_entries_published > 0 && sorted.len() > (self.max_entries_published as usize) {
            sorted.truncate(self.max_entries_published as usize);
            proof {
                assert forall|k: int| 0 <= k < sorted@.len() implies sorted.deep_view()[k]
                    == sort_desc(all_items(slots, dbv)).take(dbv.max_entries_published)[k] by {
                    assert(sorted.deep_view()[k] == sorted@[k].deep_view());
                }
                assert(sorted.deep_view() =~= truncate_items(
                    sort_desc(all_items(slots, dbv)),
                    dbv.max_entries_published,
                ));
            }
        }
        proof {
            assert(sorted.deep_view() == truncate_items(
                sort_desc(all_items(slots, dbv)),
                dbv.max_entries_published,
            ));
        }
        let mut out: Vec<char> = Vec::new();
        crate::text::push_str_chars(&mut out, "<?xml version=\"1.0\" encoding=\"UTF-8\"?>");
        crate::text::push_str_chars(&mut out, "<rss");
        let two = to_chars("2.0");
        push_attr(&mut out, "version", &two);
        let wf = to_chars("http://webfeeds.org/rss/1.0");
        push_attr(&mut out, "xmlns:webfeeds", &wf);
        let me = to_chars("http://search.yahoo.com/mrss/");
        push_attr(&mut out, "xmlns:media", &me);
        let co = to_chars("http://purl.org/rss/1.0/modules/content/");
        push_attr(&mut out, "xmlns:content", &co);
        crate::text::push_str_chars(&mut out, ">");
        crate::text::push_str_chars(&mut out, "<channel>");
        let tv = to_chars(self.title.as_str());
        push_text_elem(&mut out, "title", &tv);
        let lv = to_chars(self.link.as_str());
        push_text_elem(&mut out, "link", &lv);
        push_items(&mut out, &sorted);
        crate::text::push_str_chars(&mut out, "</channel></rss>");
        proof {
            assert(out@ =~= xml_document(output_feed(dbv)));
        }
        from_chars(&out)
    }
}

} // verus!
