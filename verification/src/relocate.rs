//! The media relocator's rewriting: once an asset has been fetched, every
//! reference to its remote URL is rewritten to the serving host's media
//! path. Fetching itself is I/O and stays outside; this module computes
//! paths and rewrites references.

use vstd::prelude::*;
use crate::scan::img_srcs;
use crate::scan::img_srcs_chars;
use crate::structs::{Item, ItemV, MediaContent, MediaV};
use crate::text::{from_chars, push_all, replace_all, replace_all_chars, to_chars};

verus! {

/// A fetched asset's URL rewritten to the serving host: the secure scheme
/// prefix replaced by the host's media path.
pub open spec fn relocated_url(url: Seq<char>, host: Seq<char>) -> Seq<char> {
    replace_all(url, "https://"@, host + "/media/"@)
}

/// The rewritten reference as it stands inside a body text: relocated, with
/// percent signs escaped.
pub open spec fn relocated_body_url(src: Seq<char>, host: Seq<char>) -> Seq<char> {
    replace_all(relocated_url(src, host), "%"@, "%25"@)
}

/// The local file name an asset is stored under: its URL with the scheme
/// prefix stripped.
pub open spec fn media_file_name(url: Seq<char>) -> Seq<char> {
    replace_all(replace_all(url, "https://"@, Seq::empty()), "http://"@, Seq::empty())
}

/// Rewrites a fetched asset's URL to the serving host.
pub fn relocate_url(url: &str, host: &str) -> (r: String)
    ensures
        r@ == relocated_url(url@, host@),
{
    proof {
        reveal_strlit("https://");
    }
    let uv = to_chars(url);
    let pat = to_chars("https://");
    let mut rep = to_chars(host);
    let tail = to_chars("/media/");
    push_all(&mut rep, &tail);
    let out = replace_all_chars(&uv, &pat, &rep);
    from_chars(&out)
}

/// The local file name an asset is stored under.
pub fn local_file_name(url: &str) -> (r: String)
    ensures
        r@ == media_file_name(url@),
{
    proof {
        reveal_strlit("https://");
        reveal_strlit("http://");
    }
    let uv = to_chars(url);
    let pat1 = to_chars("https://");
    let pat2 = to_chars("http://");
    let empty: Vec<char> = Vec::new();
    let step = replace_all_chars(&uv, &pat1, &empty);
    let out = replace_all_chars(&step, &pat2, &empty);
    from_chars(&out)
}

/// Ways of naming what to fetch: a URL stored under the default media
/// directory, or a URL with an explicit output directory.
pub enum DownloadImageOptions {
    Url(String),
    UrlAndOutputDir(String, String),
}

impl DownloadImageOptions {
    /// The URL to fetch and the directory to store under.
    pub fn resolve(self) -> (r: (String, String))
        ensures
            match self {
                DownloadImageOptions::Url(u) => r.0@ == u@ && r.1@ == "output/media/"@,
                DownloadImageOptions::UrlAndOutputDir(u, d) => r.0@ == u@ && r.1@ == d@,
            },
{
        match self {
            DownloadImageOptions::Url(url) => (url, String::from_str("output/media/")),
            DownloadImageOptions::UrlAndOutputDir(url, out_dir) => (url, out_dir),
        }
    }
}

impl Item {
    /// The source URLs of the image tags inside the body, in order.
    pub fn description_image_sources(&self) -> (r: Vec<String>)
        ensures
            r.deep_view() == (match self.deep_view().description {
                Some(d) => img_srcs(d),
                None => Seq::<Seq<char>>::empty(),
            }),
    {
        match &self.description {
            Some(d) => {
                let dv = to_chars(d.as_str());
                let found = img_srcs_chars(&dv);
                strings_of(found)
            },
            None => Vec::new(),
        }
    }

    /// The source URLs of the image tags inside the rich body, in order.
    pub fn content_image_sources(&self) -> (r: Vec<String>)
        ensures
            r.deep_view() == (match self.deep_view().content_encoded {
                Some(d) => img_srcs(d),
                None => Seq::<Seq<char>>::empty(),
            }),
    {
        match &self.content_encoded {
            Some(d) => {
                let dv = to_chars(d.as_str());
                let found = img_srcs_chars(&dv);
                strings_of(found)
            },
            None => Vec::new(),
        }
    }

    /// Rewrites one fetched structured asset's URL to the serving host; the
    /// other assets and fields stay as they were.
    pub fn relocate_media_url(&mut self, index: usize, host: &str)
        requires
            old(self).deep_view().media_content matches Some(l) && index < l.len(),
        ensures
            final(self).deep_view() == ({
                let old_v = old(self).deep_view();
                let l = old_v.media_content->Some_0;
                ItemV {
                    media_content: Some(
                        l.update(
                            index as int,
                            MediaV { url: relocated_url(l[index as int].url, host@), ..l[
                                index as int
                            ] },
                        ),
                    ),
                    ..old_v
                }
            }),
    {
        let ghost old_v = self.deep_view();
        match &mut self.media_content {
            Some(l) => {
                let mut rebuilt: Vec<MediaContent> = Vec::new();
                let mut i: usize = 0;
                let ghost lv = l.deep_view();
                while i < l.len()
                    invariant
                        i <= l.len(),
                        index < lv.len(),
                        lv == l.deep_view(),
                        l.len() == lv.len(),
                        rebuilt.len() == i,
                        rebuilt.deep_view() =~= lv.update(
                            index as int,
                            MediaV { url: relocated_url(lv[index as int].url, host@), ..lv[
                                index as int
                            ] },
                        ).take(i as int),
                    decreases l.len() - i,
                {
                    let ghost pre = rebuilt.deep_view();
                    if i == index {
                        let nu = relocate_url(l[i].url.as_str(), host);
                        let m = MediaContent {
                            url: nu,
                            description: crate::structs::clone_opt_string(&l[i].description),
                            mime_type: l[i].mime_type.clone(),
                            file_size: crate::structs::clone_opt_string(&l[i].file_size),
                            medium: l[i].medium.clone(),
                        };
                        rebuilt.push(m);
                    } else {
                        let m = l[i].clone();
                        rebuilt.push(m);
                    }
                    proof {
                        assert(rebuilt@.len() == i + 1);
                        assert forall|k: int| 0 <= k < i + 1 implies rebuilt.deep_view()[k]
                            == lv.update(
                            index as int,
                            MediaV { url: relocated_url(lv[index as int].url, host@), ..lv[
                                index as int
                            ] },
                        ).take(i + 1)[k] by {
                            if k < i {
                                assert(rebuilt.deep_view()[k] == pre[k]);
                            } else {
                                assert(rebuilt.deep_view()[k] == rebuilt@[k].deep_view());
                            }
                        }
                        assert(rebuilt.deep_view() =~= lv.update(
                            index as int,
                            MediaV { url: relocated_url(lv[index as int].url, host@), ..lv[
                                index as int
                            ] },
                        ).take(i + 1));
                    }
                    i += 1;
                }
                proof {
                    let target = lv.update(
                        index as int,
                        MediaV { url: relocated_url(lv[index as int].url, host@), ..lv[
                            index as int
                        ] },
                    );
                    assert(target.take(target.len() as int) =~= target);
                }
                *l = rebuilt;
            },
            None => {
                proof {
                    assert(false);
                }
            },
        }
        proof {
            assert(self.deep_view() =~~= ({
                let l = old_v.media_content->Some_0;
                ItemV {
                    media_content: Some(
                        l.update(
                            index as int,
                            MediaV { url: relocated_url(l[index as int].url, host@), ..l[
                                index as int
                            ] },
                        ),
                    ),
                    ..old_v
                }
            }));
        }
    }

    /// Rewrites every occurrence of a fetched image source inside the body
    /// to its relocated, percent-escaped form; other fields stay as they
    /// were.
    pub fn rewrite_description_image(&mut self, src: &str, host: &str)
        requires
            src@.len() > 0,
        ensures
            final(self).deep_view() == ({
                let old_v = old(self).deep_view();
                ItemV {
                    description: match old_v.description {
                        Some(d) => Some(
                            replace_all(d, src@, relocated_body_url(src@, host@)),
                        ),
                        None => None,
                    },
                    ..old_v
                }
            }),
    {
        let ghost old_v = self.deep_view();
        match &self.description {
            Some(d) => {
                proof {
                    reveal_strlit("%");
                }
                let dv = to_chars(d.as_str());
                let pat = to_chars(src);
                let relocated = relocate_url(src, host);
                let rv = to_chars(relocated.as_str());
                let pct = to_chars("%");
                let pct25 = to_chars("%25");
                let escaped = replace_all_chars(&rv, &pct, &pct25);
                let out = replace_all_chars(&dv, &pat, &escaped);
                self.description = Some(from_chars(&out));
            },
            None => {},
        }
        proof {
            assert(self.deep_view() =~~= ItemV {
                description: match old_v.description {
                    Some(d) => Some(replace_all(d, src@, relocated_body_url(src@, host@))),
                    None => None,
                },
                ..old_v
            });
        }
    }

    /// Rewrites every occurrence of a fetched image source inside the rich
    /// body to its relocated form; other fields stay as they were.
    pub fn rewrite_content_image(&mut self, src: &str, host: &str)
        requires
            src@.len() > 0,
        ensures
            final(self).deep_view() == ({
                let old_v = old(self).deep_view();
                ItemV {
                    content_encoded: match old_v.content_encoded {
                        Some(d) => Some(replace_all(d, src@, relocated_url(src@, host@))),
                        None => None,
                    },
                    ..old_v
                }
            }),
    {
        let ghost old_v = self.deep_view();
        match &self.content_encoded {
            Some(d) => {
                let dv = to_chars(d.as_str());
                let pat = to_chars(src);
                let relocated = relocate_url(src, host);
                let rv = to_chars(relocated.as_str());
                let out = replace_all_chars(&dv, &pat, &rv);
                self.content_encoded = Some(from_chars(&out));
            },
            None => {},
        }
        proof {
            assert(self.deep_view() =~~= ItemV {
                content_encoded: match old_v.content_encoded {
                    Some(d) => Some(replace_all(d, src@, relocated_url(src@, host@))),
                    None => None,
                },
                ..old_v
            });
        }
    }
}

/// Turns found character sequences into strings.
fn strings_of(v: Vec<Vec<char>>) -> (r: Vec<String>)
    ensures
        r.deep_view() == v.deep_view(),
{
    let mut r: Vec<String> = Vec::new();
    let mut i: usize = 0;
    while i < v.len()
        invariant
            i <= v.len(),
            r.len() == i,
            r.deep_view() =~= v.deep_view().take(i as int),
        decreases v.len() - i,
    {
        let ghost pre = r.deep_view();
        let s = from_chars(&v[i]);
        r.push(s);
        proof {
            assert(r@.len() == i + 1);
            assert forall|k: int| 0 <= k < i + 1 implies r.deep_view()[k] == v.deep_view().take(
                i + 1,
            )[k] by {
                if k < i {
                    assert(r.deep_view()[k] == pre[k]);
                } else {
                    assert(r.deep_view()[k] == r@[k].deep_view());
                }
            }
            assert(r.deep_view() =~= v.deep_view().take(i + 1));
        }
        i += 1;
    }
    proof {
        assert(v.deep_view().take(v.len() as int) =~= v.deep_view());
    }
    r
}

} // verus!
