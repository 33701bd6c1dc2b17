//! Markup scanners: XML text escaping, tag stripping for title synthesis,
//! the tag-name repair pass applied to raw feed text before parsing, and
//! extraction of image sources from HTML fragments.

use vstd::prelude::*;
use crate::text::{find_char, find_char_from, find_sub, find_sub_chars, lemma_find_sub, match_at,
    push_all, replace_all, replace_all_chars, starts_with, starts_with_chars, sub_at, sub_vec,
    to_chars, from_chars};

verus! {

// ---------------------------------------------------------------------------
// XML escaping
// ---------------------------------------------------------------------------

/// The escape sequence emitted for one character of XML text content.
pub open spec fn esc_char(c: char) -> Seq<char> {
    if c == '&' {
        seq!['&', 'a', 'm', 'p', ';']
    } else if c == '<' {
        seq!['&', 'l', 't', ';']
    } else if c == '>' {
        seq!['&', 'g', 't', ';']
    } else if c == '"' {
        seq!['&', 'q', 'u', 'o', 't', ';']
    } else if c == '\'' {
        seq!['&', 'a', 'p', 'o', 's', ';']
    } else {
        seq![c]
    }
}

/// `s` with every markup-significant character replaced by its escape
/// sequence.
pub open spec fn xml_escape(s: Seq<char>) -> Seq<char>
    decreases s.len(),
{
    if s.len() == 0 {
        Seq::empty()
    } else {
        esc_char(s[0]) + xml_escape(s.skip(1))
    }
}

/// Escaping one more character appends its escape sequence.
pub proof fn lemma_xml_escape_snoc(a: Seq<char>, x: char)
    ensures
        xml_escape(a.push(x)) == xml_escape(a) + esc_char(x),
    decreases a.len(),
{
    if a.len() == 0 {
        assert(a.push(x)[0] == x);
        assert(a.push(x).skip(1) =~= Seq::<char>::empty());
        assert(xml_escape(Seq::<char>::empty()) == Seq::<char>::empty());
        assert(xml_escape(a.push(x)) =~= esc_char(x));
        assert(xml_escape(a) + esc_char(x) =~= esc_char(x));
    } else {
        lemma_xml_escape_snoc(a.skip(1), x);
        assert(a.push(x).skip(1) =~= a.skip(1).push(x));
        assert(a.push(x)[0] == a[0]);
        assert(esc_char(a[0]) + (xml_escape(a.skip(1)) + esc_char(x)) =~= (esc_char(a[0])
            + xml_escape(a.skip(1))) + esc_char(x));
    }
}

/// The escape sequence of `c`, as a vector.
pub fn esc_char_vec(c: char) -> (r: Vec<char>)
    ensures
        r@ == esc_char(c),
{
    let mut r: Vec<char> = Vec::new();
    if c == '&' {
        r.push('&');
        r.push('a');
        r.push('m');
        r.push('p');
        r.push(';');
        proof {
            assert(r@ =~= esc_char(c));
        }
    } else if c == '<' {
        r.push('&');
        r.push('l');
        r.push('t');
        r.push(';');
        proof {
            assert(r@ =~= esc_char(c));
        }
    } else if c == '>' {
        r.push('&');
        r.push('g');
        r.push('t');
        r.push(';');
        proof {
            assert(r@ =~= esc_char(c));
        }
    } else if c == '"' {
        r.push('&');
        r.push('q');
        r.push('u');
        r.push('o');
        r.push('t');
        r.push(';');
        proof {
            assert(r@ =~= esc_char(c));
        }
    } else if c == '\'' {
        r.push('&');
        r.push('a');
        r.push('p');
        r.push('o');
        r.push('s');
        r.push(';');
        proof {
            assert(r@ =~= esc_char(c));
        }
    } else {
        r.push(c);
        proof {
            assert(r@ =~= esc_char(c));
        }
    }
    r
}

/// Escapes every markup-significant character of `s`.
pub fn xml_escape_chars(s: &Vec<char>) -> (r: Vec<char>)
    ensures
        r@ == xml_escape(s@),
{
    let mut out: Vec<char> = Vec::new();
    let mut i: usize = 0;
    proof {
        assert(s@.take(0) =~= Seq::<char>::empty());
    }
    while i < s.len()
        invariant
            i <= s.len(),
            out@ == xml_escape(s@.take(i as int)),
        decreases s.len() - i,
    {
        let e = esc_char_vec(s[i]);
        push_all(&mut out, &e);
        proof {
            lemma_xml_escape_snoc(s@.take(i as int), s@[i as int]);
            assert(s@.take(i + 1) =~= s@.take(i as int).push(s@[i as int]));
        }
        i += 1;
    }
    proof {
        assert(s@.take(s@.len() as int) =~= s@);
    }
    out
}

// ---------------------------------------------------------------------------
// Tag stripping
// ---------------------------------------------------------------------------

/// `s` with every complete `<`..`>` span removed; a `<` with no closing `>`
/// is kept as ordinary text.
pub open spec fn strip_tags(s: Seq<char>) -> Seq<char>
    decreases s.len(),
{
    if s.len() == 0 {
        Seq::empty()
    } else if s[0] == '<' {
        let j = find_char(s.skip(1), '>');
        if j >= 0 && 1 + j < s.len() {
            strip_tags(s.skip(2 + j))
        } else {
            seq!['<'] + strip_tags(s.skip(1))
        }
    } else {
        seq![s[0]] + strip_tags(s.skip(1))
    }
}

/// Removes every complete `<`..`>` span from `s`.
pub fn strip_tags_chars(s: &Vec<char>) -> (r: Vec<char>)
    ensures
        r@ == strip_tags(s@),
{
    let mut out: Vec<char> = Vec::new();
    let mut i: usize = 0;
    proof {
        assert(s@.skip(0) =~= s@);
        assert(Seq::<char>::empty() + strip_tags(s@) =~= strip_tags(s@));
    }
    while i < s.len()
        invariant
            i <= s.len(),
            strip_tags(s@) == out@ + strip_tags(s@.skip(i as int)),
        decreases s.len() - i,
    {
        let ghost pre = out@;
        let ghost rem = s@.skip(i as int);
        proof {
            assert(rem[0] == s@[i as int]);
            assert(rem.skip(1) =~= s@.skip(i + 1));
        }
        let c = s[i];
        if c == '<' {
            match find_char_from(s, '>', i + 1) {
                Some(j) => {
                    proof {
                        let f = find_char(s@.skip(i + 1), '>');
                        assert(rem.skip(1) =~= s@.skip(i + 1));
                        assert(f == j - i - 1);
                        assert(1 + f < rem.len());
                        assert(rem.skip(2 + f) =~= s@.skip(j + 1));
                        assert(strip_tags(rem) == strip_tags(s@.skip(j + 1)));
                    }
                    i = j + 1;
                },
                None => {
                    out.push('<');
                    proof {
                        assert(strip_tags(rem) == seq!['<'] + strip_tags(s@.skip(i + 1)));
                        assert(pre + (seq!['<'] + strip_tags(s@.skip(i + 1))) =~= pre.push('<')
                            + strip_tags(s@.skip(i + 1)));
                    }
                    i += 1;
                },
            }
        } else {
            out.push(c);
            proof {
                assert(strip_tags(rem) == seq![s@[i as int]] + strip_tags(s@.skip(i + 1)));
                assert(pre + (seq![s@[i as int]] + strip_tags(s@.skip(i + 1))) =~= pre.push(
                    s@[i as int],
                ) + strip_tags(s@.skip(i + 1)));
            }
            i += 1;
        }
    }
    proof {
        assert(s@.skip(s@.len() as int) =~= Seq::<char>::empty());
        assert(out@ + Seq::<char>::empty() =~= out@);
    }
    out
}

// ---------------------------------------------------------------------------
// Tag-name repair
// ---------------------------------------------------------------------------

/// First character of an element-name segment.
pub open spec fn ident_start(c: char) -> bool {
    ('a' <= c && c <= 'z') || ('A' <= c && c <= 'Z') || c == '_'
}

/// Later character of an element-name segment.
pub open spec fn ident_char(c: char) -> bool {
    ident_start(c) || ('0' <= c && c <= '9')
}

/// Length of the leading run of name characters.
pub open spec fn ident_run(s: Seq<char>) -> int
    decreases s.len(),
{
    if s.len() > 0 && ident_char(s[0]) {
        1 + ident_run(s.skip(1))
    } else {
        0
    }
}

/// Length of the leading run of spaces.
pub open spec fn space_run(s: Seq<char>) -> int
    decreases s.len(),
{
    if s.len() > 0 && s[0] == ' ' {
        1 + space_run(s.skip(1))
    } else {
        0
    }
}

/// A leading run of exactly `k` name characters makes `ident_run` return `k`.
pub proof fn lemma_ident_run_at(s: Seq<char>, k: int)
    requires
        0 <= k <= s.len(),
        forall|m: int| 0 <= m < k ==> ident_char(s[m]),
        k == s.len() || !ident_char(s[k]),
    ensures
        ident_run(s) == k,
    decreases k,
{
    if k > 0 {
        lemma_ident_run_at(s.skip(1), k - 1);
    }
}

/// A leading run of exactly `k` spaces makes `space_run` return `k`.
pub proof fn lemma_space_run_at(s: Seq<char>, k: int)
    requires
        0 <= k <= s.len(),
        forall|m: int| 0 <= m < k ==> s[m] == ' ',
        k == s.len() || s[k] != ' ',
    ensures
        space_run(s) == k,
    decreases k,
{
    if k > 0 {
        lemma_space_run_at(s.skip(1), k - 1);
    }
}

/// Rewrites the inside of one `<`..`>` block of the shape
/// `/? name : name attrs` into `/? name - name ' ' attrs`, or `None` when the
/// block is not of that shape.
pub open spec fn repair_block(b: Seq<char>) -> Option<Seq<char>> {
    let slash = b.len() > 0 && b[0] == '/';
    let t = if slash {
        b.skip(1)
    } else {
        b
    };
    let n1 = ident_run(t);
    if n1 > 0 && ident_start(t[0]) && n1 < t.len() && t[n1] == ':' {
        let t2 = t.skip(n1 + 1);
        let n2 = ident_run(t2);
        if n2 > 0 && ident_start(t2[0]) {
            let sp = space_run(t2.skip(n2));
            let rest = t2.skip(n2 + sp);
            Some(
                (if slash {
                    seq!['/']
                } else {
                    Seq::<char>::empty()
                }) + t.take(n1) + seq!['-'] + t2.take(n2) + seq![' '] + rest,
            )
        } else {
            None
        }
    } else {
        None
    }
}

/// Decides `ident_char`.
fn is_ident_char(c: char) -> (r: bool)
    ensures
        r == ident_char(c),
{
    ('a' <= c && c <= 'z') || ('A' <= c && c <= 'Z') || c == '_' || ('0' <= c && c <= '9')
}

/// Counts the name characters of `t` from position `p` on.
fn ident_run_from(t: &Vec<char>, p: usize) -> (r: usize)
    requires
        p <= t.len(),
    ensures
        p + ident_run(t@.skip(p as int)) == r,
        p <= r <= t.len(),
{
    let mut i: usize = p;
    while i < t.len() && is_ident_char(t[i])
        invariant
            p <= i <= t.len(),
            forall|m: int| p <= m < i ==> ident_char(t@[m]),
        decreases t.len() - i,
    {
        i += 1;
    }
    proof {
        let sub = t@.skip(p as int);
        assert(forall|m: int| 0 <= m < sub.len() ==> sub[m] == t@[p + m]);
        lemma_ident_run_at(sub, i - p);
    }
    i
}

/// Counts the spaces of `t` from position `p` on.
fn space_run_from(t: &Vec<char>, p: usize) -> (r: usize)
    requires
        p <= t.len(),
    ensures
        p + space_run(t@.skip(p as int)) == r,
        p <= r <= t.len(),
{
    let mut i: usize = p;
    while i < t.len() && t[i] == ' '
        invariant
            p <= i <= t.len(),
            forall|m: int| p <= m < i ==> t@[m] == ' ',
        decreases t.len() - i,
    {
        i += 1;
    }
    proof {
        let sub = t@.skip(p as int);
        assert(forall|m: int| 0 <= m < sub.len() ==> sub[m] == t@[p + m]);
        lemma_space_run_at(sub, i - p);
    }
    i
}

/// Applies `repair_block` to one block.
fn repair_block_chars(b: &Vec<char>) -> (r: Option<Vec<char>>)
    ensures
        match r {
            Some(v) => repair_block(b@) == Some(v@),
            None => repair_block(b@) is None,
        },
{
    let slash = b.len() > 0 && b[0] == '/';
    let off: usize = if slash {
        1
    } else {
        0
    };
    let t = sub_vec(b, off, b.len());
    proof {
        if slash {
            assert(t@ =~= b@.skip(1));
        } else {
            assert(t@ =~= b@);
        }
    }
    let n1 = ident_run_from(&t, 0);
    proof {
        assert(t@.skip(0) =~= t@);
    }
    if !(n1 > 0 && n1 < t.len()) {
        return None;
    }
    let c0 = t[0];
    if !(('a' <= c0 && c0 <= 'z') || ('A' <= c0 && c0 <= 'Z') || c0 == '_') {
        return None;
    }
    if t[n1] != ':' {
        return None;
    }
    let t2 = sub_vec(&t, n1 + 1, t.len());
    proof {
        assert(t2@ =~= t@.skip(n1 + 1));
    }
    let n2 = ident_run_from(&t2, 0);
    proof {
        assert(t2@.skip(0) =~= t2@);
    }
    if n2 == 0 {
        return None;
    }
    let d0 = t2[0];
    if !(('a' <= d0 && d0 <= 'z') || ('A' <= d0 && d0 <= 'Z') || d0 == '_') {
        return None;
    }
    let spe = space_run_from(&t2, n2);
    let mut out: Vec<char> = Vec::new();
    if slash {
        out.push('/');
    }
    let seg1 = sub_vec(&t, 0, n1);
    push_all(&mut out, &seg1);
    out.push('-');
    let seg2 = sub_vec(&t2, 0, n2);
    push_all(&mut out, &seg2);
    out.push(' ');
    let rest = sub_vec(&t2, spe, t2.len());
    push_all(&mut out, &rest);
    proof {
        let tv = t@;
        let t2v = t2@;
        assert(seg1@ =~= tv.take(n1 as int));
        assert(seg2@ =~= t2v.take(n2 as int));
        assert(t2v.skip(n2 as int).skip((spe - n2) as int) =~= t2v.skip(spe as int));
        assert(rest@ =~= t2v.skip(n2 + space_run(t2v.skip(n2 as int))));
        assert(out@ =~= (if slash {
            seq!['/']
        } else {
            Seq::<char>::empty()
        }) + tv.take(n1 as int) + seq!['-'] + t2v.take(n2 as int) + seq![' '] + t2v.skip(
            n2 + space_run(t2v.skip(n2 as int)),
        ));
    }
    Some(out)
}

/// `s` with every parenthesised-name block repaired: inside each complete
/// `<`..`>` block, a leading `prefix:local` element name becomes
/// `prefix-local` with a space before the attributes.
pub open spec fn clean_text(s: Seq<char>) -> Seq<char>
    decreases s.len(),
{
    if s.len() == 0 {
        Seq::empty()
    } else if s[0] == '<' {
        let j = find_char(s.skip(1), '>');
        if j >= 0 && 1 + j < s.len() {
            match repair_block(s.subrange(1, 1 + j)) {
                Some(r) => seq!['<'] + r + seq!['>'] + clean_text(s.skip(2 + j)),
                None => seq!['<'] + clean_text(s.skip(1)),
            }
        } else {
            seq!['<'] + clean_text(s.skip(1))
        }
    } else {
        seq![s[0]] + clean_text(s.skip(1))
    }
}

/// Repairs every `prefix:local` element name in `s`.
pub fn clean_chars(s: &Vec<char>) -> (r: Vec<char>)
    ensures
        r@ == clean_text(s@),
{
    let mut out: Vec<char> = Vec::new();
    let mut i: usize = 0;
    proof {
        assert(s@.skip(0) =~= s@);
        assert(Seq::<char>::empty() + clean_text(s@) =~= clean_text(s@));
    }
    while i < s.len()
        invariant
            i <= s.len(),
            clean_text(s@) == out@ + clean_text(s@.skip(i as int)),
        decreases s.len() - i,
    {
        let ghost pre = out@;
        let ghost rem = s@.skip(i as int);
        proof {
            assert(rem[0] == s@[i as int]);
            assert(rem.skip(1) =~= s@.skip(i + 1));
        }
        let c = s[i];
        if c == '<' {
            match find_char_from(s, '>', i + 1) {
                Some(j) => {
                    proof {
                        let f = find_char(s@.skip(i + 1), '>');
                        assert(f == j - i - 1);
                        assert(1 + f < rem.len());
                        assert(rem.subrange(1, 1 + f) =~= s@.subrange(i + 1, j as int));
                        assert(rem.skip(2 + f) =~= s@.skip(j + 1));
                    }
                    let block = sub_vec(s, i + 1, j);
                    match repair_block_chars(&block) {
                        Some(rep) => {
                            out.push('<');
                            push_all(&mut out, &rep);
                            out.push('>');
                            proof {
                                assert(clean_text(rem) == seq!['<'] + rep@ + seq!['>']
                                    + clean_text(s@.skip(j + 1)));
                                assert(pre + (seq!['<'] + rep@ + seq!['>'] + clean_text(
                                    s@.skip(j + 1),
                                )) =~= ((pre.push('<') + rep@).push('>')) + clean_text(
                                    s@.skip(j + 1),
                                ));
                            }
                            i = j + 1;
                        },
                        None => {
                            out.push('<');
                            proof {
                                assert(clean_text(rem) == seq!['<'] + clean_text(s@.skip(i + 1)));
                                assert(pre + (seq!['<'] + clean_text(s@.skip(i + 1))) =~= pre.push(
                                    '<',
                                ) + clean_text(s@.skip(i + 1)));
                            }
                            i += 1;
                        },
                    }
                },
                None => {
                    out.push('<');
                    proof {
                        assert(clean_text(rem) == seq!['<'] + clean_text(s@.skip(i + 1)));
                        assert(pre + (seq!['<'] + clean_text(s@.skip(i + 1))) =~= pre.push('<')
                            + clean_text(s@.skip(i + 1)));
                    }
                    i += 1;
                },
            }
        } else {
            out.push(c);
            proof {
                assert(clean_text(rem) == seq![s@[i as int]] + clean_text(s@.skip(i + 1)));
                assert(pre + (seq![s@[i as int]] + clean_text(s@.skip(i + 1))) =~= pre.push(
                    s@[i as int],
                ) + clean_text(s@.skip(i + 1)));
            }
            i += 1;
        }
    }
    proof {
        assert(s@.skip(s@.len() as int) =~= Seq::<char>::empty());
        assert(out@ + Seq::<char>::empty() =~= out@);
    }
    out
}

// ---------------------------------------------------------------------------
// Bare-ampersand escaping
// ---------------------------------------------------------------------------

/// `s` with every bare `&` followed by a space escaped to its entity, so
/// that loose prose survives strict parsing.
pub open spec fn escape_bare_amp(s: Seq<char>) -> Seq<char> {
    replace_all(s, seq!['&', ' '], seq!['&', 'a', 'm', 'p', ';', ' '])
}

/// Escapes every bare `&` followed by a space.
pub fn escape_bare_amp_chars(s: &Vec<char>) -> (r: Vec<char>)
    ensures
        r@ == escape_bare_amp(s@),
{
    let mut pat: Vec<char> = Vec::new();
    pat.push('&');
    pat.push(' ');
    let mut rep: Vec<char> = Vec::new();
    rep.push('&');
    rep.push('a');
    rep.push('m');
    rep.push('p');
    rep.push(';');
    rep.push(' ');
    proof {
        assert(pat@ =~= seq!['&', ' ']);
        assert(rep@ =~= seq!['&', 'a', 'm', 'p', ';', ' ']);
    }
    replace_all_chars(s, &pat, &rep)
}

// ---------------------------------------------------------------------------
// Literal-text wrapping
// ---------------------------------------------------------------------------

/// The marker opening a literal-text section.
pub open spec fn cdata_open() -> Seq<char> {
    "<![CDATA["@
}

/// The marker closing a literal-text section.
pub open spec fn cdata_close() -> Seq<char> {
    "]]>"@
}

/// The opening tag of a container, matched exactly and without attributes.
pub open spec fn open_tag(name: Seq<char>) -> Seq<char> {
    seq!['<'] + name + seq!['>']
}

/// The closing tag of a container.
pub open spec fn close_tag(name: Seq<char>) -> Seq<char> {
    seq!['<', '/'] + name + seq!['>']
}

/// `s` with the contents of every complete `<name>`..`</name>` block
/// wrapped in a literal-text marker, unless the contents already begin with
/// one; text outside such blocks is unchanged.
pub open spec fn wrap_elem(s: Seq<char>, name: Seq<char>) -> Seq<char>
    decreases s.len(),
{
    if s.len() == 0 {
        Seq::empty()
    } else if starts_with(s, open_tag(name)) {
        let olen = open_tag(name).len() as int;
        let rest = s.skip(olen);
        let j = find_sub(rest, close_tag(name));
        let clen = close_tag(name).len() as int;
        if j >= 0 && j + clen <= rest.len() {
            let inner = rest.take(j);
            let wrapped = if starts_with(inner, cdata_open()) {
                inner
            } else {
                cdata_open() + inner + cdata_close()
            };
            open_tag(name) + wrapped + close_tag(name) + wrap_elem(rest.skip(j + clen), name)
        } else {
            seq![s[0]] + wrap_elem(s.skip(1), name)
        }
    } else {
        seq![s[0]] + wrap_elem(s.skip(1), name)
    }
}

/// Wraps the contents of every complete `<name>`..`</name>` block of `s`
/// in a literal-text marker.
pub fn wrap_elem_chars(s: &Vec<char>, name: &Vec<char>) -> (r: Vec<char>)
    ensures
        r@ == wrap_elem(s@, name@),
{
    let mut open_pat: Vec<char> = Vec::new();
    open_pat.push('<');
    push_all(&mut open_pat, name);
    open_pat.push('>');
    let mut close_pat: Vec<char> = Vec::new();
    close_pat.push('<');
    close_pat.push('/');
    push_all(&mut close_pat, name);
    close_pat.push('>');
    let cdo = to_chars("<![CDATA[");
    let cdc = to_chars("]]>");
    proof {
        assert(open_pat@ =~= open_tag(name@));
        assert(close_pat@ =~= close_tag(name@));
    }
    let mut out: Vec<char> = Vec::new();
    let mut i: usize = 0;
    proof {
        assert(s@.skip(0) =~= s@);
        assert(Seq::<char>::empty() + wrap_elem(s@, name@) =~= wrap_elem(s@, name@));
    }
    while i < s.len()
        invariant
            i <= s.len(),
            open_pat@ == open_tag(name@),
            close_pat@ == close_tag(name@),
            cdo@ == cdata_open(),
            cdc@ == cdata_close(),
            wrap_elem(s@, name@) == out@ + wrap_elem(s@.skip(i as int), name@),
        decreases s.len() - i,
    {
        let ghost pre = out@;
        let ghost rem = s@.skip(i as int);
        proof {
            assert(rem[0] == s@[i as int]);
            assert(rem.skip(1) =~= s@.skip(i + 1));
        }
        let mut plain = true;
        if match_at(s, &open_pat, i) {
            proof {
                assert(rem.take(open_tag(name@).len() as int) =~= s@.subrange(
                    i as int,
                    i + open_pat@.len(),
                ));
                assert(starts_with(rem, open_tag(name@)));
            }
            let olen = open_pat.len();
            let rest_vec = sub_vec(s, i + olen, s.len());
            proof {
                assert(rest_vec@ =~= rem.skip(olen as int));
            }
            match find_sub_chars(&rest_vec, &close_pat) {
                Some(j) => {
                    proof {
                        lemma_find_sub(rest_vec@, close_pat@);
                        assert(sub_at(rest_vec@, close_pat@, j as int));
                    }
                    plain = false;
                    let clen = close_pat.len();
                    let inner = sub_vec(&rest_vec, 0, j);
                    proof {
                        assert(inner@ =~= rest_vec@.take(j as int));
                    }
                    let already = starts_with_chars(&inner, &cdo);
                    push_all(&mut out, &open_pat);
                    if already {
                        push_all(&mut out, &inner);
                    } else {
                        push_all(&mut out, &cdo);
                        push_all(&mut out, &inner);
                        push_all(&mut out, &cdc);
                    }
                    push_all(&mut out, &close_pat);
                    proof {
                        let wrapped = if already {
                            inner@
                        } else {
                            cdata_open() + inner@ + cdata_close()
                        };
                        assert(rest_vec@.skip(j + clen) =~= s@.skip(i + olen + j + clen));
                        assert(wrap_elem(rem, name@) == open_tag(name@) + wrapped + close_tag(
                            name@,
                        ) + wrap_elem(s@.skip(i + olen + j + clen), name@));
                        assert(out@ =~= pre + (open_tag(name@) + wrapped + close_tag(name@)));
                        assert(pre + (open_tag(name@) + wrapped + close_tag(name@) + wrap_elem(
                            s@.skip(i + olen + j + clen),
                            name@,
                        )) =~= (pre + (open_tag(name@) + wrapped + close_tag(name@)))
                            + wrap_elem(s@.skip(i + olen + j + clen), name@));
                    }
                    i = i + olen + j + clen;
                },
                None => {
                    proof {
                        lemma_find_sub(rest_vec@, close_pat@);
                    }
                },
            }
        } else {
            proof {
                if rem.len() >= open_tag(name@).len() {
                    assert(rem.take(open_tag(name@).len() as int) =~= s@.subrange(
                        i as int,
                        i + open_pat@.len(),
                    ));
                }
                assert(!starts_with(rem, open_tag(name@)));
            }
        }
        if plain {
            let c = s[i];
            out.push(c);
            proof {
                assert(wrap_elem(rem, name@) == seq![s@[i as int]] + wrap_elem(
                    s@.skip(i + 1),
                    name@,
                ));
                assert(pre + (seq![s@[i as int]] + wrap_elem(s@.skip(i + 1), name@)) =~= pre.push(
                    s@[i as int],
                ) + wrap_elem(s@.skip(i + 1), name@));
            }
            i += 1;
        }
    }
    proof {
        assert(s@.skip(s@.len() as int) =~= Seq::<char>::empty());
        assert(out@ + Seq::<char>::empty() =~= out@);
    }
    out
}

// ---------------------------------------------------------------------------
// The whole repair pass
// ---------------------------------------------------------------------------

/// The full text-level repair applied to raw feed text before structural
/// parsing: element names of the shape `prefix:local` rewritten to
/// `prefix-local`, every bare `&` before a space escaped, and the contents
/// of the known free-text container elements wrapped in a literal-text
/// marker. The containers are this library's fixed list — `description`,
/// `summary` and `content`, plus the rich-body and media-description
/// elements in both their plain dashed spelling and the spelling the
/// tag-name repair emits (with its trailing space) — each matched as a
/// whole tag without attributes.
pub open spec fn repair_text(s: Seq<char>) -> Seq<char> {
    wrap_elem(
        wrap_elem(
            wrap_elem(
                wrap_elem(
                    wrap_elem(
                        wrap_elem(
                            wrap_elem(escape_bare_amp(clean_text(s)), "description"@),
                            "summary"@,
                        ),
                        "content"@,
                    ),
                    "content-encoded"@,
                ),
                "content-encoded "@,
            ),
            "media-description"@,
        ),
        "media-description "@,
    )
}

/// Applies the full text-level repair to raw feed text.
pub fn repair_feed_text(raw: &str) -> (r: String)
    ensures
        r@ == repair_text(raw@),
{
    let rv = to_chars(raw);
    let cleaned = clean_chars(&rv);
    let escaped = escape_bare_amp_chars(&cleaned);
    let n1 = to_chars("description");
    let w1 = wrap_elem_chars(&escaped, &n1);
    let n2 = to_chars("summary");
    let w2 = wrap_elem_chars(&w1, &n2);
    let n3 = to_chars("content");
    let w3 = wrap_elem_chars(&w2, &n3);
    let n4 = to_chars("content-encoded");
    let w4 = wrap_elem_chars(&w3, &n4);
    let n5 = to_chars("content-encoded ");
    let w5 = wrap_elem_chars(&w4, &n5);
    let n6 = to_chars("media-description");
    let w6 = wrap_elem_chars(&w5, &n6);
    let n7 = to_chars("media-description ");
    let w7 = wrap_elem_chars(&w6, &n7);
    from_chars(&w7)
}

// ---------------------------------------------------------------------------
// Image sources
// ---------------------------------------------------------------------------

/// The opening characters of an image tag.
pub open spec fn img_open() -> Seq<char> {
    seq!['<', 'i', 'm', 'g']
}

/// The characters introducing a source attribute value.
pub open spec fn src_intro() -> Seq<char> {
    seq!['s', 'r', 'c', '=', '"']
}

/// The source URLs of the image tags of `s`, in order: inside each complete
/// tag block opened by `<img`, the text between `src="` and the next `"`.
pub open spec fn img_srcs(s: Seq<char>) -> Seq<Seq<char>>
    decreases s.len(),
{
    if s.len() < 4 {
        Seq::empty()
    } else if s.take(4) == img_open() {
        let j = find_char(s.skip(1), '>');
        if j >= 0 && 1 + j < s.len() {
            let block = s.subrange(1, 1 + j);
            let rest = img_srcs(s.skip(2 + j));
            let k = find_sub(block, src_intro());
            if k < 0 {
                rest
            } else {
                let after = block.skip(k + 5);
                let q = find_char(after, '"');
                if q < 0 {
                    rest
                } else {
                    seq![after.take(q)] + rest
                }
            }
        } else {
            Seq::empty()
        }
    } else {
        img_srcs(s.skip(1))
    }
}

/// Extracts the source URL of every image tag of `s`, in order.
pub fn img_srcs_chars(s: &Vec<char>) -> (r: Vec<Vec<char>>)
    ensures
        r.deep_view() == img_srcs(s@),
{
    let mut open_pat: Vec<char> = Vec::new();
    open_pat.push('<');
    open_pat.push('i');
    open_pat.push('m');
    open_pat.push('g');
    let mut src_pat: Vec<char> = Vec::new();
    src_pat.push('s');
    src_pat.push('r');
    src_pat.push('c');
    src_pat.push('=');
    src_pat.push('"');
    proof {
        assert(open_pat@ =~= img_open());
        assert(src_pat@ =~= src_intro());
    }
    let mut out: Vec<Vec<char>> = Vec::new();
    let mut i: usize = 0;
    proof {
        assert(s@.skip(0) =~= s@);
        assert(Seq::<Seq<char>>::empty() + img_srcs(s@) =~= img_srcs(s@));
    }
    while i < s.len()
        invariant
            i <= s.len(),
            open_pat@ == img_open(),
            src_pat@ == src_intro(),
            img_srcs(s@) == out.deep_view() + img_srcs(s@.skip(i as int)),
        decreases s.len() - i,
    {
        let ghost pre = out.deep_view();
        let ghost rem = s@.skip(i as int);
        proof {
            assert(rem.skip(1) =~= s@.skip(i + 1));
        }
        if match_at(s, &open_pat, i) {
            proof {
                assert(rem.take(4) =~= s@.subrange(i as int, i + 4));
                assert(rem.len() >= 4);
            }
            match find_char_from(s, '>', i + 1) {
                Some(j) => {
                    proof {
                        let f = find_char(s@.skip(i + 1), '>');
                        assert(f == j - i - 1);
                        assert(1 + f < rem.len());
                        assert(rem.subrange(1, 1 + f) =~= s@.subrange(i + 1, j as int));
                        assert(rem.skip(2 + f) =~= s@.skip(j + 1));
                    }
                    let block = sub_vec(s, i + 1, j);
                    match find_sub_chars(&block, &src_pat) {
                        Some(k) => {
                            proof {
                                crate::text::lemma_find_sub(block@, src_intro());
                                assert(sub_at(block@, src_intro(), k as int));
                            }
                            let after = sub_vec(&block, k + 5, block.len());
                            proof {
                                assert(find_sub(block@, src_intro()) == k);
                                assert(after@ =~= block@.skip(k + 5));
                                assert(after@.skip(0) =~= after@);
                            }
                            match find_char_from(&after, '"', 0) {
                                Some(q) => {
                                    let url = sub_vec(&after, 0, q);
                                    out.push(url);
                                    proof {
                                        assert(url@ =~= after@.take(q as int));
                                        assert(img_srcs(rem) == seq![after@.take(q as int)]
                                            + img_srcs(s@.skip(j + 1)));
                                        assert(out.deep_view() =~~= pre.push(
                                            after@.take(q as int),
                                        ));
                                        assert(pre + (seq![after@.take(q as int)] + img_srcs(
                                            s@.skip(j + 1),
                                        )) =~= pre.push(after@.take(q as int)) + img_srcs(
                                            s@.skip(j + 1),
                                        ));
                                    }
                                },
                                None => {
                                    proof {
                                        assert(img_srcs(rem) == img_srcs(s@.skip(j + 1)));
                                    }
                                },
                            }
                        },
                        None => {
                            proof {
                                assert(img_srcs(rem) == img_srcs(s@.skip(j + 1)));
                            }
                        },
                    }
                    i = j + 1;
                },
                None => {
                    proof {
                        assert(img_srcs(rem) =~= Seq::<Seq<char>>::empty());
                        assert(pre + Seq::<Seq<char>>::empty() =~= pre);
                    }
                    return out;
                },
            }
        } else {
            proof {
                if rem.len() >= 4 {
                    assert(rem.take(4) =~= s@.subrange(i as int, i + 4));
                    assert(!sub_at(s@, img_open(), i as int));
                    assert(rem.take(4) != img_open());
                    assert(img_srcs(rem) == img_srcs(s@.skip(i + 1)));
                } else {
                    assert(img_srcs(rem) =~= Seq::<Seq<char>>::empty());
                    assert(img_srcs(s@.skip(i + 1)) =~= Seq::<Seq<char>>::empty());
                }
            }
            i += 1;
        }
    }
    proof {
        assert(s@.skip(s@.len() as int) =~= Seq::<char>::empty());
        assert(out.deep_view() + Seq::<Seq<char>>::empty() =~= out.deep_view());
    }
    out
}

} // verus!
