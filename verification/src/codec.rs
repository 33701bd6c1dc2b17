//! The persistence codec: the whole store rendered as structured text with
//! labeled, length-prefixed fields, and the decoder that inverts it. The
//! round trip is proved: decoding an encoded store yields the store.

use vstd::prelude::*;
use crate::{digit_val, is_digit_char};
use crate::structs::{AuthorV, ChannelV, DbV, FeedOptionsV, FeedSourceV, ItemV, MediaV, RssV};
use crate::text::sub_vec;

verus! {

// ---------------------------------------------------------------------------
// Numbers
// ---------------------------------------------------------------------------

/// The decimal digit character of `n`, for `0 <= n < 10`.
pub open spec fn digit_char_of(n: int) -> char {
    if n == 0 {
        '0'
    } else if n == 1 {
        '1'
    } else if n == 2 {
        '2'
    } else if n == 3 {
        '3'
    } else if n == 4 {
        '4'
    } else if n == 5 {
        '5'
    } else if n == 6 {
        '6'
    } else if n == 7 {
        '7'
    } else if n == 8 {
        '8'
    } else {
        '9'
    }
}

/// The decimal digits of `n`, most significant first.
pub open spec fn enc_nat(n: nat) -> Seq<char>
    decreases n,
{
    if n < 10 {
        seq![digit_char_of(n as int)]
    } else {
        enc_nat(n / 10) + seq![digit_char_of((n % 10) as int)]
    }
}

/// The number read from a digit string, most significant first.
pub open spec fn val_of(s: Seq<char>) -> int
    decreases s.len(),
{
    if s.len() == 0 {
        0
    } else {
        val_of(s.drop_last()) * 10 + digit_val(s.last())
    }
}

/// Ten to the `k`.
pub open spec fn pow10(k: nat) -> int
    decreases k,
{
    if k == 0 {
        1
    } else {
        10 * pow10((k - 1) as nat)
    }
}

/// The digits of `n` are digit characters, there is at least one, and they
/// read back as `n`.
pub proof fn lemma_enc_nat(n: nat)
    ensures
        enc_nat(n).len() >= 1,
        forall|m: int| 0 <= m < enc_nat(n).len() ==> is_digit_char(#[trigger] enc_nat(n)[m]),
        val_of(enc_nat(n)) == n,
    decreases n,
{
    if n < 10 {
        assert(enc_nat(n) =~= seq![digit_char_of(n as int)]);
        assert(enc_nat(n).drop_last() =~= Seq::<char>::empty());
        assert(val_of(Seq::<char>::empty()) == 0);
        assert(val_of(enc_nat(n)) == 0 * 10 + digit_val(digit_char_of(n as int)));
    } else {
        lemma_enc_nat(n / 10);
        let e = enc_nat(n);
        let d = digit_char_of((n % 10) as int);
        assert(e =~= enc_nat(n / 10).push(d));
        assert(e.drop_last() =~= enc_nat(n / 10));
        assert(e.last() == d);
        assert(val_of(e) == val_of(enc_nat(n / 10)) * 10 + digit_val(d));
        assert(digit_val(d) == n % 10);
        assert((n / 10) * 10 + n % 10 == n) by (nonlinear_arith);
    }
}

/// A number below ten to the `k` has at most `k` digits.
pub proof fn lemma_enc_nat_len(n: nat, k: nat)
    requires
        k >= 1,
        n < pow10(k),
    ensures
        enc_nat(n).len() <= k,
    decreases n,
{
    if n < 10 {
    } else {
        assert(k >= 2) by {
            if k == 1 {
                assert(pow10(0) == 1);
                assert(pow10(1) == 10 * pow10(0));
            }
        }
        assert(n / 10 < pow10((k - 1) as nat)) by (nonlinear_arith)
            requires
                n < pow10(k),
                pow10(k) == 10 * pow10((k - 1) as nat),
                n >= 10,
        ;
        lemma_enc_nat_len(n / 10, (k - 1) as nat);
        assert(enc_nat(n) =~= enc_nat(n / 10).push(digit_char_of((n % 10) as int)));
    }
}

/// The value of a digit string of at most `k` digits is below ten to the
/// `k`.
pub proof fn lemma_val_of_bound(s: Seq<char>)
    requires
        forall|m: int| 0 <= m < s.len() ==> is_digit_char(#[trigger] s[m]),
    ensures
        0 <= val_of(s) < pow10(s.len()),
    decreases s.len(),
{
    if s.len() > 0 {
        lemma_val_of_bound(s.drop_last());
        assert(is_digit_char(s.last()));
        assert(0 <= digit_val(s.last()) <= 9);
        assert(val_of(s.drop_last()) * 10 + digit_val(s.last()) < pow10(s.len()))
            by (nonlinear_arith)
            requires
                0 <= val_of(s.drop_last()) < pow10((s.len() - 1) as nat),
                0 <= digit_val(s.last()) <= 9,
                pow10(s.len()) == 10 * pow10((s.len() - 1) as nat),
        ;
    }
}

/// Length of the leading run of digit characters.
pub open spec fn digit_run(s: Seq<char>) -> int
    decreases s.len(),
{
    if s.len() > 0 && is_digit_char(s[0]) {
        1 + digit_run(s.skip(1))
    } else {
        0
    }
}

/// A leading run of exactly `k` digit characters makes `digit_run` return
/// `k`.
pub proof fn lemma_digit_run_at(s: Seq<char>, k: int)
    requires
        0 <= k <= s.len(),
        forall|m: int| 0 <= m < k ==> is_digit_char(#[trigger] s[m]),
        k == s.len() || !is_digit_char(s[k]),
    ensures
        digit_run(s) == k,
    decreases k,
{
    if k > 0 {
        lemma_digit_run_at(s.skip(1), k - 1);
    }
}

/// The bound on lengths and counts the codec accepts: eighteen digits.
pub open spec fn nat_cap() -> int {
    pow10(18)
}

/// Powers of ten are positive and grow with the exponent.
pub proof fn lemma_pow10_mono(a: nat, b: nat)
    requires
        a <= b,
    ensures
        0 < pow10(a) <= pow10(b),
    decreases b,
{
    if b > 0 {
        lemma_pow10_mono(if a == b {
            0
        } else {
            a
        }, (b - 1) as nat);
    }
}

/// The value of the codec's bound.
pub proof fn lemma_nat_cap()
    ensures
        nat_cap() == 1_000_000_000_000_000_000,
        pow10(17) == 100_000_000_000_000_000,
        forall|a: nat, b: nat| a <= b ==> #[trigger] pow10(a) <= #[trigger] pow10(b),
{
    assert forall|a: nat, b: nat| a <= b implies #[trigger] pow10(a) <= #[trigger] pow10(b) by {
        lemma_pow10_mono(a, b);
    }
    assert(pow10(0) == 1);
    assert(pow10(1) == 10 * pow10(0));
    assert(pow10(2) == 10 * pow10(1));
    assert(pow10(3) == 10 * pow10(2));
    assert(pow10(4) == 10 * pow10(3));
    assert(pow10(5) == 10 * pow10(4));
    assert(pow10(6) == 10 * pow10(5));
    assert(pow10(7) == 10 * pow10(6));
    assert(pow10(8) == 10 * pow10(7));
    assert(pow10(9) == 10 * pow10(8));
    assert(pow10(10) == 10 * pow10(9));
    assert(pow10(11) == 10 * pow10(10));
    assert(pow10(12) == 10 * pow10(11));
    assert(pow10(13) == 10 * pow10(12));
    assert(pow10(14) == 10 * pow10(13));
    assert(pow10(15) == 10 * pow10(14));
    assert(pow10(16) == 10 * pow10(15));
    assert(pow10(17) == 10 * pow10(16));
    assert(pow10(18) == 10 * pow10(17));
}

/// Reads a leading decimal number of at most eighteen digits, returning it
/// and the remaining text.
pub open spec fn dec_nat(s: Seq<char>) -> Option<(int, Seq<char>)> {
    let k = digit_run(s);
    if 1 <= k <= 18 {
        Some((val_of(s.take(k)), s.skip(k)))
    } else {
        None
    }
}

/// Reading the digits of `n` back, in front of anything that does not start
/// with a digit, yields `n` and that remainder.
pub proof fn lemma_dec_enc_nat(n: nat, rest: Seq<char>)
    requires
        n < nat_cap(),
        rest.len() == 0 || !is_digit_char(rest[0]),
    ensures
        dec_nat(enc_nat(n) + rest) == Some((n as int, rest)),
{
    lemma_enc_nat(n);
    lemma_enc_nat_len(n, 18);
    let e = enc_nat(n);
    let s = e + rest;
    assert(forall|m: int| 0 <= m < e.len() ==> is_digit_char(#[trigger] s[m]));
    lemma_digit_run_at(s, e.len() as int);
    assert(s.take(e.len() as int) =~= e);
    assert(s.skip(e.len() as int) =~= rest);
}

// ---------------------------------------------------------------------------
// Primitive forms
// ---------------------------------------------------------------------------

/// A length-prefixed string: its length in digits, a colon, its characters.
pub open spec fn enc_str(s: Seq<char>) -> Seq<char> {
    enc_nat(s.len()) + seq![':'] + s
}

/// Reads a length-prefixed string.
pub open spec fn dec_str(s: Seq<char>) -> Option<(Seq<char>, Seq<char>)> {
    match dec_nat(s) {
        Some((n, r)) => if r.len() >= 1 && r[0] == ':' && n + 1 <= r.len() {
            Some((r.subrange(1, 1 + n), r.skip(1 + n)))
        } else {
            None
        },
        None => None,
    }
}

/// Reading an encoded string back yields the string and the remainder.
pub proof fn lemma_dec_enc_str(v: Seq<char>, rest: Seq<char>)
    requires
        v.len() < nat_cap(),
    ensures
        dec_str(enc_str(v) + rest) == Some((v, rest)),
{
    let tail = seq![':'] + v + rest;
    assert(enc_str(v) + rest =~= enc_nat(v.len()) + tail);
    lemma_dec_enc_nat(v.len(), tail);
    assert(tail[0] == ':');
    assert(tail.subrange(1, 1 + v.len() as int) =~= v);
    assert(tail.skip(1 + v.len() as int) =~= rest);
}

/// A marker label in front of a field.
pub open spec fn dec_lit(s: Seq<char>, lit: Seq<char>) -> Option<Seq<char>> {
    if lit.len() <= s.len() && s.take(lit.len() as int) == lit {
        Some(s.skip(lit.len() as int))
    } else {
        None
    }
}

/// Reading a label back consumes exactly the label.
pub proof fn lemma_dec_enc_lit(lit: Seq<char>, rest: Seq<char>)
    ensures
        dec_lit(lit + rest, lit) == Some(rest),
{
    assert((lit + rest).take(lit.len() as int) =~= lit);
    assert((lit + rest).skip(lit.len() as int) =~= rest);
}

/// A boolean: one marker character.
pub open spec fn enc_bool(b: bool) -> Seq<char> {
    if b {
        seq!['T']
    } else {
        seq!['F']
    }
}

/// Reads a boolean marker.
pub open spec fn dec_bool(s: Seq<char>) -> Option<(bool, Seq<char>)> {
    if s.len() >= 1 && (s[0] == 'T' || s[0] == 'F') {
        Some((s[0] == 'T', s.skip(1)))
    } else {
        None
    }
}

/// Reading an encoded boolean back yields it and the remainder.
pub proof fn lemma_dec_enc_bool(b: bool, rest: Seq<char>)
    ensures
        dec_bool(enc_bool(b) + rest) == Some((b, rest)),
{
    assert((enc_bool(b) + rest)[0] == enc_bool(b)[0]);
    assert((enc_bool(b) + rest).skip(1) =~= rest);
}

/// A signed number: an optional minus sign, digits, a semicolon.
pub open spec fn enc_i32(i: int) -> Seq<char> {
    (if i < 0 {
        seq!['-'] + enc_nat((-i) as nat)
    } else {
        enc_nat(i as nat)
    }) + seq![';']
}

/// Reads a signed number, rejecting values outside the signed 32-bit
/// range.
pub open spec fn dec_i32(s: Seq<char>) -> Option<(int, Seq<char>)> {
    let neg = s.len() >= 1 && s[0] == '-';
    let body = if neg {
        s.skip(1)
    } else {
        s
    };
    match dec_nat(body) {
        Some((n, r)) => {
            let v = if neg {
                -n
            } else {
                n
            };
            if r.len() >= 1 && r[0] == ';' && -0x8000_0000 <= v < 0x8000_0000 {
                Some((v, r.skip(1)))
            } else {
                None
            }
        },
        None => None,
    }
}

/// Reading an encoded signed number back yields it and the remainder.
pub proof fn lemma_dec_enc_i32(i: int, rest: Seq<char>)
    requires
        -0x8000_0000 <= i < 0x8000_0000,
    ensures
        dec_i32(enc_i32(i) + rest) == Some((i, rest)),
{
    let s = enc_i32(i) + rest;
    proof_nat_cap_covers_i32();
    if i < 0 {
        let body = enc_nat((-i) as nat) + (seq![';'] + rest);
        assert(s[0] == '-');
        assert(s.skip(1) =~= body);
        lemma_dec_enc_nat((-i) as nat, seq![';'] + rest);
        assert((seq![';'] + rest)[0] == ';');
        assert((seq![';'] + rest).skip(1) =~= rest);
    } else {
        assert(s =~= enc_nat(i as nat) + (seq![';'] + rest));
        lemma_dec_enc_nat(i as nat, seq![';'] + rest);
        let body = enc_nat(i as nat) + (seq![';'] + rest);
        assert(body[0] == enc_nat(i as nat)[0]) by {
            lemma_enc_nat(i as nat);
        }
        assert(!(body[0] == '-')) by {
            lemma_enc_nat(i as nat);
            assert(is_digit_char(enc_nat(i as nat)[0]));
        }
        assert((seq![';'] + rest)[0] == ';');
        assert((seq![';'] + rest).skip(1) =~= rest);
    }
}

/// The codec's bound covers every signed 32-bit magnitude.
proof fn proof_nat_cap_covers_i32()
    ensures
        nat_cap() > 0x1_0000_0000,
{
    lemma_nat_cap();
}

/// An optional string: `N` when absent, `S` and the string when present.
pub open spec fn enc_opt_str(o: Option<Seq<char>>) -> Seq<char> {
    match o {
        None => seq!['N'],
        Some(v) => seq!['S'] + enc_str(v),
    }
}

/// Reads an optional string.
pub open spec fn dec_opt_str(s: Seq<char>) -> Option<(Option<Seq<char>>, Seq<char>)> {
    if s.len() >= 1 && s[0] == 'N' {
        Some((None, s.skip(1)))
    } else if s.len() >= 1 && s[0] == 'S' {
        match dec_str(s.skip(1)) {
            Some((v, r)) => Some((Some(v), r)),
            None => None,
        }
    } else {
        None
    }
}

/// Reading an encoded optional string back yields it and the remainder.
pub proof fn lemma_dec_enc_opt_str(o: Option<Seq<char>>, rest: Seq<char>)
    requires
        o matches Some(v) ==> v.len() < nat_cap(),
    ensures
        dec_opt_str(enc_opt_str(o) + rest) == Some((o, rest)),
{
    let s = enc_opt_str(o) + rest;
    match o {
        None => {
            assert(s[0] == 'N');
            assert(s.skip(1) =~= rest);
        },
        Some(v) => {
            assert(s[0] == 'S');
            assert(s.skip(1) =~= enc_str(v) + rest);
            lemma_dec_enc_str(v, rest);
        },
    }
}

// ---------------------------------------------------------------------------
// Records
// ---------------------------------------------------------------------------

/// The string fits the codec's length bound.
pub open spec fn str_ok(s: Seq<char>) -> bool {
    s.len() < nat_cap()
}

/// The optional string fits the codec's length bound.
pub open spec fn opt_ok(o: Option<Seq<char>>) -> bool {
    o matches Some(v) ==> str_ok(v)
}

/// The media asset fits the codec's bounds.
pub open spec fn media_ok(m: MediaV) -> bool {
    str_ok(m.url) && opt_ok(m.description) && str_ok(m.mime_type) && opt_ok(m.file_size)
        && str_ok(m.medium)
}

/// One media asset, fields labeled and in order.
#[verifier::opaque]
pub open spec fn enc_media(m: MediaV) -> Seq<char> {
    "url:"@ + (enc_str(m.url) + ("description:"@ + (enc_opt_str(m.description) + ("mimeType:"@
        + (enc_str(m.mime_type) + ("fileSize:"@ + (enc_opt_str(m.file_size) + ("medium:"@
        + enc_str(m.medium)))))))))
}

/// Reads one media asset.
#[verifier::opaque]
pub open spec fn dec_media(s: Seq<char>) -> Option<(MediaV, Seq<char>)> {
    match dec_lit(s, "url:"@) {
        Some(s1) => match dec_str(s1) {
            Some((url, s2)) => match dec_lit(s2, "description:"@) {
                Some(s3) => match dec_opt_str(s3) {
                    Some((description, s4)) => match dec_lit(s4, "mimeType:"@) {
                        Some(s5) => match dec_str(s5) {
                            Some((mime_type, s6)) => match dec_lit(s6, "fileSize:"@) {
                                Some(s7) => match dec_opt_str(s7) {
                                    Some((file_size, s8)) => match dec_lit(s8, "medium:"@) {
                                        Some(s9) => match dec_str(s9) {
                                            Some((medium, s10)) => Some(
                                                (
                                                    MediaV {
                                                        url,
                                                        description,
                                                        mime_type,
                                                        file_size,
                                                        medium,
                                                    },
                                                    s10,
                                                ),
                                            ),
                                            None => None,
                                        },
                                        None => None,
                                    },
                                    None => None,
                                },
                                None => None,
                            },
                            None => None,
                        },
                        None => None,
                    },
                    None => None,
                },
                None => None,
            },
            None => None,
        },
        None => None,
    }
}

/// Reading an encoded media asset back yields it and the remainder.
#[verifier::rlimit(100)]
pub proof fn lemma_dec_enc_media(m: MediaV, rest: Seq<char>)
    requires
        media_ok(m),
    ensures
        dec_media(enc_media(m) + rest) == Some((m, rest)),
{
    reveal(dec_media);
    reveal(enc_media);

    let t8 = enc_str(m.medium) + rest;
    let t7 = "medium:"@ + t8;
    let t6 = enc_opt_str(m.file_size) + t7;
    let t5 = "fileSize:"@ + t6;
    let t4 = enc_str(m.mime_type) + t5;
    let t3 = "mimeType:"@ + t4;
    let t2 = enc_opt_str(m.description) + t3;
    let t1 = "description:"@ + t2;
    let t0 = enc_str(m.url) + t1;
    assert(enc_media(m) + rest =~= "url:"@ + t0);
    lemma_dec_enc_lit("url:"@, t0);
    lemma_dec_enc_str(m.url, t1);
    lemma_dec_enc_lit("description:"@, t2);
    lemma_dec_enc_opt_str(m.description, t3);
    lemma_dec_enc_lit("mimeType:"@, t4);
    lemma_dec_enc_str(m.mime_type, t5);
    lemma_dec_enc_lit("fileSize:"@, t6);
    lemma_dec_enc_opt_str(m.file_size, t7);
    lemma_dec_enc_lit("medium:"@, t8);
    lemma_dec_enc_str(m.medium, rest);
}

/// The media assets of a sequence, one after another.
pub open spec fn enc_media_seq(l: Seq<MediaV>) -> Seq<char>
    decreases l.len(),
{
    if l.len() == 0 {
        Seq::empty()
    } else {
        enc_media(l[0]) + enc_media_seq(l.skip(1))
    }
}

/// Reads `n` media assets.
pub open spec fn dec_media_seq(s: Seq<char>, n: int) -> Option<(Seq<MediaV>, Seq<char>)>
    decreases n,
{
    if n <= 0 {
        Some((Seq::empty(), s))
    } else {
        match dec_media(s) {
            Some((m, r)) => match dec_media_seq(r, n - 1) {
                Some((l, r2)) => Some((seq![m] + l, r2)),
                None => None,
            },
            None => None,
        }
    }
}

/// Every asset of the sequence fits the codec's bounds.
pub open spec fn media_seq_ok(l: Seq<MediaV>) -> bool {
    l.len() < nat_cap() && forall|i: int| 0 <= i < l.len() ==> media_ok(#[trigger] l[i])
}

/// Reading an encoded media sequence back yields it and the remainder.
#[verifier::rlimit(100)]
pub proof fn lemma_dec_enc_media_seq(l: Seq<MediaV>, rest: Seq<char>)
    requires
        forall|i: int| 0 <= i < l.len() ==> media_ok(#[trigger] l[i]),
    ensures
        dec_media_seq(enc_media_seq(l) + rest, l.len() as int) == Some((l, rest)),
    decreases l.len(),
{
    if l.len() == 0 {
        assert(enc_media_seq(l) + rest =~= rest);
    } else {
        assert(forall|i: int| 0 <= i < l.len() - 1 ==> l.skip(1)[i] == l[i + 1]);
        lemma_dec_enc_media_seq(l.skip(1), rest);
        let t0 = enc_media_seq(l.skip(1)) + rest;
        assert(enc_media_seq(l) + rest =~= enc_media(l[0]) + t0);
        lemma_dec_enc_media(l[0], t0);
        assert(seq![l[0]] + l.skip(1) =~= l);
    }
}

/// An optional media list: `N` when absent, `S`, a count and the assets
/// when present.
#[verifier::opaque]
pub open spec fn enc_media_list(o: Option<Seq<MediaV>>) -> Seq<char> {
    match o {
        None => seq!['N'],
        Some(l) => seq!['S'] + (enc_nat(l.len()) + (seq![';'] + enc_media_seq(l))),
    }
}

/// Reads an optional media list.
#[verifier::opaque]
pub open spec fn dec_media_list(s: Seq<char>) -> Option<(Option<Seq<MediaV>>, Seq<char>)> {
    if s.len() >= 1 && s[0] == 'N' {
        Some((None, s.skip(1)))
    } else if s.len() >= 1 && s[0] == 'S' {
        match dec_nat(s.skip(1)) {
            Some((n, r)) => if r.len() >= 1 && r[0] == ';' {
                match dec_media_seq(r.skip(1), n) {
                    Some((l, r2)) => Some((Some(l), r2)),
                    None => None,
                }
            } else {
                None
            },
            None => None,
        }
    } else {
        None
    }
}

/// The optional media list fits the codec's bounds.
pub open spec fn media_list_ok(o: Option<Seq<MediaV>>) -> bool {
    o matches Some(l) ==> media_seq_ok(l)
}

/// Reading an encoded optional media list back yields it and the
/// remainder.
#[verifier::rlimit(100)]
pub proof fn lemma_dec_enc_media_list(o: Option<Seq<MediaV>>, rest: Seq<char>)
    requires
        media_list_ok(o),
    ensures
        dec_media_list(enc_media_list(o) + rest) == Some((o, rest)),
{
    reveal(dec_media_list);
    reveal(enc_media_list);

    let s = enc_media_list(o) + rest;
    match o {
        None => {
            assert(s[0] == 'N');
            assert(s.skip(1) =~= rest);
        },
        Some(l) => {
            assert(s[0] == 'S');
            let t1 = seq![';'] + (enc_media_seq(l) + rest);
            assert(s.skip(1) =~= enc_nat(l.len()) + t1);
            lemma_dec_enc_nat(l.len(), t1);
            assert(t1[0] == ';');
            assert(t1.skip(1) =~= enc_media_seq(l) + rest);
            lemma_dec_enc_media_seq(l, rest);
        },
    }
}

/// An optional author: `N` when absent, `S` and the two fields when
/// present.
#[verifier::opaque]
pub open spec fn enc_author(o: Option<AuthorV>) -> Seq<char> {
    match o {
        None => seq!['N'],
        Some(a) => seq!['S'] + ("name:"@ + (enc_str(a.name) + ("uri:"@ + enc_str(a.uri)))),
    }
}

/// Reads an optional author.
#[verifier::opaque]
pub open spec fn dec_author(s: Seq<char>) -> Option<(Option<AuthorV>, Seq<char>)> {
    if s.len() >= 1 && s[0] == 'N' {
        Some((None, s.skip(1)))
    } else if s.len() >= 1 && s[0] == 'S' {
        match dec_lit(s.skip(1), "name:"@) {
            Some(s1) => match dec_str(s1) {
                Some((name, s2)) => match dec_lit(s2, "uri:"@) {
                    Some(s3) => match dec_str(s3) {
                        Some((uri, s4)) => Some((Some(AuthorV { name, uri }), s4)),
                        None => None,
                    },
                    None => None,
                },
                None => None,
            },
            None => None,
        }
    } else {
        None
    }
}

/// The optional author fits the codec's bounds.
pub open spec fn author_ok(o: Option<AuthorV>) -> bool {
    o matches Some(a) ==> str_ok(a.name) && str_ok(a.uri)
}

/// Reading an encoded optional author back yields it and the remainder.
#[verifier::rlimit(100)]
pub proof fn lemma_dec_enc_author(o: Option<AuthorV>, rest: Seq<char>)
    requires
        author_ok(o),
    ensures
        dec_author(enc_author(o) + rest) == Some((o, rest)),
{
    reveal(dec_author);
    reveal(enc_author);

    let s = enc_author(o) + rest;
    match o {
        None => {
            assert(s[0] == 'N');
            assert(s.skip(1) =~= rest);
        },
        Some(a) => {
            assert(s[0] == 'S');
            let t3 = enc_str(a.uri) + rest;
            let t2 = "uri:"@ + t3;
            let t1 = enc_str(a.name) + t2;
            assert(s.skip(1) =~= "name:"@ + t1);
            lemma_dec_enc_lit("name:"@, t1);
            lemma_dec_enc_str(a.name, t2);
            lemma_dec_enc_lit("uri:"@, t3);
            lemma_dec_enc_str(a.uri, rest);
        },
    }
}

/// The item fits the codec's bounds.
pub open spec fn item_ok(it: ItemV) -> bool {
    str_ok(it.guid) && opt_ok(it.title) && opt_ok(it.plain_title) && opt_ok(it.imageurl)
        && opt_ok(it.link) && opt_ok(it.description) && author_ok(it.author) && opt_ok(
        it.pub_date,
    ) && opt_ok(it.create_date) && opt_ok(it.update_date) && media_list_ok(it.media_content)
        && opt_ok(it.content_encoded)
}

/// The dated half of one item, fields labeled and in order.
#[verifier::opaque]
pub open spec fn enc_item_tail(it: ItemV) -> Seq<char> {
    "publishedAt:"@ + (enc_opt_str(it.pub_date) + ("createdAt:"@ + (enc_opt_str(it.create_date) + (
    "updatedAt:"@ + (enc_opt_str(it.update_date) + ("media:"@ + (enc_media_list(it.media_content)
        + ("richBody:"@ + enc_opt_str(it.content_encoded)))))))))
}

/// The identifying quarter of one item, fields labeled and in order.
#[verifier::opaque]
pub open spec fn enc_item_head(it: ItemV) -> Seq<char> {
    "guid:"@ + (enc_str(it.guid) + ("title:"@ + (enc_opt_str(it.title) + ("plainTitle:"@
        + (enc_opt_str(it.plain_title) + ("imageurl:"@ + enc_opt_str(it.imageurl)))))))
}

/// The linking quarter of one item, fields labeled and in order.
#[verifier::opaque]
pub open spec fn enc_item_mid(it: ItemV) -> Seq<char> {
    "link:"@ + (enc_opt_str(it.link) + ("body:"@ + (enc_opt_str(it.description) + (
    "author:"@ + enc_author(it.author)))))
}

/// One item, fields labeled and in order.
#[verifier::opaque]
pub open spec fn enc_item(it: ItemV) -> Seq<char> {
    enc_item_head(it) + (enc_item_mid(it) + enc_item_tail(it))
}

/// Reads one item.
#[verifier::opaque]
pub open spec fn dec_item(s: Seq<char>) -> Option<(ItemV, Seq<char>)> {
    match dec_lit(s, "guid:"@) {
        Some(s1) => match dec_str(s1) {
            Some((guid, s2)) => match dec_lit(s2, "title:"@) {
                Some(s3) => match dec_opt_str(s3) {
                    Some((title, s4)) => match dec_lit(s4, "plainTitle:"@) {
                        Some(s5) => match dec_opt_str(s5) {
                            Some((plain_title, s6)) => match dec_lit(s6, "imageurl:"@) {
                                Some(s7) => match dec_opt_str(s7) {
                                    Some((imageurl, s8)) => match dec_lit(s8, "link:"@) {
                                        Some(s9) => match dec_opt_str(s9) {
                                            Some((link, s10)) => match dec_lit(
                                                s10,
                                                "body:"@,
                                            ) {
                                                Some(s11) => match dec_opt_str(s11) {
                                                    Some((description, s12)) => match dec_lit(
                                                        s12,
                                                        "author:"@,
                                                    ) {
                                                        Some(s13) => match dec_author(s13) {
                                                            Some((author, s14)) => dec_item_tail(
                                                                ItemV {
                                                                    guid,
                                                                    title,
                                                                    plain_title,
                                                                    imageurl,
                                                                    link,
                                                                    description,
                                                                    author,
                                                                    pub_date: None,
                                                                    create_date: None,
                                                                    update_date: None,
                                                                    media_content: None,
                                                                    content_encoded: None,
                                                                },
                                                                s14,
                                                            ),
                                                            None => None,
                                                        },
                                                        None => None,
                                                    },
                                                    None => None,
                                                },
                                                None => None,
                                            },
                                            None => None,
                                        },
                                        None => None,
                                    },
                                    None => None,
                                },
                                None => None,
                            },
                            None => None,
                        },
                        None => None,
                    },
                    None => None,
                },
                None => None,
            },
            None => None,
        },
        None => None,
    }
}

/// Reads the dated half of an item into the partly filled `head`.
#[verifier::opaque]
pub open spec fn dec_item_tail(head: ItemV, s: Seq<char>) -> Option<(ItemV, Seq<char>)> {
    match dec_lit(s, "publishedAt:"@) {
        Some(s1) => match dec_opt_str(s1) {
            Some((pub_date, s2)) => match dec_lit(s2, "createdAt:"@) {
                Some(s3) => match dec_opt_str(s3) {
                    Some((create_date, s4)) => match dec_lit(s4, "updatedAt:"@) {
                        Some(s5) => match dec_opt_str(s5) {
                            Some((update_date, s6)) => match dec_lit(s6, "media:"@) {
                                Some(s7) => match dec_media_list(s7) {
                                    Some((media_content, s8)) => match dec_lit(
                                        s8,
                                        "richBody:"@,
                                    ) {
                                        Some(s9) => match dec_opt_str(s9) {
                                            Some((content_encoded, s10)) => Some(
                                                (
                                                    ItemV {
                                                        pub_date,
                                                        create_date,
                                                        update_date,
                                                        media_content,
                                                        content_encoded,
                                                        ..head
                                                    },
                                                    s10,
                                                ),
                                            ),
                                            None => None,
                                        },
                                        None => None,
                                    },
                                    None => None,
                                },
                                None => None,
                            },
                            None => None,
                        },
                        None => None,
                    },
                    None => None,
                },
                None => None,
            },
            None => None,
        },
        None => None,
    }
}

/// Reading an encoded dated half back fills those fields of `head` from
/// `it` and yields the remainder.
#[verifier::rlimit(100)]
pub proof fn lemma_dec_enc_item_tail(it: ItemV, head: ItemV, rest: Seq<char>)
    requires
        opt_ok(it.pub_date),
        opt_ok(it.create_date),
        opt_ok(it.update_date),
        media_list_ok(it.media_content),
        opt_ok(it.content_encoded),
    ensures
        dec_item_tail(head, enc_item_tail(it) + rest) == Some(
            (
                ItemV {
                    pub_date: it.pub_date,
                    create_date: it.create_date,
                    update_date: it.update_date,
                    media_content: it.media_content,
                    content_encoded: it.content_encoded,
                    ..head
                },
                rest,
            ),
        ),
{
    reveal(dec_item_tail);
    reveal(enc_item_tail);
    let t9 = enc_opt_str(it.content_encoded) + rest;
    let t8 = "richBody:"@ + t9;
    let t7 = enc_media_list(it.media_content) + t8;
    let t6 = "media:"@ + t7;
    let t5 = enc_opt_str(it.update_date) + t6;
    let t4 = "updatedAt:"@ + t5;
    let t3 = enc_opt_str(it.create_date) + t4;
    let t2 = "createdAt:"@ + t3;
    let t1 = enc_opt_str(it.pub_date) + t2;
    assert(enc_item_tail(it) + rest =~= "publishedAt:"@ + t1);
    lemma_dec_enc_lit("publishedAt:"@, t1);
    lemma_dec_enc_opt_str(it.pub_date, t2);
    lemma_dec_enc_lit("createdAt:"@, t3);
    lemma_dec_enc_opt_str(it.create_date, t4);
    lemma_dec_enc_lit("updatedAt:"@, t5);
    lemma_dec_enc_opt_str(it.update_date, t6);
    lemma_dec_enc_lit("media:"@, t7);
    lemma_dec_enc_media_list(it.media_content, t8);
    lemma_dec_enc_lit("richBody:"@, t9);
    lemma_dec_enc_opt_str(it.content_encoded, rest);
}

/// Reading an encoded item back yields it and the remainder.
#[verifier::rlimit(100)]
pub proof fn lemma_dec_enc_item(it: ItemV, rest: Seq<char>)
    requires
        item_ok(it),
    ensures
        dec_item(enc_item(it) + rest) == Some((it, rest)),
{
    reveal(dec_item);
    reveal(enc_item);
    reveal(enc_item_head);
    reveal(enc_item_mid);
    let t14 = enc_item_tail(it) + rest;
    let t13 = enc_author(it.author) + t14;
    let t12 = "author:"@ + t13;
    let t11 = enc_opt_str(it.description) + t12;
    let t10 = "body:"@ + t11;
    let t9 = enc_opt_str(it.link) + t10;
    let t8 = "link:"@ + t9;
    let t7 = enc_opt_str(it.imageurl) + t8;
    let t6 = "imageurl:"@ + t7;
    let t5 = enc_opt_str(it.plain_title) + t6;
    let t4 = "plainTitle:"@ + t5;
    let t3 = enc_opt_str(it.title) + t4;
    let t2 = "title:"@ + t3;
    let t1 = enc_str(it.guid) + t2;
    assert(enc_item(it) + rest =~= "guid:"@ + t1);
    lemma_dec_enc_lit("guid:"@, t1);
    lemma_dec_enc_str(it.guid, t2);
    lemma_dec_enc_lit("title:"@, t3);
    lemma_dec_enc_opt_str(it.title, t4);
    lemma_dec_enc_lit("plainTitle:"@, t5);
    lemma_dec_enc_opt_str(it.plain_title, t6);
    lemma_dec_enc_lit("imageurl:"@, t7);
    lemma_dec_enc_opt_str(it.imageurl, t8);
    lemma_dec_enc_lit("link:"@, t9);
    lemma_dec_enc_opt_str(it.link, t10);
    lemma_dec_enc_lit("body:"@, t11);
    lemma_dec_enc_opt_str(it.description, t12);
    lemma_dec_enc_lit("author:"@, t13);
    lemma_dec_enc_author(it.author, t14);
    let head = ItemV {
        guid: it.guid,
        title: it.title,
        plain_title: it.plain_title,
        imageurl: it.imageurl,
        link: it.link,
        description: it.description,
        author: it.author,
        pub_date: None,
        create_date: None,
        update_date: None,
        media_content: None,
        content_encoded: None,
    };
    lemma_dec_enc_item_tail(it, head, rest);
    assert(dec_item(enc_item(it) + rest) matches Some(p) && p.0 =~= it && p.1 == rest);
}

/// The items of a sequence, one after another.
pub open spec fn enc_item_seq(l: Seq<ItemV>) -> Seq<char>
    decreases l.len(),
{
    if l.len() == 0 {
        Seq::empty()
    } else {
        enc_item(l[0]) + enc_item_seq(l.skip(1))
    }
}

/// Reads `n` items.
pub open spec fn dec_item_seq(s: Seq<char>, n: int) -> Option<(Seq<ItemV>, Seq<char>)>
    decreases n,
{
    if n <= 0 {
        Some((Seq::empty(), s))
    } else {
        match dec_item(s) {
            Some((m, r)) => match dec_item_seq(r, n - 1) {
                Some((l, r2)) => Some((seq![m] + l, r2)),
                None => None,
            },
            None => None,
        }
    }
}

/// Every item of the sequence fits the codec's bounds.
pub open spec fn item_seq_ok(l: Seq<ItemV>) -> bool {
    l.len() < nat_cap() && forall|i: int| 0 <= i < l.len() ==> item_ok(#[trigger] l[i])
}

/// Reading an encoded item sequence back yields it and the remainder.
#[verifier::rlimit(100)]
pub proof fn lemma_dec_enc_item_seq(l: Seq<ItemV>, rest: Seq<char>)
    requires
        forall|i: int| 0 <= i < l.len() ==> item_ok(#[trigger] l[i]),
    ensures
        dec_item_seq(enc_item_seq(l) + rest, l.len() as int) == Some((l, rest)),
    decreases l.len(),
{
    if l.len() == 0 {
        assert(enc_item_seq(l) + rest =~= rest);
    } else {
        assert(forall|i: int| 0 <= i < l.len() - 1 ==> l.skip(1)[i] == l[i + 1]);
        lemma_dec_enc_item_seq(l.skip(1), rest);
        let t0 = enc_item_seq(l.skip(1)) + rest;
        assert(enc_item_seq(l) + rest =~= enc_item(l[0]) + t0);
        lemma_dec_enc_item(l[0], t0);
        assert(seq![l[0]] + l.skip(1) =~= l);
    }
}

/// The channel fits the codec's bounds.
pub open spec fn channel_ok(c: ChannelV) -> bool {
    str_ok(c.title) && str_ok(c.link) && item_seq_ok(c.item)
}

/// One channel: title, link, item count and items.
#[verifier::opaque]
pub open spec fn enc_channel(c: ChannelV) -> Seq<char> {
    "title:"@ + (enc_str(c.title) + ("link:"@ + (enc_str(c.link) + ("items:"@ + (enc_nat(
        c.item.len(),
    ) + (seq![';'] + enc_item_seq(c.item)))))))
}

/// Reads one channel.
#[verifier::opaque]
pub open spec fn dec_channel(s: Seq<char>) -> Option<(ChannelV, Seq<char>)> {
    match dec_lit(s, "title:"@) {
        Some(s1) => match dec_str(s1) {
            Some((title, s2)) => match dec_lit(s2, "link:"@) {
                Some(s3) => match dec_str(s3) {
                    Some((link, s4)) => match dec_lit(s4, "items:"@) {
                        Some(s5) => match dec_nat(s5) {
                            Some((n, s6)) => if s6.len() >= 1 && s6[0] == ';' {
                                match dec_item_seq(s6.skip(1), n) {
                                    Some((item, s7)) => Some((ChannelV { title, link, item }, s7)),
                                    None => None,
                                }
                            } else {
                                None
                            },
                            None => None,
                        },
                        None => None,
                    },
                    None => None,
                },
                None => None,
            },
            None => None,
        },
        None => None,
    }
}

/// Reading an encoded channel back yields it and the remainder.
#[verifier::rlimit(100)]
pub proof fn lemma_dec_enc_channel(c: ChannelV, rest: Seq<char>)
    requires
        channel_ok(c),
    ensures
        dec_channel(enc_channel(c) + rest) == Some((c, rest)),
{
    reveal(dec_channel);
    reveal(enc_channel);

    let t6 = enc_item_seq(c.item) + rest;
    let t5 = seq![';'] + t6;
    let t4 = enc_nat(c.item.len()) + t5;
    let t3 = "items:"@ + t4;
    let t2 = enc_str(c.link) + t3;
    let t1 = "link:"@ + t2;
    let t0 = enc_str(c.title) + t1;
    assert(enc_channel(c) + rest =~= "title:"@ + t0);
    lemma_dec_enc_lit("title:"@, t0);
    lemma_dec_enc_str(c.title, t1);
    lemma_dec_enc_lit("link:"@, t2);
    lemma_dec_enc_str(c.link, t3);
    lemma_dec_enc_lit("items:"@, t4);
    lemma_dec_enc_nat(c.item.len(), t5);
    assert(t5[0] == ';');
    assert(t5.skip(1) =~= t6);
    lemma_dec_enc_item_seq(c.item, rest);
    assert(dec_channel(enc_channel(c) + rest) matches Some(p) && p.0 =~= c && p.1 == rest);
}

/// The feed document fits the codec's bounds.
pub open spec fn rss_ok(r: RssV) -> bool {
    channel_ok(r.channel) && opt_ok(r.version) && opt_ok(r.webfeeds) && opt_ok(r.media) && opt_ok(
        r.content,
    )
}

/// One canonical feed document: its channel and namespace attributes.
#[verifier::opaque]
pub open spec fn enc_rss(r: RssV) -> Seq<char> {
    "channel:"@ + (enc_channel(r.channel) + ("version:"@ + (enc_opt_str(r.version) + ("webfeeds:"@
        + (enc_opt_str(r.webfeeds) + ("mediaNs:"@ + (enc_opt_str(r.media) + ("contentNs:"@
        + enc_opt_str(r.content)))))))))
}

/// Reads one canonical feed document.
#[verifier::opaque]
pub open spec fn dec_rss(s: Seq<char>) -> Option<(RssV, Seq<char>)> {
    match dec_lit(s, "channel:"@) {
        Some(s1) => match dec_channel(s1) {
            Some((channel, s2)) => match dec_lit(s2, "version:"@) {
                Some(s3) => match dec_opt_str(s3) {
                    Some((version, s4)) => match dec_lit(s4, "webfeeds:"@) {
                        Some(s5) => match dec_opt_str(s5) {
                            Some((webfeeds, s6)) => match dec_lit(s6, "mediaNs:"@) {
                                Some(s7) => match dec_opt_str(s7) {
                                    Some((media, s8)) => match dec_lit(s8, "contentNs:"@) {
                                        Some(s9) => match dec_opt_str(s9) {
                                            Some((content, s10)) => Some(
                                                (
                                                    RssV {
                                                        channel,
                                                        version,
                                                        webfeeds,
                                                        media,
                                                        content,
                                                    },
                                                    s10,
                                                ),
                                            ),
                                            None => None,
                                        },
                                        None => None,
                                    },
                                    None => None,
                                },
                                None => None,
                            },
                            None => None,
                        },
                        None => None,
                    },
                    None => None,
                },
                None => None,
            },
            None => None,
        },
        None => None,
    }
}

/// Reading an encoded feed document back yields it and the remainder.
#[verifier::rlimit(100)]
pub proof fn lemma_dec_enc_rss(r: RssV, rest: Seq<char>)
    requires
        rss_ok(r),
    ensures
        dec_rss(enc_rss(r) + rest) == Some((r, rest)),
{
    reveal(dec_rss);
    reveal(enc_rss);

    let t8 = enc_opt_str(r.content) + rest;
    let t7 = "contentNs:"@ + t8;
    let t6 = enc_opt_str(r.media) + t7;
    let t5 = "mediaNs:"@ + t6;
    let t4 = enc_opt_str(r.webfeeds) + t5;
    let t3 = "webfeeds:"@ + t4;
    let t2 = enc_opt_str(r.version) + t3;
    let t1 = "version:"@ + t2;
    let t0 = enc_channel(r.channel) + t1;
    assert(enc_rss(r) + rest =~= "channel:"@ + t0);
    lemma_dec_enc_lit("channel:"@, t0);
    lemma_dec_enc_channel(r.channel, t1);
    lemma_dec_enc_lit("version:"@, t2);
    lemma_dec_enc_opt_str(r.version, t3);
    lemma_dec_enc_lit("webfeeds:"@, t4);
    lemma_dec_enc_opt_str(r.webfeeds, t5);
    lemma_dec_enc_lit("mediaNs:"@, t6);
    lemma_dec_enc_opt_str(r.media, t7);
    lemma_dec_enc_lit("contentNs:"@, t8);
    lemma_dec_enc_opt_str(r.content, rest);
    assert(dec_rss(enc_rss(r) + rest) matches Some(p) && p.0 =~= r && p.1 == rest);
}

/// A source's stored state fits the codec's bounds.
pub open spec fn options_ok(o: FeedOptionsV) -> bool {
    rss_ok(o.rss) && str_ok(o.manipulate_input) && str_ok(o.title) && str_ok(o.link)
}

/// One source's stored state.
#[verifier::opaque]
pub open spec fn enc_options(o: FeedOptionsV) -> Seq<char> {
    "rss:"@ + (enc_rss(o.rss) + ("transformCommand:"@ + (enc_str(o.manipulate_input) + (
    "retainAllEntries:"@ + (enc_bool(o.retain_all_entries) + ("sourceTitle:"@ + (enc_str(o.title)
        + ("sourceLink:"@ + enc_str(o.link)))))))))
}

/// Reads one source's stored state.
#[verifier::opaque]
pub open spec fn dec_options(s: Seq<char>) -> Option<(FeedOptionsV, Seq<char>)> {
    match dec_lit(s, "rss:"@) {
        Some(s1) => match dec_rss(s1) {
            Some((rss, s2)) => match dec_lit(s2, "transformCommand:"@) {
                Some(s3) => match dec_str(s3) {
                    Some((manipulate_input, s4)) => match dec_lit(s4, "retainAllEntries:"@) {
                        Some(s5) => match dec_bool(s5) {
                            Some((retain_all_entries, s6)) => match dec_lit(s6, "sourceTitle:"@) {
                                Some(s7) => match dec_str(s7) {
                                    Some((title, s8)) => match dec_lit(s8, "sourceLink:"@) {
                                        Some(s9) => match dec_str(s9) {
                                            Some((link, s10)) => Some(
                                                (
                                                    FeedOptionsV {
                                                        rss,
                                                        manipulate_input,
                                                        retain_all_entries,
                                                        title,
                                                        link,
                                                    },
                                                    s10,
                                                ),
                                            ),
                                            None => None,
                                        },
                                        None => None,
                                    },
                                    None => None,
                                },
                                None => None,
                            },
                            None => None,
                        },
                        None => None,
                    },
                    None => None,
                },
                None => None,
            },
            None => None,
        },
        None => None,
    }
}

/// Reading an encoded source state back yields it and the remainder.
#[verifier::rlimit(100)]
pub proof fn lemma_dec_enc_options(o: FeedOptionsV, rest: Seq<char>)
    requires
        options_ok(o),
    ensures
        dec_options(enc_options(o) + rest) == Some((o, rest)),
{
    reveal(dec_options);
    reveal(enc_options);

    let t8 = enc_str(o.link) + rest;
    let t7 = "sourceLink:"@ + t8;
    let t6 = enc_str(o.title) + t7;
    let t5 = "sourceTitle:"@ + t6;
    let t4 = enc_bool(o.retain_all_entries) + t5;
    let t3 = "retainAllEntries:"@ + t4;
    let t2 = enc_str(o.manipulate_input) + t3;
    let t1 = "transformCommand:"@ + t2;
    let t0 = enc_rss(o.rss) + t1;
    assert(enc_options(o) + rest =~= "rss:"@ + t0);
    lemma_dec_enc_lit("rss:"@, t0);
    lemma_dec_enc_rss(o.rss, t1);
    lemma_dec_enc_lit("transformCommand:"@, t2);
    lemma_dec_enc_str(o.manipulate_input, t3);
    lemma_dec_enc_lit("retainAllEntries:"@, t4);
    lemma_dec_enc_bool(o.retain_all_entries, t5);
    lemma_dec_enc_lit("sourceTitle:"@, t6);
    lemma_dec_enc_str(o.title, t7);
    lemma_dec_enc_lit("sourceLink:"@, t8);
    lemma_dec_enc_str(o.link, rest);
    assert(dec_options(enc_options(o) + rest) matches Some(p) && p.0 =~= o && p.1 == rest);
}

/// One store slot: the source URL and its state.
#[verifier::opaque]
pub open spec fn enc_slot(f: FeedSourceV) -> Seq<char> {
    "url:"@ + (enc_str(f.url) + ("state:"@ + enc_options(f.options)))
}

/// Reads one store slot.
#[verifier::opaque]
pub open spec fn dec_slot(s: Seq<char>) -> Option<(FeedSourceV, Seq<char>)> {
    match dec_lit(s, "url:"@) {
        Some(s1) => match dec_str(s1) {
            Some((url, s2)) => match dec_lit(s2, "state:"@) {
                Some(s3) => match dec_options(s3) {
                    Some((options, s4)) => Some((FeedSourceV { url, options }, s4)),
                    None => None,
                },
                None => None,
            },
            None => None,
        },
        None => None,
    }
}

/// The slot fits the codec's bounds.
pub open spec fn slot_ok(f: FeedSourceV) -> bool {
    str_ok(f.url) && options_ok(f.options)
}

/// Reading an encoded slot back yields it and the remainder.
#[verifier::rlimit(100)]
pub proof fn lemma_dec_enc_slot(f: FeedSourceV, rest: Seq<char>)
    requires
        slot_ok(f),
    ensures
        dec_slot(enc_slot(f) + rest) == Some((f, rest)),
{
    reveal(dec_slot);
    reveal(enc_slot);

    let t3 = enc_options(f.options) + rest;
    let t2 = "state:"@ + t3;
    let t1 = enc_str(f.url) + t2;
    assert(enc_slot(f) + rest =~= "url:"@ + t1);
    lemma_dec_enc_lit("url:"@, t1);
    lemma_dec_enc_str(f.url, t2);
    lemma_dec_enc_lit("state:"@, t3);
    lemma_dec_enc_options(f.options, rest);
    assert(dec_slot(enc_slot(f) + rest) matches Some(p) && p.0 =~= f && p.1 == rest);
}

/// The slots of a sequence, one after another.
pub open spec fn enc_slot_seq(l: Seq<FeedSourceV>) -> Seq<char>
    decreases l.len(),
{
    if l.len() == 0 {
        Seq::empty()
    } else {
        enc_slot(l[0]) + enc_slot_seq(l.skip(1))
    }
}

/// Reads `n` slots.
pub open spec fn dec_slot_seq(s: Seq<char>, n: int) -> Option<(Seq<FeedSourceV>, Seq<char>)>
    decreases n,
{
    if n <= 0 {
        Some((Seq::empty(), s))
    } else {
        match dec_slot(s) {
            Some((m, r)) => match dec_slot_seq(r, n - 1) {
                Some((l, r2)) => Some((seq![m] + l, r2)),
                None => None,
            },
            None => None,
        }
    }
}

/// Every slot of the sequence fits the codec's bounds.
pub open spec fn slot_seq_ok(l: Seq<FeedSourceV>) -> bool {
    l.len() < nat_cap() && forall|i: int| 0 <= i < l.len() ==> slot_ok(#[trigger] l[i])
}

/// Reading an encoded slot sequence back yields it and the remainder.
#[verifier::rlimit(100)]
pub proof fn lemma_dec_enc_slot_seq(l: Seq<FeedSourceV>, rest: Seq<char>)
    requires
        forall|i: int| 0 <= i < l.len() ==> slot_ok(#[trigger] l[i]),
    ensures
        dec_slot_seq(enc_slot_seq(l) + rest, l.len() as int) == Some((l, rest)),
    decreases l.len(),
{
    if l.len() == 0 {
        assert(enc_slot_seq(l) + rest =~= rest);
    } else {
        assert(forall|i: int| 0 <= i < l.len() - 1 ==> l.skip(1)[i] == l[i + 1]);
        lemma_dec_enc_slot_seq(l.skip(1), rest);
        let t0 = enc_slot_seq(l.skip(1)) + rest;
        assert(enc_slot_seq(l) + rest =~= enc_slot(l[0]) + t0);
        lemma_dec_enc_slot(l[0], t0);
        assert(seq![l[0]] + l.skip(1) =~= l);
    }
}

/// The store fits the codec's bounds: every string and count below the
/// digit cap, and the numeric policies in signed 32-bit range, as any store
/// held in memory is.
pub open spec fn db_ok(d: DbV) -> bool {
    slot_seq_ok(d.rss) && str_ok(d.title) && str_ok(d.link) && str_ok(d.title_ellipsis) && -0x8000_0000
        <= d.description_title_word_count < 0x8000_0000 && -0x8000_0000 <= d.max_entries_published
        < 0x8000_0000
}

/// The policy half of the store as structured text.
#[verifier::opaque]
pub open spec fn enc_db_tail(d: DbV) -> Seq<char> {
    "includeDescriptionAsTitleIfNoneGiven:"@ + (enc_bool(d.include_description_as_title_if_none_given) + (
    "descriptionTitleWordCount:"@ + (enc_i32(d.description_title_word_count) + ("titleEllipsis:"@ + (enc_str(
        d.title_ellipsis,
    ) + ("populateContentEncoded:"@ + (enc_bool(d.populate_content_encoded) + ("addMediaToContentEncoded:"@ + (enc_bool(
        d.add_media_to_content_encoded,
    ) + ("maxEntriesPublished:"@ + (enc_i32(d.max_entries_published) + ("overrideItemAuthor:"@ + enc_bool(
        d.override_item_author,
    )))))))))))))
}

/// The source half of the store as structured text.
#[verifier::opaque]
pub open spec fn enc_db_head(d: DbV) -> Seq<char> {
    "sources:"@ + (enc_nat(d.rss.len()) + (seq![';'] + (enc_slot_seq(d.rss) + ("outputOneChannel:"@
        + (enc_bool(d.output_one_channel) + ("outputTitle:"@ + (enc_str(d.title) + ("outputLink:"@
        + enc_str(d.link)))))))))
}

/// The whole store as structured text.
#[verifier::opaque]
pub open spec fn enc_db(d: DbV) -> Seq<char> {
    enc_db_head(d) + enc_db_tail(d)
}

/// Reads a whole store.
#[verifier::opaque]
pub open spec fn dec_db(s: Seq<char>) -> Option<(DbV, Seq<char>)> {
    match dec_lit(s, "sources:"@) {
        Some(s1) => match dec_nat(s1) {
            Some((n, s2)) => if s2.len() >= 1 && s2[0] == ';' {
                match dec_slot_seq(s2.skip(1), n) {
                    Some((rss, s3)) => match dec_lit(s3, "outputOneChannel:"@) {
                        Some(s4) => match dec_bool(s4) {
                            Some((output_one_channel, s5)) => match dec_lit(s5, "outputTitle:"@) {
                                Some(s6) => match dec_str(s6) {
                                    Some((title, s7)) => match dec_lit(s7, "outputLink:"@) {
                                        Some(s8) => match dec_str(s8) {
                                            Some((link, s9)) => dec_db_tail(
                                                DbV {
                                                    rss,
                                                    output_one_channel,
                                                    title,
                                                    link,
                                                    include_description_as_title_if_none_given:
                                                        false,
                                                    description_title_word_count: 0,
                                                    title_ellipsis: Seq::empty(),
                                                    populate_content_encoded: false,
                                                    add_media_to_content_encoded: false,
                                                    max_entries_published: 0,
                                                    override_item_author: false,
                                                },
                                                s9,
                                            ),
                                            None => None,
                                        },
                                        None => None,
                                    },
                                    None => None,
                                },
                                None => None,
                            },
                            None => None,
                        },
                        None => None,
                    },
                    None => None,
                }
            } else {
                None
            },
            None => None,
        },
        None => None,
    }
}

/// Reads the policy half of a store into the partly filled `head`.
#[verifier::opaque]
pub open spec fn dec_db_tail(head: DbV, s: Seq<char>) -> Option<(DbV, Seq<char>)> {
    match dec_lit(s, "includeDescriptionAsTitleIfNoneGiven:"@) {
        Some(s1) => match dec_bool(s1) {
            Some((tfb, s2)) => match dec_lit(s2, "descriptionTitleWordCount:"@) {
                Some(s3) => match dec_i32(s3) {
                    Some((twc, s4)) => match dec_lit(s4, "titleEllipsis:"@) {
                        Some(s5) => match dec_str(s5) {
                            Some((ell, s6)) => match dec_lit(s6, "populateContentEncoded:"@) {
                                Some(s7) => match dec_bool(s7) {
                                    Some((pce, s8)) => match dec_lit(s8, "addMediaToContentEncoded:"@) {
                                        Some(s9) => match dec_bool(s9) {
                                            Some((amc, s10)) => match dec_lit(s10, "maxEntriesPublished:"@) {
                                                Some(s11) => match dec_i32(s11) {
                                                    Some((mep, s12)) => match dec_lit(
                                                        s12,
                                                        "overrideItemAuthor:"@,
                                                    ) {
                                                        Some(s13) => match dec_bool(s13) {
                                                            Some((ova, s14)) => Some(
                                                                (
                                                                    DbV {
                                                                        include_description_as_title_if_none_given:
                                                                            tfb,
                                                                        description_title_word_count:
                                                                            twc,
                                                                        title_ellipsis: ell,
                                                                        populate_content_encoded:
                                                                            pce,
                                                                        add_media_to_content_encoded:
                                                                            amc,
                                                                        max_entries_published: mep,
                                                                        override_item_author: ova,
                                                                        ..head
                                                                    },
                                                                    s14,
                                                                ),
                                                            ),
                                                            None => None,
                                                        },
                                                        None => None,
                                                    },
                                                    None => None,
                                                },
                                                None => None,
                                            },
                                            None => None,
                                        },
                                        None => None,
                                    },
                                    None => None,
                                },
                                None => None,
                            },
                            None => None,
                        },
                        None => None,
                    },
                    None => None,
                },
                None => None,
            },
            None => None,
        },
        None => None,
    }
}

/// Reading an encoded policy half back fills those fields of `head` from
/// `d` and yields the remainder.
#[verifier::rlimit(100)]
pub proof fn lemma_dec_enc_db_tail(d: DbV, head: DbV, rest: Seq<char>)
    requires
        str_ok(d.title_ellipsis),
        -0x8000_0000 <= d.description_title_word_count < 0x8000_0000,
        -0x8000_0000 <= d.max_entries_published < 0x8000_0000,
    ensures
        dec_db_tail(head, enc_db_tail(d) + rest) == Some(
            (
                DbV {
                    include_description_as_title_if_none_given:
                        d.include_description_as_title_if_none_given,
                    description_title_word_count: d.description_title_word_count,
                    title_ellipsis: d.title_ellipsis,
                    populate_content_encoded: d.populate_content_encoded,
                    add_media_to_content_encoded: d.add_media_to_content_encoded,
                    max_entries_published: d.max_entries_published,
                    override_item_author: d.override_item_author,
                    ..head
                },
                rest,
            ),
        ),
{
    reveal(dec_db_tail);
    reveal(enc_db_tail);
    let t13 = enc_bool(d.override_item_author) + rest;
    let t12 = "overrideItemAuthor:"@ + t13;
    let t11 = enc_i32(d.max_entries_published) + t12;
    let t10 = "maxEntriesPublished:"@ + t11;
    let t9 = enc_bool(d.add_media_to_content_encoded) + t10;
    let t8 = "addMediaToContentEncoded:"@ + t9;
    let t7 = enc_bool(d.populate_content_encoded) + t8;
    let t6 = "populateContentEncoded:"@ + t7;
    let t5 = enc_str(d.title_ellipsis) + t6;
    let t4 = "titleEllipsis:"@ + t5;
    let t3 = enc_i32(d.description_title_word_count) + t4;
    let t2 = "descriptionTitleWordCount:"@ + t3;
    let t1 = enc_bool(d.include_description_as_title_if_none_given) + t2;
    assert(enc_db_tail(d) + rest =~= "includeDescriptionAsTitleIfNoneGiven:"@ + t1);
    lemma_dec_enc_lit("includeDescriptionAsTitleIfNoneGiven:"@, t1);
    lemma_dec_enc_bool(d.include_description_as_title_if_none_given, t2);
    lemma_dec_enc_lit("descriptionTitleWordCount:"@, t3);
    lemma_dec_enc_i32(d.description_title_word_count, t4);
    lemma_dec_enc_lit("titleEllipsis:"@, t5);
    lemma_dec_enc_str(d.title_ellipsis, t6);
    lemma_dec_enc_lit("populateContentEncoded:"@, t7);
    lemma_dec_enc_bool(d.populate_content_encoded, t8);
    lemma_dec_enc_lit("addMediaToContentEncoded:"@, t9);
    lemma_dec_enc_bool(d.add_media_to_content_encoded, t10);
    lemma_dec_enc_lit("maxEntriesPublished:"@, t11);
    lemma_dec_enc_i32(d.max_entries_published, t12);
    lemma_dec_enc_lit("overrideItemAuthor:"@, t13);
    lemma_dec_enc_bool(d.override_item_author, rest);
}

/// Round trip: reading an encoded store back yields the store,
/// field for field, with nothing left over.
#[verifier::rlimit(100)]
pub proof fn lemma_store_round_trip(d: DbV)
    requires
        db_ok(d),
    ensures
        dec_db(enc_db(d)) matches Some(p) && p.0 == d && p.1.len() == 0,
{
    reveal(dec_db);
    reveal(enc_db);
    reveal(enc_db_head);
    let rest = Seq::<char>::empty();
    let t8 = enc_db_tail(d) + rest;
    let t7 = enc_str(d.link) + t8;
    let t6 = "outputLink:"@ + t7;
    let t5 = enc_str(d.title) + t6;
    let t4 = "outputTitle:"@ + t5;
    let t3 = enc_bool(d.output_one_channel) + t4;
    let t2 = "outputOneChannel:"@ + t3;
    let t1 = enc_slot_seq(d.rss) + t2;
    let t0a = seq![';'] + t1;
    let t0 = enc_nat(d.rss.len()) + t0a;
    assert(enc_db(d) =~= "sources:"@ + t0);
    lemma_dec_enc_lit("sources:"@, t0);
    lemma_dec_enc_nat(d.rss.len(), t0a);
    assert(t0a[0] == ';');
    assert(t0a.skip(1) =~= t1);
    lemma_dec_enc_slot_seq(d.rss, t2);
    lemma_dec_enc_lit("outputOneChannel:"@, t3);
    lemma_dec_enc_bool(d.output_one_channel, t4);
    lemma_dec_enc_lit("outputTitle:"@, t5);
    lemma_dec_enc_str(d.title, t6);
    lemma_dec_enc_lit("outputLink:"@, t7);
    lemma_dec_enc_str(d.link, t8);
    let head = DbV {
        rss: d.rss,
        output_one_channel: d.output_one_channel,
        title: d.title,
        link: d.link,
        include_description_as_title_if_none_given: false,
        description_title_word_count: 0,
        title_ellipsis: Seq::empty(),
        populate_content_encoded: false,
        add_media_to_content_encoded: false,
        max_entries_published: 0,
        override_item_author: false,
    };
    lemma_dec_enc_db_tail(d, head, rest);
    assert(dec_db(enc_db(d)) matches Some(p) && p.0 =~= d && p.1 == rest);
}


// ---------------------------------------------------------------------------
// Executable encoding
// ---------------------------------------------------------------------------

/// The digit character of `n`.
fn digit_of(n: u64) -> (c: char)
    requires
        n < 10,
    ensures
        c == digit_char_of(n as int),
{
    if n == 0 {
        '0'
    } else if n == 1 {
        '1'
    } else if n == 2 {
        '2'
    } else if n == 3 {
        '3'
    } else if n == 4 {
        '4'
    } else if n == 5 {
        '5'
    } else if n == 6 {
        '6'
    } else if n == 7 {
        '7'
    } else if n == 8 {
        '8'
    } else {
        '9'
    }
}

/// Appends the decimal digits of `n`.
fn push_nat(out: &mut Vec<char>, n: u64)
    ensures
        final(out)@ == old(out)@ + enc_nat(n as nat),
    decreases n,
{
    if n < 10 {
        let c = digit_of(n);
        out.push(c);
        proof {
            assert(out@ =~= old(out)@ + enc_nat(n as nat));
        }
    } else {
        push_nat(out, n / 10);
        let c = digit_of(n % 10);
        out.push(c);
        proof {
            assert(out@ =~= old(out)@ + enc_nat(n as nat));
        }
    }
}

/// Appends a length-prefixed string.
fn push_enc_str(out: &mut Vec<char>, s: &str)
    ensures
        final(out)@ == old(out)@ + enc_str(s@),
{
    let v = crate::text::to_chars(s);
    push_enc_chars(out, &v);
}

/// Appends a length-prefixed character vector.
fn push_enc_chars(out: &mut Vec<char>, v: &Vec<char>)
    ensures
        final(out)@ == old(out)@ + enc_str(v@),
{
    let ghost orig = out@;
    push_nat(out, v.len() as u64);
    out.push(':');
    crate::text::push_all(out, v);
    proof {
        assert(out@ =~= orig + enc_str(v@));
    }
}

/// Appends a boolean marker.
fn push_bool(out: &mut Vec<char>, b: bool)
    ensures
        final(out)@ == old(out)@ + enc_bool(b),
{
    if b {
        out.push('T');
    } else {
        out.push('F');
    }
    proof {
        assert(out@ =~= old(out)@ + enc_bool(b));
    }
}

/// Appends a signed number and its closing semicolon.
fn push_i32(out: &mut Vec<char>, i: i32)
    ensures
        final(out)@ == old(out)@ + enc_i32(i as int),
{
    let ghost orig = out@;
    let wide: i64 = i as i64;
    if wide < 0 {
        out.push('-');
        push_nat(out, (-wide) as u64);
    } else {
        push_nat(out, wide as u64);
    }
    out.push(';');
    proof {
        assert(out@ =~= orig + enc_i32(i as int));
    }
}

/// Appends an optional length-prefixed string.
fn push_opt_str(out: &mut Vec<char>, o: &Option<String>)
    ensures
        final(out)@ == old(out)@ + enc_opt_str(o.deep_view()),
{
    match o {
        None => {
            out.push('N');
            proof {
                assert(out@ =~= old(out)@ + enc_opt_str(o.deep_view()));
            }
        },
        Some(v) => {
            let ghost orig = out@;
            out.push('S');
            push_enc_str(out, v.as_str());
            proof {
                assert(out@ =~= orig + enc_opt_str(o.deep_view()));
            }
        },
    }
}

/// Appends one labeled media asset.
#[verifier::rlimit(100)]
fn push_enc_media(out: &mut Vec<char>, m: &crate::structs::MediaContent)
    ensures
        final(out)@ == old(out)@ + enc_media(m.deep_view()),
{
    let ghost orig = out@;
    crate::text::push_str_chars(out, "url:");
    push_enc_str(out, m.url.as_str());
    crate::text::push_str_chars(out, "description:");
    push_opt_str(out, &m.description);
    crate::text::push_str_chars(out, "mimeType:");
    push_enc_str(out, m.mime_type.as_str());
    crate::text::push_str_chars(out, "fileSize:");
    push_opt_str(out, &m.file_size);
    crate::text::push_str_chars(out, "medium:");
    push_enc_str(out, m.medium.as_str());
    proof {
        reveal(enc_media);
        assert(out@ =~= orig + enc_media(m.deep_view()));
    }
}

/// Appends an optional media list: marker, count and assets.
#[verifier::rlimit(100)]
fn push_enc_media_list(out: &mut Vec<char>, o: &Option<Vec<crate::structs::MediaContent>>)
    ensures
        final(out)@ == old(out)@ + enc_media_list(o.deep_view()),
{
    match o {
        None => {
            out.push('N');
            proof {
                reveal(enc_media_list);
                assert(out@ =~= old(out)@ + enc_media_list(o.deep_view()));
            }
        },
        Some(l) => {
            let ghost orig = out@;
            let ghost lv = l.deep_view();
            out.push('S');
            push_nat(out, l.len() as u64);
            out.push(';');
            let ghost mid = out@;
            let mut i: usize = 0;
            proof {
                assert(lv.take(0) =~= Seq::<MediaV>::empty());
                assert(enc_media_seq(Seq::<MediaV>::empty()) == Seq::<char>::empty());
                assert(mid + Seq::<char>::empty() =~= mid);
            }
            while i < l.len()
                invariant
                    i <= l.len(),
                    lv == l.deep_view(),
                    l.len() == lv.len(),
                    out@ == mid + enc_media_seq(lv.take(i as int)),
                decreases l.len() - i,
            {
                push_enc_media(out, &l[i]);
                proof {
                    lemma_enc_media_seq_snoc(lv.take(i as int), lv[i as int]);
                    assert(lv.take(i + 1) =~= lv.take(i as int).push(lv[i as int]));
                    assert(mid + (enc_media_seq(lv.take(i as int)) + enc_media(lv[i as int])) =~= (
                    mid + enc_media_seq(lv.take(i as int))) + enc_media(lv[i as int]));
                }
                i += 1;
            }
            proof {
                assert(lv.take(lv.len() as int) =~= lv);
                reveal(enc_media_list);
                assert(out@ =~= orig + enc_media_list(o.deep_view()));
            }
        },
    }
}

/// Appending one more asset appends its encoding.
proof fn lemma_enc_media_seq_snoc(l: Seq<MediaV>, m: MediaV)
    ensures
        enc_media_seq(l.push(m)) == enc_media_seq(l) + enc_media(m),
    decreases l.len(),
{
    if l.len() == 0 {
        assert(l.push(m)[0] == m);
        assert(l.push(m).skip(1) =~= Seq::<MediaV>::empty());
        assert(enc_media_seq(Seq::<MediaV>::empty()) == Seq::<char>::empty());
        assert(enc_media_seq(l.push(m)) =~= enc_media_seq(l) + enc_media(m));
    } else {
        lemma_enc_media_seq_snoc(l.skip(1), m);
        assert(l.push(m).skip(1) =~= l.skip(1).push(m));
        assert(l.push(m)[0] == l[0]);
        assert(enc_media(l[0]) + (enc_media_seq(l.skip(1)) + enc_media(m)) =~= (enc_media(l[0])
            + enc_media_seq(l.skip(1))) + enc_media(m));
    }
}

/// Appends an optional labeled author.
#[verifier::rlimit(100)]
fn push_enc_author(out: &mut Vec<char>, o: &Option<crate::structs::Author>)
    ensures
        final(out)@ == old(out)@ + enc_author(o.deep_view()),
{
    match o {
        None => {
            out.push('N');
            proof {
                reveal(enc_author);
                assert(out@ =~= old(out)@ + enc_author(o.deep_view()));
            }
        },
        Some(a) => {
            let ghost orig = out@;
            out.push('S');
            crate::text::push_str_chars(out, "name:");
            push_enc_str(out, a.name.as_str());
            crate::text::push_str_chars(out, "uri:");
            push_enc_str(out, a.uri.as_str());
            proof {
                reveal(enc_author);
                assert(out@ =~= orig + enc_author(o.deep_view()));
            }
        },
    }
}

/// Appends one labeled item.
/// Appends the identifying quarter of one item.
#[verifier::rlimit(100)]
fn push_item_head(out: &mut Vec<char>, it: &crate::structs::Item)
    ensures
        final(out)@ == old(out)@ + enc_item_head(it.deep_view()),
{
    let ghost orig = out@;
    crate::text::push_str_chars(out, "guid:");
    push_enc_str(out, it.guid.as_str());
    crate::text::push_str_chars(out, "title:");
    push_opt_str(out, &it.title);
    crate::text::push_str_chars(out, "plainTitle:");
    push_opt_str(out, &it.plain_title);
    crate::text::push_str_chars(out, "imageurl:");
    push_opt_str(out, &it.imageurl);
    proof {
        reveal(enc_item_head);
        assert(out@ =~= orig + enc_item_head(it.deep_view()));
    }
}

/// Appends the linking quarter of one item.
#[verifier::rlimit(100)]
fn push_item_mid(out: &mut Vec<char>, it: &crate::structs::Item)
    ensures
        final(out)@ == old(out)@ + enc_item_mid(it.deep_view()),
{
    let ghost orig = out@;
    crate::text::push_str_chars(out, "link:");
    push_opt_str(out, &it.link);
    crate::text::push_str_chars(out, "body:");
    push_opt_str(out, &it.description);
    crate::text::push_str_chars(out, "author:");
    push_enc_author(out, &it.author);
    proof {
        reveal(enc_item_mid);
        assert(out@ =~= orig + enc_item_mid(it.deep_view()));
    }
}

/// Appends the dated half of one item.
#[verifier::rlimit(100)]
fn push_item_dates(out: &mut Vec<char>, it: &crate::structs::Item)
    ensures
        final(out)@ == old(out)@ + enc_item_tail(it.deep_view()),
{
    let ghost orig = out@;
    crate::text::push_str_chars(out, "publishedAt:");
    push_opt_str(out, &it.pub_date);
    crate::text::push_str_chars(out, "createdAt:");
    push_opt_str(out, &it.create_date);
    crate::text::push_str_chars(out, "updatedAt:");
    push_opt_str(out, &it.update_date);
    let ghost mid = out@;
    crate::text::push_str_chars(out, "media:");
    push_enc_media_list(out, &it.media_content);
    crate::text::push_str_chars(out, "richBody:");
    push_opt_str(out, &it.content_encoded);
    proof {
        reveal(enc_item_tail);
        assert(out@ =~= mid + ("media:"@ + (enc_media_list(it.deep_view().media_content) + (
        "richBody:"@ + enc_opt_str(it.deep_view().content_encoded)))));
        assert(out@ =~= orig + enc_item_tail(it.deep_view()));
    }
}

/// Appends one labeled item.
fn push_enc_item(out: &mut Vec<char>, it: &crate::structs::Item)
    ensures
        final(out)@ == old(out)@ + enc_item(it.deep_view()),
{
    let ghost orig = out@;
    push_item_head(out, it);
    push_item_mid(out, it);
    push_item_dates(out, it);
    proof {
        reveal(enc_item);
        assert(out@ =~= orig + enc_item(it.deep_view()));
    }
}

/// Appending one more item appends its encoding.
proof fn lemma_enc_item_seq_snoc(l: Seq<ItemV>, m: ItemV)
    ensures
        enc_item_seq(l.push(m)) == enc_item_seq(l) + enc_item(m),
    decreases l.len(),
{
    if l.len() == 0 {
        assert(l.push(m)[0] == m);
        assert(l.push(m).skip(1) =~= Seq::<ItemV>::empty());
        assert(enc_item_seq(Seq::<ItemV>::empty()) == Seq::<char>::empty());
        assert(enc_item_seq(l.push(m)) =~= enc_item_seq(l) + enc_item(m));
    } else {
        lemma_enc_item_seq_snoc(l.skip(1), m);
        assert(l.push(m).skip(1) =~= l.skip(1).push(m));
        assert(l.push(m)[0] == l[0]);
        assert(enc_item(l[0]) + (enc_item_seq(l.skip(1)) + enc_item(m)) =~= (enc_item(l[0])
            + enc_item_seq(l.skip(1))) + enc_item(m));
    }
}

/// Appends one labeled channel.
#[verifier::rlimit(100)]
fn push_enc_channel(out: &mut Vec<char>, c: &crate::structs::Channel)
    ensures
        final(out)@ == old(out)@ + enc_channel(c.deep_view()),
{
    let ghost orig = out@;
    crate::text::push_str_chars(out, "title:");
    push_enc_str(out, c.title.as_str());
    crate::text::push_str_chars(out, "link:");
    push_enc_str(out, c.link.as_str());
    crate::text::push_str_chars(out, "items:");
    push_nat(out, c.item.len() as u64);
    out.push(';');
    let ghost mid = out@;
    let ghost lv = c.item.deep_view();
    let mut i: usize = 0;
    proof {
        assert(lv.take(0) =~= Seq::<ItemV>::empty());
        assert(enc_item_seq(Seq::<ItemV>::empty()) == Seq::<char>::empty());
        assert(mid + Seq::<char>::empty() =~= mid);
    }
    while i < c.item.len()
        invariant
            i <= c.item.len(),
            lv == c.item.deep_view(),
            c.item.len() == lv.len(),
            out@ == mid + enc_item_seq(lv.take(i as int)),
        decreases c.item.len() - i,
    {
        push_enc_item(out, &c.item[i]);
        proof {
            lemma_enc_item_seq_snoc(lv.take(i as int), lv[i as int]);
            assert(lv.take(i + 1) =~= lv.take(i as int).push(lv[i as int]));
            assert(mid + (enc_item_seq(lv.take(i as int)) + enc_item(lv[i as int])) =~= (mid
                + enc_item_seq(lv.take(i as int))) + enc_item(lv[i as int]));
        }
        i += 1;
    }
    proof {
        assert(lv.take(lv.len() as int) =~= lv);
        reveal(enc_channel);
        assert(out@ =~= orig + enc_channel(c.deep_view()));
    }
}

/// Appends one labeled feed document.
#[verifier::rlimit(100)]
fn push_enc_rss(out: &mut Vec<char>, r: &crate::structs::Rss)
    ensures
        final(out)@ == old(out)@ + enc_rss(r.deep_view()),
{
    let ghost orig = out@;
    crate::text::push_str_chars(out, "channel:");
    push_enc_channel(out, &r.channel);
    crate::text::push_str_chars(out, "version:");
    push_opt_str(out, &r.version);
    crate::text::push_str_chars(out, "webfeeds:");
    push_opt_str(out, &r.webfeeds);
    crate::text::push_str_chars(out, "mediaNs:");
    push_opt_str(out, &r.media);
    crate::text::push_str_chars(out, "contentNs:");
    push_opt_str(out, &r.content);
    proof {
        reveal(enc_rss);
        assert(out@ =~= orig + enc_rss(r.deep_view()));
    }
}

/// Appends one labeled source state.
#[verifier::rlimit(100)]
fn push_enc_options(out: &mut Vec<char>, o: &crate::structs::FeedOptions)
    ensures
        final(out)@ == old(out)@ + enc_options(o.deep_view()),
{
    let ghost orig = out@;
    crate::text::push_str_chars(out, "rss:");
    push_enc_rss(out, &o.rss);
    crate::text::push_str_chars(out, "transformCommand:");
    push_enc_str(out, o.manipulate_input.as_str());
    crate::text::push_str_chars(out, "retainAllEntries:");
    push_bool(out, o.retain_all_entries);
    crate::text::push_str_chars(out, "sourceTitle:");
    push_enc_str(out, o.title.as_str());
    crate::text::push_str_chars(out, "sourceLink:");
    push_enc_str(out, o.link.as_str());
    proof {
        reveal(enc_options);
        assert(out@ =~= orig + enc_options(o.deep_view()));
    }
}

/// Appends one labeled store slot.
#[verifier::rlimit(100)]
fn push_enc_slot(out: &mut Vec<char>, f: &crate::structs::FeedSource)
    ensures
        final(out)@ == old(out)@ + enc_slot(f.deep_view()),
{
    let ghost orig = out@;
    crate::text::push_str_chars(out, "url:");
    push_enc_str(out, f.url.as_str());
    crate::text::push_str_chars(out, "state:");
    push_enc_options(out, &f.options);
    proof {
        reveal(enc_slot);
        assert(out@ =~= orig + enc_slot(f.deep_view()));
    }
}

/// Appending one more slot appends its encoding.
proof fn lemma_enc_slot_seq_snoc(l: Seq<FeedSourceV>, m: FeedSourceV)
    ensures
        enc_slot_seq(l.push(m)) == enc_slot_seq(l) + enc_slot(m),
    decreases l.len(),
{
    if l.len() == 0 {
        assert(l.push(m)[0] == m);
        assert(l.push(m).skip(1) =~= Seq::<FeedSourceV>::empty());
        assert(enc_slot_seq(Seq::<FeedSourceV>::empty()) == Seq::<char>::empty());
        assert(enc_slot_seq(l.push(m)) =~= enc_slot_seq(l) + enc_slot(m));
    } else {
        lemma_enc_slot_seq_snoc(l.skip(1), m);
        assert(l.push(m).skip(1) =~= l.skip(1).push(m));
        assert(l.push(m)[0] == l[0]);
        assert(enc_slot(l[0]) + (enc_slot_seq(l.skip(1)) + enc_slot(m)) =~= (enc_slot(l[0])
            + enc_slot_seq(l.skip(1))) + enc_slot(m));
    }
}

/// Appends the source half of the store.
#[verifier::rlimit(100)]
fn push_db_head(out: &mut Vec<char>, db: &crate::structs::Db)
    ensures
        final(out)@ == old(out)@ + enc_db_head(db.deep_view()),
{
    let ghost orig = out@;
    crate::text::push_str_chars(out, "sources:");
    push_nat(out, db.rss.len() as u64);
    out.push(';');
    let ghost mid = out@;
    let ghost lv = db.rss.deep_view();
    let mut i: usize = 0;
    proof {
        assert(lv.take(0) =~= Seq::<FeedSourceV>::empty());
        assert(enc_slot_seq(Seq::<FeedSourceV>::empty()) == Seq::<char>::empty());
        assert(mid + Seq::<char>::empty() =~= mid);
    }
    while i < db.rss.len()
        invariant
            i <= db.rss.len(),
            lv == db.rss.deep_view(),
            db.rss.len() == lv.len(),
            out@ == mid + enc_slot_seq(lv.take(i as int)),
        decreases db.rss.len() - i,
    {
        push_enc_slot(out, &db.rss[i]);
        proof {
            lemma_enc_slot_seq_snoc(lv.take(i as int), lv[i as int]);
            assert(lv.take(i + 1) =~= lv.take(i as int).push(lv[i as int]));
            assert(mid + (enc_slot_seq(lv.take(i as int)) + enc_slot(lv[i as int])) =~= (mid
                + enc_slot_seq(lv.take(i as int))) + enc_slot(lv[i as int]));
        }
        i += 1;
    }
    proof {
        assert(lv.take(lv.len() as int) =~= lv);
    }
    crate::text::push_str_chars(out, "outputOneChannel:");
    push_bool(out, db.output_one_channel);
    crate::text::push_str_chars(out, "outputTitle:");
    push_enc_str(out, db.title.as_str());
    crate::text::push_str_chars(out, "outputLink:");
    push_enc_str(out, db.link.as_str());
    proof {
        reveal(enc_db_head);
        assert(out@ =~= orig + enc_db_head(db.deep_view()));
    }
}

/// Appends the policy half of the store.
#[verifier::rlimit(100)]
fn push_db_tail(out: &mut Vec<char>, db: &crate::structs::Db)
    ensures
        final(out)@ == old(out)@ + enc_db_tail(db.deep_view()),
{
    let ghost orig = out@;
    crate::text::push_str_chars(out, "includeDescriptionAsTitleIfNoneGiven:");
    push_bool(out, db.include_description_as_title_if_none_given);
    crate::text::push_str_chars(out, "descriptionTitleWordCount:");
    push_i32(out, db.description_title_word_count);
    crate::text::push_str_chars(out, "titleEllipsis:");
    push_enc_str(out, db.title_ellipsis.as_str());
    crate::text::push_str_chars(out, "populateContentEncoded:");
    push_bool(out, db.populate_content_encoded);
    crate::text::push_str_chars(out, "addMediaToContentEncoded:");
    push_bool(out, db.add_media_to_content_encoded);
    crate::text::push_str_chars(out, "maxEntriesPublished:");
    push_i32(out, db.max_entries_published);
    crate::text::push_str_chars(out, "overrideItemAuthor:");
    push_bool(out, db.override_item_author);
    proof {
        reveal(enc_db_tail);
        assert(out@ =~= orig + enc_db_tail(db.deep_view()));
    }
}

impl crate::structs::Db {
    /// Renders the whole store as its persisted structured text.
    pub fn to_saved_text(&self) -> (r: String)
        ensures
            r@ == enc_db(self.deep_view()),
    {
        let ghost dv = self.deep_view();
        let mut out: Vec<char> = Vec::new();
        push_db_head(&mut out, self);
        push_db_tail(&mut out, self);
        proof {
            reveal(enc_db);
            assert(out@ =~= enc_db(dv));
        }
        crate::text::from_chars(&out)
    }
}


// ---------------------------------------------------------------------------
// Executable decoding
// ---------------------------------------------------------------------------

/// Reads a leading decimal number.
fn dec_nat_x(s: &Vec<char>) -> (r: Option<(u64, Vec<char>)>)
    ensures
        match r {
            Some(p) => dec_nat(s@) == Some((p.0 as int, p.1@)),
            None => dec_nat(s@) is None,
        },
{
    let mut k: usize = 0;
    while k < s.len() && '0' <= s[k] && s[k] <= '9'
        invariant
            k <= s.len(),
            forall|m: int| 0 <= m < k ==> is_digit_char(#[trigger] s@[m]),
        decreases s.len() - k,
    {
        k += 1;
    }
    proof {
        lemma_digit_run_at(s@, k as int);
    }
    if k < 1 || k > 18 {
        return None;
    }
    let mut v: u64 = 0;
    let mut m: usize = 0;
    proof {
        assert(s@.subrange(0, 0) =~= Seq::<char>::empty());
        lemma_nat_cap();
    }
    while m < k
        invariant
            m <= k <= 18,
            k <= s.len(),
            forall|j: int| 0 <= j < k ==> is_digit_char(#[trigger] s@[j]),
            v == val_of(s@.subrange(0, m as int)),
            v < pow10(m as nat),
            pow10(17) == 100_000_000_000_000_000,
            forall|a: nat, b: nat| a <= b ==> #[trigger] pow10(a) <= #[trigger] pow10(b),
        decreases k - m,
    {
        proof {
            assert(pow10(m as nat) <= pow10(17));
        }
        let c = s[m];
        let d: u64 = (c as u32 - '0' as u32) as u64;
        v = v * 10 + d;
        proof {
            assert(s@.subrange(0, m + 1).drop_last() =~= s@.subrange(0, m as int));
            assert(s@.subrange(0, m + 1).last() == s@[m as int]);
            assert(d == digit_val(s@[m as int]));
            lemma_val_of_bound(s@.subrange(0, m + 1));
        }
        m += 1;
    }
    let rest = sub_vec(s, k, s.len());
    proof {
        assert(s@.take(k as int) =~= s@.subrange(0, k as int));
        assert(s@.skip(k as int) =~= s@.subrange(k as int, s@.len() as int));
    }
    Some((v, rest))
}

/// Consumes an expected label.
fn dec_lit_x(s: &Vec<char>, lit: &Vec<char>) -> (r: Option<Vec<char>>)
    ensures
        match r {
            Some(rest) => dec_lit(s@, lit@) == Some(rest@),
            None => dec_lit(s@, lit@) is None,
        },
{
    if lit.len() > s.len() {
        return None;
    }
    if crate::text::match_at(s, lit, 0) {
        let rest = sub_vec(s, lit.len(), s.len());
        proof {
            assert(s@.subrange(0, lit@.len() as int) == s@.take(lit@.len() as int));
            assert(s@.skip(lit@.len() as int) =~= s@.subrange(lit@.len() as int, s@.len() as int));
        }
        Some(rest)
    } else {
        proof {
            assert(s@.subrange(0, lit@.len() as int) == s@.take(lit@.len() as int));
        }
        None
    }
}

/// Reads a length-prefixed string.
fn dec_str_x(s: &Vec<char>) -> (r: Option<(Vec<char>, Vec<char>)>)
    ensures
        match r {
            Some(p) => dec_str(s@) == Some((p.0@, p.1@)),
            None => dec_str(s@) is None,
        },
{
    let (n, r1) = match dec_nat_x(s) {
        Some(p) => p,
        None => {
            return None;
        },
    };
    if r1.len() == 0 {
        return None;
    }
    if r1[0] != ':' {
        return None;
    }
    if n > (r1.len() - 1) as u64 {
        return None;
    }
    let nn = n as usize;
    let val = sub_vec(&r1, 1, 1 + nn);
    let rest = sub_vec(&r1, 1 + nn, r1.len());
    proof {
        assert(r1@.skip(1 + nn as int) =~= r1@.subrange(1 + nn as int, r1@.len() as int));
    }
    Some((val, rest))
}

/// Reads a boolean marker.
fn dec_bool_x(s: &Vec<char>) -> (r: Option<(bool, Vec<char>)>)
    ensures
        match r {
            Some(p) => dec_bool(s@) == Some((p.0, p.1@)),
            None => dec_bool(s@) is None,
        },
{
    if s.len() == 0 {
        return None;
    }
    let c = s[0];
    if c == 'T' || c == 'F' {
        let rest = sub_vec(s, 1, s.len());
        proof {
            assert(s@.skip(1) =~= s@.subrange(1, s@.len() as int));
        }
        Some((c == 'T', rest))
    } else {
        None
    }
}

/// Reads a signed number.
fn dec_i32_x(s: &Vec<char>) -> (r: Option<(i32, Vec<char>)>)
    ensures
        match r {
            Some(p) => dec_i32(s@) == Some((p.0 as int, p.1@)),
            None => dec_i32(s@) is None,
        },
{
    let neg = s.len() >= 1 && s[0] == '-';
    let body: Vec<char> = if neg {
        sub_vec(s, 1, s.len())
    } else {
        sub_vec(s, 0, s.len())
    };
    proof {
        if neg {
            assert(body@ =~= s@.skip(1));
        } else {
            assert(body@ =~= s@);
        }
    }
    let (n, r1) = match dec_nat_x(&body) {
        Some(p) => p,
        None => {
            return None;
        },
    };
    if r1.len() == 0 {
        return None;
    }
    if r1[0] != ';' {
        return None;
    }
    if neg {
        if n > 0x8000_0000u64 {
            return None;
        }
    } else {
        if n >= 0x8000_0000u64 {
            return None;
        }
    }
    let v: i32 = if neg {
        (-(n as i64)) as i32
    } else {
        n as i32
    };
    let rest = sub_vec(&r1, 1, r1.len());
    proof {
        assert(r1@.skip(1) =~= r1@.subrange(1, r1@.len() as int));
    }
    Some((v, rest))
}

/// Reads an optional length-prefixed string.
fn dec_opt_str_x(s: &Vec<char>) -> (r: Option<(Option<String>, Vec<char>)>)
    ensures
        match r {
            Some(p) => dec_opt_str(s@) == Some((p.0.deep_view(), p.1@)),
            None => dec_opt_str(s@) is None,
        },
{
    if s.len() == 0 {
        return None;
    }
    let c = s[0];
    if c == 'N' {
        let rest = sub_vec(s, 1, s.len());
        proof {
            assert(s@.skip(1) =~= s@.subrange(1, s@.len() as int));
        }
        Some((None, rest))
    } else if c == 'S' {
        let body = sub_vec(s, 1, s.len());
        proof {
            assert(body@ =~= s@.skip(1));
        }
        match dec_str_x(&body) {
            Some((v, rest)) => {
                let st = crate::text::from_chars(&v);
                Some((Some(st), rest))
            },
            None => None,
        }
    } else {
        None
    }
}

/// Reads one labeled media asset.
#[verifier::rlimit(100)]
fn dec_media_x(s: &Vec<char>) -> (r: Option<(crate::structs::MediaContent, Vec<char>)>)
    ensures
        match r {
            Some(p) => dec_media(s@) == Some((p.0.deep_view(), p.1@)),
            None => dec_media(s@) is None,
        },
{
    proof {
        reveal(dec_media);
    }
    let lab1 = crate::text::to_chars("url:");
    let s1 = match dec_lit_x(s, &lab1) {
        Some(x) => x,
        None => {
            return None;
        },
    };
    let (url, s2) = match dec_str_x(&s1) {
        Some(p) => p,
        None => {
            return None;
        },
    };
    let lab2 = crate::text::to_chars("description:");
    let s3 = match dec_lit_x(&s2, &lab2) {
        Some(x) => x,
        None => {
            return None;
        },
    };
    let (description, s4) = match dec_opt_str_x(&s3) {
        Some(p) => p,
        None => {
            return None;
        },
    };
    let lab3 = crate::text::to_chars("mimeType:");
    let s5 = match dec_lit_x(&s4, &lab3) {
        Some(x) => x,
        None => {
            return None;
        },
    };
    let (mime, s6) = match dec_str_x(&s5) {
        Some(p) => p,
        None => {
            return None;
        },
    };
    let lab4 = crate::text::to_chars("fileSize:");
    let s7 = match dec_lit_x(&s6, &lab4) {
        Some(x) => x,
        None => {
            return None;
        },
    };
    let (file_size, s8) = match dec_opt_str_x(&s7) {
        Some(p) => p,
        None => {
            return None;
        },
    };
    let lab5 = crate::text::to_chars("medium:");
    let s9 = match dec_lit_x(&s8, &lab5) {
        Some(x) => x,
        None => {
            return None;
        },
    };
    let (medium, s10) = match dec_str_x(&s9) {
        Some(p) => p,
        None => {
            return None;
        },
    };
    let m = crate::structs::MediaContent {
        url: crate::text::from_chars(&url),
        description,
        mime_type: crate::text::from_chars(&mime),
        file_size,
        medium: crate::text::from_chars(&medium),
    };
    proof {
        assert(m.deep_view() =~~= dec_media(s@)->Some_0.0);
    }
    Some((m, s10))
}

/// Reads an optional media list.
#[verifier::rlimit(100)]
#[verifier::loop_isolation(false)]
fn dec_media_list_x(s: &Vec<char>) -> (r: Option<
    (Option<Vec<crate::structs::MediaContent>>, Vec<char>),
>)
    ensures
        match r {
            Some(p) => dec_media_list(s@) == Some((p.0.deep_view(), p.1@)),
            None => dec_media_list(s@) is None,
        },
{
    proof {
        reveal(dec_media_list);
    }
    if s.len() == 0 {
        return None;
    }
    let c = s[0];
    if c == 'N' {
        let rest = sub_vec(s, 1, s.len());
        proof {
            assert(s@.skip(1) =~= s@.subrange(1, s@.len() as int));
        }
        return Some((None, rest));
    }
    if c != 'S' {
        return None;
    }
    let body = sub_vec(s, 1, s.len());
    proof {
        assert(body@ =~= s@.skip(1));
    }
    let (n, r1) = match dec_nat_x(&body) {
        Some(p) => p,
        None => {
            return None;
        },
    };
    if r1.len() == 0 {
        return None;
    }
    if r1[0] != ';' {
        return None;
    }
    let start = sub_vec(&r1, 1, r1.len());
    proof {
        assert(start@ =~= r1@.skip(1));
    }
    let mut acc: Vec<crate::structs::MediaContent> = Vec::new();
    let mut cur = start;
    let mut rem: u64 = n;
    proof {
        assert(acc.deep_view() =~= Seq::<MediaV>::empty());
        assert forall|l2: Seq<MediaV>| Seq::<MediaV>::empty() + l2 =~= l2 by {}
    }
    while rem > 0
        invariant
            dec_media_seq(r1@.skip(1), n as int) == (match dec_media_seq(cur@, rem as int) {
                Some(p2) => Some((acc.deep_view() + p2.0, p2.1)),
                None => None,
            }),
        decreases rem,
    {
        let ghost pre = acc.deep_view();
        match dec_media_x(&cur) {
            Some((m, rest)) => {
                let ghost mv = m.deep_view();
                acc.push(m);
                proof {
                    assert(acc@.len() == pre.len() + 1);
                    assert forall|k: int| 0 <= k < acc@.len() implies acc.deep_view()[k]
                        == pre.push(mv)[k] by {
                        assert(acc.deep_view()[k] == acc@[k].deep_view());
                    }
                    assert(acc.deep_view() =~= pre.push(mv));
                    assert forall|l2: Seq<MediaV>| pre + (seq![mv] + l2) =~= pre.push(mv)
                        + l2 by {}
                }
                cur = rest;
                rem = rem - 1;
            },
            None => {
                proof {
                    assert(dec_media_seq(cur@, rem as int) is None);
                    assert(dec_media_list(s@) is None) by {
                        reveal(dec_media_list);
                    }
                }
                return None;
            },
        }
    }
    proof {
        assert(dec_media_seq(cur@, 0) == Some((Seq::<MediaV>::empty(), cur@)));
        assert(acc.deep_view() + Seq::<MediaV>::empty() =~= acc.deep_view());
    }
    Some((Some(acc), cur))
}

/// Reads an optional labeled author.
#[verifier::rlimit(100)]
fn dec_author_x(s: &Vec<char>) -> (r: Option<(Option<crate::structs::Author>, Vec<char>)>)
    ensures
        match r {
            Some(p) => dec_author(s@) == Some((p.0.deep_view(), p.1@)),
            None => dec_author(s@) is None,
        },
{
    proof {
        reveal(dec_author);
    }
    if s.len() == 0 {
        return None;
    }
    let c = s[0];
    if c == 'N' {
        let rest = sub_vec(s, 1, s.len());
        proof {
            assert(s@.skip(1) =~= s@.subrange(1, s@.len() as int));
        }
        return Some((None, rest));
    }
    if c != 'S' {
        return None;
    }
    let body = sub_vec(s, 1, s.len());
    proof {
        assert(body@ =~= s@.skip(1));
    }
    let lab1 = crate::text::to_chars("name:");
    let s1 = match dec_lit_x(&body, &lab1) {
        Some(x) => x,
        None => {
            return None;
        },
    };
    let (name, s2) = match dec_str_x(&s1) {
        Some(p) => p,
        None => {
            return None;
        },
    };
    let lab2 = crate::text::to_chars("uri:");
    let s3 = match dec_lit_x(&s2, &lab2) {
        Some(x) => x,
        None => {
            return None;
        },
    };
    let (uri, s4) = match dec_str_x(&s3) {
        Some(p) => p,
        None => {
            return None;
        },
    };
    let a = crate::structs::Author {
        name: crate::text::from_chars(&name),
        uri: crate::text::from_chars(&uri),
    };
    Some((Some(a), s4))
}

/// Reads one labeled item.
#[verifier::rlimit(100)]
fn dec_item_x(s: &Vec<char>) -> (r: Option<(crate::structs::Item, Vec<char>)>)
    ensures
        match r {
            Some(p) => dec_item(s@) == Some((p.0.deep_view(), p.1@)),
            None => dec_item(s@) is None,
        },
{
    proof {
        reveal(dec_item);
    }
    let lab1 = crate::text::to_chars("guid:");
    let s1 = match dec_lit_x(s, &lab1) {
        Some(x) => x,
        None => {
            return None;
        },
    };
    let (guid, s2) = match dec_str_x(&s1) {
        Some(p) => p,
        None => {
            return None;
        },
    };
    let lab2 = crate::text::to_chars("title:");
    let s3 = match dec_lit_x(&s2, &lab2) {
        Some(x) => x,
        None => {
            return None;
        },
    };
    let (title, s4) = match dec_opt_str_x(&s3) {
        Some(p) => p,
        None => {
            return None;
        },
    };
    let lab3 = crate::text::to_chars("plainTitle:");
    let s5 = match dec_lit_x(&s4, &lab3) {
        Some(x) => x,
        None => {
            return None;
        },
    };
    let (plain_title, s6) = match dec_opt_str_x(&s5) {
        Some(p) => p,
        None => {
            return None;
        },
    };
    let lab4 = crate::text::to_chars("imageurl:");
    let s7 = match dec_lit_x(&s6, &lab4) {
        Some(x) => x,
        None => {
            return None;
        },
    };
    let (imageurl, s8) = match dec_opt_str_x(&s7) {
        Some(p) => p,
        None => {
            return None;
        },
    };
    let lab5 = crate::text::to_chars("link:");
    let s9 = match dec_lit_x(&s8, &lab5) {
        Some(x) => x,
        None => {
            return None;
        },
    };
    let (link, s10) = match dec_opt_str_x(&s9) {
        Some(p) => p,
        None => {
            return None;
        },
    };
    let lab6 = crate::text::to_chars("body:");
    let s11 = match dec_lit_x(&s10, &lab6) {
        Some(x) => x,
        None => {
            return None;
        },
    };
    let (description, s12) = match dec_opt_str_x(&s11) {
        Some(p) => p,
        None => {
            return None;
        },
    };
    let lab7 = crate::text::to_chars("author:");
    let s13 = match dec_lit_x(&s12, &lab7) {
        Some(x) => x,
        None => {
            return None;
        },
    };
    let (author, s14) = match dec_author_x(&s13) {
        Some(p) => p,
        None => {
            return None;
        },
    };
    let head = crate::structs::Item {
        guid: crate::text::from_chars(&guid),
        title,
        plain_title,
        imageurl,
        link,
        description,
        author,
        pub_date: None,
        create_date: None,
        update_date: None,
        media_content: None,
        content_encoded: None,
    };
    dec_item_tail_x(head, &s14)
}

/// Reads the dated half of one item into the partly filled `head`.
#[verifier::rlimit(100)]
fn dec_item_tail_x(head: crate::structs::Item, s: &Vec<char>) -> (r: Option<
    (crate::structs::Item, Vec<char>),
>)
    ensures
        match r {
            Some(p) => dec_item_tail(head.deep_view(), s@) == Some((p.0.deep_view(), p.1@)),
            None => dec_item_tail(head.deep_view(), s@) is None,
        },
{
    proof {
        reveal(dec_item_tail);
    }
    let lab1 = crate::text::to_chars("publishedAt:");
    let s1 = match dec_lit_x(s, &lab1) {
        Some(x) => x,
        None => {
            return None;
        },
    };
    let (pub_date, s2) = match dec_opt_str_x(&s1) {
        Some(p) => p,
        None => {
            return None;
        },
    };
    let lab2 = crate::text::to_chars("createdAt:");
    let s3 = match dec_lit_x(&s2, &lab2) {
        Some(x) => x,
        None => {
            return None;
        },
    };
    let (create_date, s4) = match dec_opt_str_x(&s3) {
        Some(p) => p,
        None => {
            return None;
        },
    };
    let lab3 = crate::text::to_chars("updatedAt:");
    let s5 = match dec_lit_x(&s4, &lab3) {
        Some(x) => x,
        None => {
            return None;
        },
    };
    let (update_date, s6) = match dec_opt_str_x(&s5) {
        Some(p) => p,
        None => {
            return None;
        },
    };
    let lab4 = crate::text::to_chars("media:");
    let s7 = match dec_lit_x(&s6, &lab4) {
        Some(x) => x,
        None => {
            return None;
        },
    };
    let (media_content, s8) = match dec_media_list_x(&s7) {
        Some(p) => p,
        None => {
            return None;
        },
    };
    let lab5 = crate::text::to_chars("richBody:");
    let s9 = match dec_lit_x(&s8, &lab5) {
        Some(x) => x,
        None => {
            return None;
        },
    };
    let (content_encoded, s10) = match dec_opt_str_x(&s9) {
        Some(p) => p,
        None => {
            return None;
        },
    };
    let it = crate::structs::Item {
        pub_date,
        create_date,
        update_date,
        media_content,
        content_encoded,
        ..head
    };
    proof {
        assert(it.deep_view() =~~= dec_item_tail(head.deep_view(), s@)->Some_0.0);
    }
    Some((it, s10))
}

/// Reads one labeled channel.
#[verifier::rlimit(100)]
#[verifier::loop_isolation(false)]
fn dec_channel_x(s: &Vec<char>) -> (r: Option<(crate::structs::Channel, Vec<char>)>)
    ensures
        match r {
            Some(p) => dec_channel(s@) == Some((p.0.deep_view(), p.1@)),
            None => dec_channel(s@) is None,
        },
{
    proof {
        reveal(dec_channel);
    }
    let lab1 = crate::text::to_chars("title:");
    let s1 = match dec_lit_x(s, &lab1) {
        Some(x) => x,
        None => {
            return None;
        },
    };
    let (title, s2) = match dec_str_x(&s1) {
        Some(p) => p,
        None => {
            return None;
        },
    };
    let lab2 = crate::text::to_chars("link:");
    let s3 = match dec_lit_x(&s2, &lab2) {
        Some(x) => x,
        None => {
            return None;
        },
    };
    let (link, s4) = match dec_str_x(&s3) {
        Some(p) => p,
        None => {
            return None;
        },
    };
    let lab3 = crate::text::to_chars("items:");
    let s5 = match dec_lit_x(&s4, &lab3) {
        Some(x) => x,
        None => {
            return None;
        },
    };
    let (n, s6) = match dec_nat_x(&s5) {
        Some(p) => p,
        None => {
            return None;
        },
    };
    if s6.len() == 0 {
        return None;
    }
    if s6[0] != ';' {
        return None;
    }
    let start = sub_vec(&s6, 1, s6.len());
    proof {
        assert(start@ =~= s6@.skip(1));
    }
    let mut acc: Vec<crate::structs::Item> = Vec::new();
    let mut cur = start;
    let mut rem: u64 = n;
    proof {
        assert(acc.deep_view() =~= Seq::<ItemV>::empty());
        assert forall|l2: Seq<ItemV>| Seq::<ItemV>::empty() + l2 =~= l2 by {}
    }
    while rem > 0
        invariant
            dec_item_seq(s6@.skip(1), n as int) == (match dec_item_seq(cur@, rem as int) {
                Some(p2) => Some((acc.deep_view() + p2.0, p2.1)),
                None => None,
            }),
        decreases rem,
    {
        let ghost pre = acc.deep_view();
        match dec_item_x(&cur) {
            Some((m, rest)) => {
                let ghost mv = m.deep_view();
                acc.push(m);
                proof {
                    assert(acc@.len() == pre.len() + 1);
                    assert forall|k: int| 0 <= k < acc@.len() implies acc.deep_view()[k]
                        == pre.push(mv)[k] by {
                        assert(acc.deep_view()[k] == acc@[k].deep_view());
                    }
                    assert(acc.deep_view() =~= pre.push(mv));
                    assert forall|l2: Seq<ItemV>| pre + (seq![mv] + l2) =~= pre.push(mv)
                        + l2 by {}
                }
                cur = rest;
                rem = rem - 1;
            },
            None => {
                proof {
                    assert(dec_item_seq(cur@, rem as int) is None);
                    assert(dec_channel(s@) is None) by {
                        reveal(dec_channel);
                    }
                }
                return None;
            },
        }
    }
    proof {
        assert(dec_item_seq(cur@, 0) == Some((Seq::<ItemV>::empty(), cur@)));
        assert(acc.deep_view() + Seq::<ItemV>::empty() =~= acc.deep_view());
    }
    let ch = crate::structs::Channel {
        title: crate::text::from_chars(&title),
        link: crate::text::from_chars(&link),
        item: acc,
    };
    proof {
        assert(ch.deep_view() =~~= dec_channel(s@)->Some_0.0);
    }
    Some((ch, cur))
}

/// Reads one labeled feed document.
#[verifier::rlimit(100)]
fn dec_rss_x(s: &Vec<char>) -> (r: Option<(crate::structs::Rss, Vec<char>)>)
    ensures
        match r {
            Some(p) => dec_rss(s@) == Some((p.0.deep_view(), p.1@)),
            None => dec_rss(s@) is None,
        },
{
    proof {
        reveal(dec_rss);
    }
    let lab1 = crate::text::to_chars("channel:");
    let s1 = match dec_lit_x(s, &lab1) {
        Some(x) => x,
        None => {
            return None;
        },
    };
    let (channel, s2) = match dec_channel_x(&s1) {
        Some(p) => p,
        None => {
            return None;
        },
    };
    let lab2 = crate::text::to_chars("version:");
    let s3 = match dec_lit_x(&s2, &lab2) {
        Some(x) => x,
        None => {
            return None;
        },
    };
    let (version, s4) = match dec_opt_str_x(&s3) {
        Some(p) => p,
        None => {
            return None;
        },
    };
    let lab3 = crate::text::to_chars("webfeeds:");
    let s5 = match dec_lit_x(&s4, &lab3) {
        Some(x) => x,
        None => {
            return None;
        },
    };
    let (webfeeds, s6) = match dec_opt_str_x(&s5) {
        Some(p) => p,
        None => {
            return None;
        },
    };
    let lab4 = crate::text::to_chars("mediaNs:");
    let s7 = match dec_lit_x(&s6, &lab4) {
        Some(x) => x,
        None => {
            return None;
        },
    };
    let (media, s8) = match dec_opt_str_x(&s7) {
        Some(p) => p,
        None => {
            return None;
        },
    };
    let lab5 = crate::text::to_chars("contentNs:");
    let s9 = match dec_lit_x(&s8, &lab5) {
        Some(x) => x,
        None => {
            return None;
        },
    };
    let (content, s10) = match dec_opt_str_x(&s9) {
        Some(p) => p,
        None => {
            return None;
        },
    };
    let rss = crate::structs::Rss { channel, version, webfeeds, media, content };
    proof {
        assert(rss.deep_view() =~~= dec_rss(s@)->Some_0.0);
    }
    Some((rss, s10))
}

/// Reads one labeled source state.
#[verifier::rlimit(100)]
fn dec_options_x(s: &Vec<char>) -> (r: Option<(crate::structs::FeedOptions, Vec<char>)>)
    ensures
        match r {
            Some(p) => dec_options(s@) == Some((p.0.deep_view(), p.1@)),
            None => dec_options(s@) is None,
        },
{
    proof {
        reveal(dec_options);
    }
    let lab1 = crate::text::to_chars("rss:");
    let s1 = match dec_lit_x(s, &lab1) {
        Some(x) => x,
        None => {
            return None;
        },
    };
    let (rss, s2) = match dec_rss_x(&s1) {
        Some(p) => p,
        None => {
            return None;
        },
    };
    let lab2 = crate::text::to_chars("transformCommand:");
    let s3 = match dec_lit_x(&s2, &lab2) {
        Some(x) => x,
        None => {
            return None;
        },
    };
    let (cmd, s4) = match dec_str_x(&s3) {
        Some(p) => p,
        None => {
            return None;
        },
    };
    let lab3 = crate::text::to_chars("retainAllEntries:");
    let s5 = match dec_lit_x(&s4, &lab3) {
        Some(x) => x,
        None => {
            return None;
        },
    };
    let (retain, s6) = match dec_bool_x(&s5) {
        Some(p) => p,
        None => {
            return None;
        },
    };
    let lab4 = crate::text::to_chars("sourceTitle:");
    let s7 = match dec_lit_x(&s6, &lab4) {
        Some(x) => x,
        None => {
            return None;
        },
    };
    let (title, s8) = match dec_str_x(&s7) {
        Some(p) => p,
        None => {
            return None;
        },
    };
    let lab5 = crate::text::to_chars("sourceLink:");
    let s9 = match dec_lit_x(&s8, &lab5) {
        Some(x) => x,
        None => {
            return None;
        },
    };
    let (link, s10) = match dec_str_x(&s9) {
        Some(p) => p,
        None => {
            return None;
        },
    };
    let o = crate::structs::FeedOptions {
        rss,
        manipulate_input: crate::text::from_chars(&cmd),
        retain_all_entries: retain,
        title: crate::text::from_chars(&title),
        link: crate::text::from_chars(&link),
    };
    proof {
        assert(o.deep_view() =~~= dec_options(s@)->Some_0.0);
    }
    Some((o, s10))
}

/// Reads one labeled store slot.
#[verifier::rlimit(100)]
fn dec_slot_x(s: &Vec<char>) -> (r: Option<(crate::structs::FeedSource, Vec<char>)>)
    ensures
        match r {
            Some(p) => dec_slot(s@) == Some((p.0.deep_view(), p.1@)),
            None => dec_slot(s@) is None,
        },
{
    proof {
        reveal(dec_slot);
    }
    let lab1 = crate::text::to_chars("url:");
    let s1 = match dec_lit_x(s, &lab1) {
        Some(x) => x,
        None => {
            return None;
        },
    };
    let (url, s2) = match dec_str_x(&s1) {
        Some(p) => p,
        None => {
            return None;
        },
    };
    let lab2 = crate::text::to_chars("state:");
    let s3 = match dec_lit_x(&s2, &lab2) {
        Some(x) => x,
        None => {
            return None;
        },
    };
    let (options, s4) = match dec_options_x(&s3) {
        Some(p) => p,
        None => {
            return None;
        },
    };
    let f = crate::structs::FeedSource { url: crate::text::from_chars(&url), options };
    proof {
        assert(f.deep_view() =~~= dec_slot(s@)->Some_0.0);
    }
    Some((f, s4))
}

impl crate::structs::Db {
    /// Reads a whole store back from its persisted structured text; `None`
    /// when the text is not a complete encoded store.
    #[verifier::rlimit(100)]
    #[verifier::loop_isolation(false)]
    pub fn from_saved_text(text: &str) -> (r: Option<crate::structs::Db>)
        ensures
            match dec_db(text@) {
                Some(p) => if p.1.len() == 0 {
                    r matches Some(db) && db.deep_view() == p.0
                } else {
                    r is None
                },
                None => r is None,
            },
    {
        proof {
            reveal(dec_db);
            reveal(dec_db_tail);
        }
        let s = crate::text::to_chars(text);
        let lab1 = crate::text::to_chars("sources:");
        let s1 = match dec_lit_x(&s, &lab1) {
            Some(x) => x,
            None => {
                return None;
            },
        };
        let (n, s2) = match dec_nat_x(&s1) {
            Some(p) => p,
            None => {
                return None;
            },
        };
        if s2.len() == 0 {
            return None;
        }
        if s2[0] != ';' {
            return None;
        }
        let start = sub_vec(&s2, 1, s2.len());
        proof {
            assert(start@ =~= s2@.skip(1));
        }
        let mut acc: Vec<crate::structs::FeedSource> = Vec::new();
        let mut cur = start;
        let mut rem: u64 = n;
        proof {
            assert(acc.deep_view() =~= Seq::<FeedSourceV>::empty());
            assert forall|l2: Seq<FeedSourceV>| Seq::<FeedSourceV>::empty() + l2 =~= l2 by {}
        }
        while rem > 0
            invariant
                dec_slot_seq(s2@.skip(1), n as int) == (match dec_slot_seq(cur@, rem as int) {
                    Some(p2) => Some((acc.deep_view() + p2.0, p2.1)),
                    None => None,
                }),
            decreases rem,
        {
            let ghost pre = acc.deep_view();
            match dec_slot_x(&cur) {
                Some((m, rest)) => {
                    let ghost mv = m.deep_view();
                    acc.push(m);
                    proof {
                        assert(acc@.len() == pre.len() + 1);
                        assert forall|k: int| 0 <= k < acc@.len() implies acc.deep_view()[k]
                            == pre.push(mv)[k] by {
                            assert(acc.deep_view()[k] == acc@[k].deep_view());
                        }
                        assert(acc.deep_view() =~= pre.push(mv));
                        assert forall|l2: Seq<FeedSourceV>| pre + (seq![mv] + l2) =~= pre.push(mv)
                            + l2 by {}
                    }
                    cur = rest;
                    rem = rem - 1;
                },
                None => {
                    proof {
                        assert(dec_slot_seq(cur@, rem as int) is None);
                        assert(dec_db(text@) is None) by {
                            reveal(dec_db);
                        }
                    }
                    return None;
                },
            }
        }
        proof {
            assert(dec_slot_seq(cur@, 0) == Some((Seq::<FeedSourceV>::empty(), cur@)));
            assert(acc.deep_view() + Seq::<FeedSourceV>::empty() =~= acc.deep_view());
        }
        let lab2 = crate::text::to_chars("outputOneChannel:");
        let s3 = match dec_lit_x(&cur, &lab2) {
            Some(x) => x,
            None => {
                return None;
            },
        };
        let (one, s4) = match dec_bool_x(&s3) {
            Some(p) => p,
            None => {
                return None;
            },
        };
        let lab3 = crate::text::to_chars("outputTitle:");
        let s5 = match dec_lit_x(&s4, &lab3) {
            Some(x) => x,
            None => {
                return None;
            },
        };
        let (title, s6) = match dec_str_x(&s5) {
            Some(p) => p,
            None => {
                return None;
            },
        };
        let lab4 = crate::text::to_chars("outputLink:");
        let s7 = match dec_lit_x(&s6, &lab4) {
            Some(x) => x,
            None => {
                return None;
            },
        };
        let (link, s8) = match dec_str_x(&s7) {
            Some(p) => p,
            None => {
                return None;
            },
        };
        let lab5 = crate::text::to_chars("includeDescriptionAsTitleIfNoneGiven:");
        let s9 = match dec_lit_x(&s8, &lab5) {
            Some(x) => x,
            None => {
                return None;
            },
        };
        let (tfb, s10) = match dec_bool_x(&s9) {
            Some(p) => p,
            None => {
                return None;
            },
        };
        let lab6 = crate::text::to_chars("descriptionTitleWordCount:");
        let s11 = match dec_lit_x(&s10, &lab6) {
            Some(x) => x,
            None => {
                return None;
            },
        };
        let (twc, s12) = match dec_i32_x(&s11) {
            Some(p) => p,
            None => {
                return None;
            },
        };
        let lab7 = crate::text::to_chars("titleEllipsis:");
        let s13 = match dec_lit_x(&s12, &lab7) {
            Some(x) => x,
            None => {
                return None;
            },
        };
        let (ell, s14) = match dec_str_x(&s13) {
            Some(p) => p,
            None => {
                return None;
            },
        };
        let lab8 = crate::text::to_chars("populateContentEncoded:");
        let s15 = match dec_lit_x(&s14, &lab8) {
            Some(x) => x,
            None => {
                return None;
            },
        };
        let (pce, s16) = match dec_bool_x(&s15) {
            Some(p) => p,
            None => {
                return None;
            },
        };
        let lab9 = crate::text::to_chars("addMediaToContentEncoded:");
        let s17 = match dec_lit_x(&s16, &lab9) {
            Some(x) => x,
            None => {
                return None;
            },
        };
        let (amc, s18) = match dec_bool_x(&s17) {
            Some(p) => p,
            None => {
                return None;
            },
        };
        let lab10 = crate::text::to_chars("maxEntriesPublished:");
        let s19 = match dec_lit_x(&s18, &lab10) {
            Some(x) => x,
            None => {
                return None;
            },
        };
        let (mep, s20) = match dec_i32_x(&s19) {
            Some(p) => p,
            None => {
                return None;
            },
        };
        let lab11 = crate::text::to_chars("overrideItemAuthor:");
        let s21 = match dec_lit_x(&s20, &lab11) {
            Some(x) => x,
            None => {
                return None;
            },
        };
        let (ova, s22) = match dec_bool_x(&s21) {
            Some(p) => p,
            None => {
                return None;
            },
        };
        if s22.len() != 0 {
            return None;
        }
        let db = crate::structs::Db {
            rss: acc,
            output_one_channel: one,
            title: crate::text::from_chars(&title),
            link: crate::text::from_chars(&link),
            include_description_as_title_if_none_given: tfb,
            description_title_word_count: twc,
            title_ellipsis: crate::text::from_chars(&ell),
            populate_content_encoded: pce,
            add_media_to_content_encoded: amc,
            max_entries_published: mep,
            override_item_author: ova,
        };
        proof {
            assert(db.deep_view() =~~= dec_db(text@)->Some_0.0);
        }
        Some(db)
    }
}

} // verus!