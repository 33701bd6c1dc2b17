//! Character-sequence utilities: substring search, replacement, and the
//! conversions between `String` and `Vec<char>` that the rest of the
//! library's text processing is built on.

use vstd::prelude::*;
use vstd::string::StrSliceExecFns;

verus! {

// ---------------------------------------------------------------------------
// Substring occurrence
// ---------------------------------------------------------------------------

/// The pattern `pat` occurs in `s` at position `i`.
pub open spec fn sub_at(s: Seq<char>, pat: Seq<char>, i: int) -> bool {
    0 <= i && i + pat.len() <= s.len() && s.subrange(i, i + pat.len() as int) == pat
}

/// The pattern `pat` occurs somewhere in `s`.
pub open spec fn contains_sub(s: Seq<char>, pat: Seq<char>) -> bool {
    exists|i: int| sub_at(s, pat, i)
}

/// `s` begins with `pat`.
pub open spec fn starts_with(s: Seq<char>, pat: Seq<char>) -> bool {
    pat.len() <= s.len() && s.take(pat.len() as int) == pat
}

/// Decides whether `pat` occurs in `s` at position `i`.
pub fn match_at(s: &Vec<char>, pat: &Vec<char>, i: usize) -> (r: bool)
    requires
        i <= s.len(),
    ensures
        r == sub_at(s@, pat@, i as int),
{
    if pat.len() > s.len() - i {
        return false;
    }
    let mut j: usize = 0;
    while j < pat.len()
        invariant
            i + pat.len() <= s.len(),
            j <= pat.len(),
            forall|k: int| 0 <= k < j ==> s@[i + k] == pat@[k],
        decreases pat.len() - j,
    {
        if s[i + j] != pat[j] {
            proof {
                assert(s@.subrange(i as int, i + pat@.len() as int)[j as int] == s@[i + j]);
            }
            return false;
        }
        j += 1;
    }
    proof {
        assert(s@.subrange(i as int, i + pat@.len() as int) =~= pat@);
    }
    true
}

/// Decides whether `pat` occurs anywhere in `s`.
pub fn contains_chars(s: &Vec<char>, pat: &Vec<char>) -> (r: bool)
    ensures
        r == contains_sub(s@, pat@),
{
    if pat.len() > s.len() {
        proof {
            assert(forall|i: int| !sub_at(s@, pat@, i));
        }
        return false;
    }
    if pat.len() == 0 {
        proof {
            assert(s@.subrange(0, 0) =~= pat@);
            assert(sub_at(s@, pat@, 0));
        }
        return true;
    }
    let mut i: usize = 0;
    while i <= s.len() - pat.len()
        invariant
            1 <= pat.len() <= s.len(),
            i <= s.len() - pat.len() + 1,
            forall|k: int| 0 <= k < i ==> !sub_at(s@, pat@, k),
        decreases s.len() - pat.len() + 1 - i,
    {
        if match_at(s, pat, i) {
            return true;
        }
        i += 1;
    }
    proof {
        assert(forall|k: int| k > s@.len() - pat@.len() ==> !sub_at(s@, pat@, k));
    }
    false
}

/// Decides whether `s` begins with `pat`.
pub fn starts_with_chars(s: &Vec<char>, pat: &Vec<char>) -> (r: bool)
    ensures
        r == starts_with(s@, pat@),
{
    if pat.len() > s.len() {
        return false;
    }
    let r = match_at(s, pat, 0);
    proof {
        assert(s@.subrange(0, pat@.len() as int) == s@.take(pat@.len() as int));
    }
    r
}

// ---------------------------------------------------------------------------
// String <-> Vec<char>
// ---------------------------------------------------------------------------

/// Collects the characters of a string slice.
pub fn to_chars(s: &str) -> (r: Vec<char>)
    ensures
        r@ == s@,
{
    let n = s.unicode_len();
    let mut r: Vec<char> = Vec::new();
    let mut i: usize = 0;
    while i < n
        invariant
            i <= n,
            n == s@.len(),
            r@ == s@.take(i as int),
        decreases n - i,
    {
        let c = s.get_char(i);
        r.push(c);
        proof {
            assert(s@.take(i + 1) =~= s@.take(i as int).push(s@[i as int]));
        }
        i += 1;
    }
    proof {
        assert(r@ =~= s@);
    }
    r
}

/// Relies on `String`'s `FromIterator<char>` implementation: collecting
/// characters yields the string consisting of exactly those characters in
/// order.
#[verifier::external_body]
pub fn from_chars(v: &Vec<char>) -> (r: String)
    ensures
        r@ == v@,
{
    v.iter().collect()
}

/// Appends every character of `s` to `out`.
pub fn push_all(out: &mut Vec<char>, s: &Vec<char>)
    ensures
        final(out)@ == old(out)@ + s@,
{
    let ghost orig = out@;
    let mut i: usize = 0;
    while i < s.len()
        invariant
            i <= s.len(),
            out@ == orig + s@.take(i as int),
        decreases s.len() - i,
    {
        let c = s[i];
        out.push(c);
        proof {
            assert(orig + s@.take(i + 1) =~= (orig + s@.take(i as int)).push(s@[i as int]));
        }
        i += 1;
    }
    proof {
        assert(orig + s@.take(s@.len() as int) =~= orig + s@);
    }
}

/// Appends every character of the string slice `s` to `out`.
pub fn push_str_chars(out: &mut Vec<char>, s: &str)
    ensures
        final(out)@ == old(out)@ + s@,
{
    let ghost orig = out@;
    let n = s.unicode_len();
    let mut i: usize = 0;
    while i < n
        invariant
            i <= n,
            n == s@.len(),
            out@ == orig + s@.take(i as int),
        decreases n - i,
    {
        let c = s.get_char(i);
        out.push(c);
        proof {
            assert(orig + s@.take(i + 1) =~= (orig + s@.take(i as int)).push(s@[i as int]));
        }
        i += 1;
    }
    proof {
        assert(orig + s@.take(s@.len() as int) =~= orig + s@);
    }
}

/// Copies `s[from..to]` into a fresh vector.
pub fn sub_vec(s: &Vec<char>, from: usize, to: usize) -> (r: Vec<char>)
    requires
        from <= to <= s.len(),
    ensures
        r@ == s@.subrange(from as int, to as int),
{
    let mut r: Vec<char> = Vec::new();
    let mut i: usize = from;
    while i < to
        invariant
            from <= i <= to <= s.len(),
            r@ == s@.subrange(from as int, i as int),
        decreases to - i,
    {
        let c = s[i];
        r.push(c);
        proof {
            assert(s@.subrange(from as int, i + 1) =~= s@.subrange(from as int, i as int).push(
                s@[i as int],
            ));
        }
        i += 1;
    }
    r
}

// ---------------------------------------------------------------------------
// Character search
// ---------------------------------------------------------------------------

/// Index of the first occurrence of `c` in `s`, or `-1` if `c` does not occur.
pub open spec fn find_char(s: Seq<char>, c: char) -> int
    decreases s.len(),
{
    if s.len() == 0 {
        -1
    } else if s[0] == c {
        0
    } else {
        let r = find_char(s.skip(1), c);
        if r < 0 {
            -1
        } else {
            r + 1
        }
    }
}

/// What `find_char` returns: the first position holding `c`, or `-1` when
/// no position does.
pub proof fn lemma_find_char(s: Seq<char>, c: char)
    ensures
        find_char(s, c) >= 0 ==> {
            &&& find_char(s, c) < s.len()
            &&& s[find_char(s, c)] == c
            &&& forall|m: int| 0 <= m < find_char(s, c) ==> s[m] != c
        },
        find_char(s, c) < 0 ==> forall|m: int| 0 <= m < s.len() ==> s[m] != c,
    decreases s.len(),
{
    if s.len() > 0 && s[0] != c {
        lemma_find_char(s.skip(1), c);
        assert(forall|m: int| 1 <= m < s.len() ==> s[m] == s.skip(1)[m - 1]);
    }
}

/// Finds the first occurrence of `c` in `s` at position `from` or later,
/// returning its absolute index, or `None` when there is none.
pub fn find_char_from(s: &Vec<char>, c: char, from: usize) -> (r: Option<usize>)
    requires
        from <= s.len(),
    ensures
        match r {
            Some(j) => {
                &&& from + find_char(s@.skip(from as int), c) == j
                &&& find_char(s@.skip(from as int), c) >= 0
                &&& from <= j < s.len()
                &&& s@[j as int] == c
            },
            None => find_char(s@.skip(from as int), c) < 0,
        },
{
    let mut i: usize = from;
    while i < s.len()
        invariant
            from <= i <= s.len(),
            forall|m: int| from <= m < i ==> s@[m] != c,
        decreases s.len() - i,
    {
        if s[i] == c {
            proof {
                lemma_find_char(s@.skip(from as int), c);
                assert(forall|m: int|
                    0 <= m < s@.len() - from ==> s@.skip(from as int)[m] == s@[from + m]);
                assert(s@.skip(from as int)[i - from] == c);
                assert(find_char(s@.skip(from as int), c) == i - from) by {
                    let f = find_char(s@.skip(from as int), c);
                    if f < i - from {
                        assert(s@[from + f] != c);
                    }
                    if f > i - from {
                        assert(s@.skip(from as int)[i - from] != c);
                    }
                }
            }
            return Some(i);
        }
        i += 1;
    }
    proof {
        lemma_find_char(s@.skip(from as int), c);
        assert(forall|m: int| 0 <= m < s@.len() - from ==> s@.skip(from as int)[m] == s@[from + m]);
    }
    None
}

// ---------------------------------------------------------------------------
// Substring search
// ---------------------------------------------------------------------------

/// Index of the first occurrence of `pat` in `s`, or `-1` if `pat` does not
/// occur.
pub open spec fn find_sub(s: Seq<char>, pat: Seq<char>) -> int
    decreases s.len(),
{
    if s.len() < pat.len() {
        -1
    } else if s.take(pat.len() as int) == pat {
        0
    } else if s.len() == 0 {
        -1
    } else {
        let r = find_sub(s.skip(1), pat);
        if r < 0 {
            -1
        } else {
            r + 1
        }
    }
}

/// What `find_sub` returns: the first position where `pat` occurs, or `-1`
/// when it occurs nowhere.
pub proof fn lemma_find_sub(s: Seq<char>, pat: Seq<char>)
    ensures
        find_sub(s, pat) >= 0 ==> {
            &&& sub_at(s, pat, find_sub(s, pat))
            &&& forall|m: int| 0 <= m < find_sub(s, pat) ==> !sub_at(s, pat, m)
        },
        find_sub(s, pat) < 0 ==> forall|m: int| !sub_at(s, pat, m),
    decreases s.len(),
{
    if s.len() < pat.len() {
        assert(forall|m: int| !sub_at(s, pat, m));
    } else if s.take(pat.len() as int) == pat {
        assert(s.subrange(0, pat.len() as int) == s.take(pat.len() as int));
        assert(sub_at(s, pat, 0));
    } else {
        assert(s.len() > 0) by {
            if s.len() == 0 {
                assert(s.take(pat.len() as int) =~= pat);
            }
        }
        lemma_find_sub(s.skip(1), pat);
        let r1 = find_sub(s.skip(1), pat);
        assert(!sub_at(s, pat, 0)) by {
            if sub_at(s, pat, 0) {
                assert(s.subrange(0, pat.len() as int) == s.take(pat.len() as int));
            }
        }
        assert forall|m: int| #[trigger] sub_at(s, pat, m) && 1 <= m implies sub_at(
            s.skip(1),
            pat,
            m - 1,
        ) by {
            assert(s.skip(1).subrange(m - 1, m - 1 + pat.len() as int) =~= s.subrange(
                m,
                m + pat.len() as int,
            ));
        }
        assert forall|k: int| #[trigger] sub_at(s.skip(1), pat, k) implies sub_at(
            s,
            pat,
            k + 1,
        ) by {
            assert(s.subrange(k + 1, k + 1 + pat.len() as int) =~= s.skip(1).subrange(
                k,
                k + pat.len() as int,
            ));
        }
        if r1 >= 0 {
            assert(sub_at(s.skip(1), pat, r1));
            assert(sub_at(s, pat, r1 + 1));
            assert(find_sub(s, pat) == r1 + 1);
            assert(forall|m: int| 0 <= m < r1 + 1 ==> !sub_at(s, pat, m));
        } else {
            assert(forall|m: int| 1 <= m ==> !sub_at(s, pat, m));
            assert(forall|m: int| !sub_at(s, pat, m));
        }
    }
}

/// Finds the first occurrence of `pat` in `s`, as an index, or `None` when
/// there is none.
pub fn find_sub_chars(s: &Vec<char>, pat: &Vec<char>) -> (r: Option<usize>)
    ensures
        match r {
            Some(j) => find_sub(s@, pat@) == j,
            None => find_sub(s@, pat@) < 0,
        },
{
    if pat.len() > s.len() {
        proof {
            lemma_find_sub(s@, pat@);
        }
        return None;
    }
    if pat.len() == 0 {
        proof {
            assert(s@.take(0) =~= pat@);
        }
        return Some(0);
    }
    let mut i: usize = 0;
    while i <= s.len() - pat.len()
        invariant
            1 <= pat.len() <= s.len(),
            i <= s.len() - pat.len() + 1,
            forall|k: int| 0 <= k < i ==> !sub_at(s@, pat@, k),
        decreases s.len() - pat.len() + 1 - i,
    {
        if match_at(s, pat, i) {
            proof {
                lemma_find_sub(s@, pat@);
                let f = find_sub(s@, pat@);
                if f < 0 {
                    assert(!sub_at(s@, pat@, i as int));
                }
                if f > i {
                    assert(!sub_at(s@, pat@, i as int));
                }
            }
            return Some(i);
        }
        i += 1;
    }
    proof {
        lemma_find_sub(s@, pat@);
        let f = find_sub(s@, pat@);
        if f >= 0 {
            assert(sub_at(s@, pat@, f));
        }
    }
    None
}

// ---------------------------------------------------------------------------
// Splitting, joining, trimming
// ---------------------------------------------------------------------------

/// Splits `s` on every occurrence of `c`; consecutive separators yield empty
/// pieces, and the result always holds at least one piece.
pub open spec fn split_char(s: Seq<char>, c: char) -> Seq<Seq<char>>
    decreases s.len(),
{
    let j = find_char(s, c);
    if j < 0 || j >= s.len() {
        seq![s]
    } else {
        seq![s.take(j)] + split_char(s.skip(j + 1), c)
    }
}

/// Joins `parts` with the single character `c` between consecutive parts.
pub open spec fn join_char(parts: Seq<Seq<char>>, c: char) -> Seq<char>
    decreases parts.len(),
{
    if parts.len() == 0 {
        Seq::empty()
    } else if parts.len() == 1 {
        parts[0]
    } else {
        parts[0] + seq![c] + join_char(parts.skip(1), c)
    }
}

/// Splits `s` on every occurrence of `c`.
pub fn split_chars(s: &Vec<char>, c: char) -> (r: Vec<Vec<char>>)
    ensures
        r.deep_view() == split_char(s@, c),
{
    let mut r: Vec<Vec<char>> = Vec::new();
    let mut i: usize = 0;
    proof {
        assert(s@.skip(0) =~= s@);
        assert(Seq::<Seq<char>>::empty() + split_char(s@, c) =~= split_char(s@, c));
    }
    loop
        invariant
            i <= s.len(),
            split_char(s@, c) == r.deep_view() + split_char(s@.skip(i as int), c),
        decreases s.len() - i,
    {
        let ghost pre = r.deep_view();
        let ghost rem = s@.skip(i as int);
        match find_char_from(s, c, i) {
            Some(j) => {
                let piece = sub_vec(s, i, j);
                r.push(piece);
                proof {
                    let f = find_char(rem, c);
                    assert(rem.take(f) =~= s@.subrange(i as int, j as int));
                    assert(rem.skip(f + 1) =~= s@.skip(j + 1));
                    assert(split_char(rem, c) == seq![rem.take(f)] + split_char(
                        s@.skip(j + 1),
                        c,
                    ));
                    assert(pre + (seq![rem.take(f)] + split_char(s@.skip(j + 1), c)) =~= pre.push(
                        rem.take(f),
                    ) + split_char(s@.skip(j + 1), c));
                    assert(r.deep_view() =~~= pre.push(s@.subrange(i as int, j as int)));
                }
                i = j + 1;
            },
            None => {
                let piece = sub_vec(s, i, s.len());
                r.push(piece);
                proof {
                    assert(rem =~= s@.subrange(i as int, s@.len() as int));
                    assert(split_char(rem, c) == seq![rem]);
                    assert(pre + seq![rem] =~= pre.push(rem));
                    assert(r.deep_view() =~~= pre.push(s@.subrange(i as int, s@.len() as int)));
                }
                return r;
            },
        }
    }
}

/// Joins the first `k` of `parts` with the single character `c`.
pub fn join_upto(parts: &Vec<Vec<char>>, k: usize, c: char) -> (r: Vec<char>)
    requires
        k <= parts.len(),
    ensures
        r@ == join_char(parts.deep_view().take(k as int), c),
{
    let mut r: Vec<char> = Vec::new();
    if k == 0 {
        return r;
    }
    push_all(&mut r, &parts[0]);
    let mut i: usize = 1;
    proof {
        assert(parts.deep_view().take(1) =~= seq![parts.deep_view()[0]]);
        assert(join_char(parts.deep_view().take(1), c) == parts.deep_view()[0]);
        assert(Seq::<char>::empty() + parts[0]@ =~= parts.deep_view()[0]);
    }
    while i < k
        invariant
            1 <= i <= k <= parts.len(),
            r@ == join_char(parts.deep_view().take(i as int), c),
        decreases k - i,
    {
        let ghost pre = r@;
        r.push(c);
        push_all(&mut r, &parts[i]);
        proof {
            lemma_join_snoc(parts.deep_view().take(i as int), parts.deep_view()[i as int], c);
            assert(parts.deep_view().take(i + 1) =~= parts.deep_view().take(i as int).push(
                parts.deep_view()[i as int],
            ));
            assert(r@ =~= pre + seq![c] + parts.deep_view()[i as int]);
        }
        i += 1;
    }
    r
}

/// Appending one more part to a non-empty join appends a separator and the
/// part.
pub proof fn lemma_join_snoc(parts: Seq<Seq<char>>, last: Seq<char>, c: char)
    requires
        parts.len() >= 1,
    ensures
        join_char(parts.push(last), c) == join_char(parts, c) + seq![c] + last,
    decreases parts.len(),
{
    if parts.len() == 1 {
        assert(parts.push(last)[0] == parts[0]);
        assert(parts.push(last).skip(1) =~= seq![last]);
        assert(join_char(seq![last], c) == last);
    } else {
        lemma_join_snoc(parts.skip(1), last, c);
        assert(parts.push(last).skip(1) =~= parts.skip(1).push(last));
        assert(parts.push(last)[0] == parts[0]);
        assert(parts[0] + seq![c] + (join_char(parts.skip(1), c) + seq![c] + last) =~= (parts[0]
            + seq![c] + join_char(parts.skip(1), c)) + seq![c] + last);
    }
}

/// True for the ASCII whitespace characters this library trims.
pub open spec fn is_space(c: char) -> bool {
    c == ' ' || c == '\t' || c == '\n' || c == '\r'
}

/// `s` with leading whitespace removed.
pub open spec fn trim_start(s: Seq<char>) -> Seq<char>
    decreases s.len(),
{
    if s.len() > 0 && is_space(s[0]) {
        trim_start(s.skip(1))
    } else {
        s
    }
}

/// `s` with trailing whitespace removed.
pub open spec fn trim_end(s: Seq<char>) -> Seq<char>
    decreases s.len(),
{
    if s.len() > 0 && is_space(s.last()) {
        trim_end(s.drop_last())
    } else {
        s
    }
}

/// `s` with leading and trailing whitespace removed.
pub open spec fn trim(s: Seq<char>) -> Seq<char> {
    trim_end(trim_start(s))
}

/// When the first `k` characters are whitespace and the next one is not,
/// trimming the start drops exactly those `k`.
proof fn lemma_trim_start_at(s: Seq<char>, k: int)
    requires
        0 <= k <= s.len(),
        forall|m: int| 0 <= m < k ==> is_space(s[m]),
        k == s.len() || !is_space(s[k]),
    ensures
        trim_start(s) == s.skip(k),
    decreases k,
{
    if k == 0 {
        assert(s.skip(0) =~= s);
    } else {
        lemma_trim_start_at(s.skip(1), k - 1);
        assert(s.skip(1).skip(k - 1) =~= s.skip(k));
    }
}

/// When the last characters beyond position `k` are whitespace and the one
/// before is not, trimming the end keeps exactly the first `k`.
proof fn lemma_trim_end_at(s: Seq<char>, k: int)
    requires
        0 <= k <= s.len(),
        forall|m: int| k <= m < s.len() ==> is_space(s[m]),
        k == 0 || !is_space(s[k - 1]),
    ensures
        trim_end(s) == s.take(k),
    decreases s.len(),
{
    if k == s.len() {
        if s.len() > 0 && is_space(s.last()) {
            assert(false);
        }
        assert(s.take(k) =~= s);
    } else {
        assert(is_space(s.last()));
        lemma_trim_end_at(s.drop_last(), k);
        assert(s.drop_last().take(k) =~= s.take(k));
    }
}

/// Removes leading and trailing ASCII whitespace.
pub fn trim_chars(s: &Vec<char>) -> (r: Vec<char>)
    ensures
        r@ == trim(s@),
{
    let mut a: usize = 0;
    while a < s.len() && (s[a] == ' ' || s[a] == '\t' || s[a] == '\n' || s[a] == '\r')
        invariant
            a <= s.len(),
            forall|m: int| 0 <= m < a ==> is_space(s@[m]),
        decreases s.len() - a,
    {
        a += 1;
    }
    proof {
        lemma_trim_start_at(s@, a as int);
    }
    let mut b: usize = s.len();
    while b > a && (s[b - 1] == ' ' || s[b - 1] == '\t' || s[b - 1] == '\n' || s[b - 1] == '\r')
        invariant
            a <= b <= s.len(),
            forall|m: int| b <= m < s.len() ==> is_space(s@[m]),
        decreases b,
    {
        b -= 1;
    }
    let r = sub_vec(s, a, b);
    proof {
        let t = s@.skip(a as int);
        assert(forall|m: int| 0 <= m < t.len() ==> t[m] == s@[a + m]);
        lemma_trim_end_at(t, b - a);
        assert(t.take(b - a) =~= s@.subrange(a as int, b as int));
    }
    r
}

// ---------------------------------------------------------------------------
// Replacement
// ---------------------------------------------------------------------------

/// Replaces every non-overlapping occurrence of `pat` in `s` with `rep`,
/// scanning left to right.
pub open spec fn replace_all(s: Seq<char>, pat: Seq<char>, rep: Seq<char>) -> Seq<char>
    decreases s.len(),
{
    if pat.len() == 0 || s.len() < pat.len() {
        s
    } else if s.take(pat.len() as int) == pat {
        rep + replace_all(s.skip(pat.len() as int), pat, rep)
    } else {
        seq![s[0]] + replace_all(s.skip(1), pat, rep)
    }
}

/// Replaces every non-overlapping occurrence of `pat` in `s` with `rep`.
pub fn replace_all_chars(s: &Vec<char>, pat: &Vec<char>, rep: &Vec<char>) -> (r: Vec<char>)
    requires
        pat.len() > 0,
    ensures
        r@ == replace_all(s@, pat@, rep@),
{
    let mut out: Vec<char> = Vec::new();
    let mut i: usize = 0;
    proof {
        assert(s@.skip(0) =~= s@);
        assert(Seq::<char>::empty() + replace_all(s@, pat@, rep@) =~= replace_all(s@, pat@, rep@));
    }
    while i < s.len()
        invariant
            i <= s.len(),
            pat@.len() > 0,
            replace_all(s@, pat@, rep@) == out@ + replace_all(s@.skip(i as int), pat@, rep@),
        decreases s.len() - i,
    {
        let ghost pre = out@;
        let ghost rem = s@.skip(i as int);
        if match_at(s, pat, i) {
            push_all(&mut out, rep);
            proof {
                assert(rem.take(pat@.len() as int) =~= s@.subrange(
                    i as int,
                    i + pat@.len() as int,
                ));
                assert(rem.skip(pat@.len() as int) =~= s@.skip(i + pat@.len()));
                assert(replace_all(rem, pat@, rep@) == rep@ + replace_all(
                    s@.skip(i + pat@.len()),
                    pat@,
                    rep@,
                ));
                assert(pre + (rep@ + replace_all(s@.skip(i + pat@.len()), pat@, rep@)) =~= (pre
                    + rep@) + replace_all(s@.skip(i + pat@.len()), pat@, rep@));
            }
            i += pat.len();
        } else {
            let c = s[i];
            out.push(c);
            proof {
                if rem.len() >= pat@.len() {
                    assert(rem.take(pat@.len() as int) =~= s@.subrange(
                        i as int,
                        i + pat@.len() as int,
                    ));
                    assert(rem.take(pat@.len() as int) != pat@);
                    assert(rem.skip(1) =~= s@.skip(i + 1));
                    assert(replace_all(rem, pat@, rep@) == seq![s@[i as int]] + replace_all(
                        s@.skip(i + 1),
                        pat@,
                        rep@,
                    ));
                    assert(pre + (seq![s@[i as int]] + replace_all(s@.skip(i + 1), pat@, rep@))
                        =~= pre.push(s@[i as int]) + replace_all(s@.skip(i + 1), pat@, rep@));
                } else {
                    assert(replace_all(rem, pat@, rep@) == rem);
                    assert(rem.skip(1) =~= s@.skip(i + 1));
                    assert(replace_all(s@.skip(i + 1), pat@, rep@) == s@.skip(i + 1));
                    assert(pre + rem =~= pre.push(s@[i as int]) + s@.skip(i + 1));
                }
            }
            i += 1;
        }
    }
    proof {
        assert(s@.skip(s@.len() as int) =~= Seq::<char>::empty());
        assert(replace_all(Seq::<char>::empty(), pat@, rep@) == Seq::<char>::empty());
        assert(out@ + Seq::<char>::empty() =~= out@);
    }
    out
}

} // verus!
