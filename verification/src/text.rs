//! Character-level scanning: the whitespace class, substring search, and the
//! three ways the source text is split (object chunks, lines, face sub-tokens).
use vstd::prelude::*;
use vstd::string::StrSliceExecFns;

verus! {

/// The separator class of `split_whitespace`: Unicode `White_Space`.
pub open spec fn is_ws_char(c: char) -> bool {
    c == ' ' || c == '\t' || c == '\n' || c == '\u{0b}' || c == '\u{0c}' || c == '\r'
        || c == '\u{85}' || c == '\u{a0}' || c == '\u{1680}'
        || (0x2000 <= (c as u32) && (c as u32) <= 0x200a)
        || c == '\u{2028}' || c == '\u{2029}' || c == '\u{202f}' || c == '\u{205f}'
        || c == '\u{3000}'
}

pub fn ws_char(c: char) -> (b: bool)
    ensures
        b == is_ws_char(c),
{
    c == ' ' || c == '\t' || c == '\n' || c == '\u{0b}' || c == '\u{0c}' || c == '\r'
        || c == '\u{85}' || c == '\u{a0}' || c == '\u{1680}'
        || (0x2000 <= (c as u32) && (c as u32) <= 0x200a)
        || c == '\u{2028}' || c == '\u{2029}' || c == '\u{202f}' || c == '\u{205f}'
        || c == '\u{3000}'
}

pub open spec fn contains_char(s: Seq<char>, c: char) -> bool {
    exists|i: int| 0 <= i < s.len() && s[i] == c
}

pub fn str_contains_char(s: &str, c: char) -> (b: bool)
    ensures
        b == contains_char(s@, c),
{
    let n: usize = s.unicode_len();
    let mut i: usize = 0;
    while i < n
        invariant
            n == s@.len(),
            0 <= i <= n,
            forall|j: int| 0 <= j < i ==> s@[j] != c,
        decreases n - i,
    {
        if s.get_char(i) == c {
            return true;
        }
        i = i + 1;
    }
    false
}

/// The view of every slice in a token list.
pub open spec fn views_of(ts: Seq<&str>) -> Seq<Seq<char>> {
    ts.map_values(|t: &str| t@)
}

proof fn lemma_skip_one(s: Seq<char>, i: int)
    requires
        0 <= i < s.len(),
    ensures
        s.skip(i).skip(1) == s.skip(i + 1),
        s.skip(i)[0] == s[i],
        s.skip(i).len() == s.len() - i,
{
    assert(s.skip(i).skip(1) =~= s.skip(i + 1));
}

proof fn lemma_subrange_push(s: Seq<char>, a: int, i: int)
    requires
        0 <= a <= i < s.len(),
    ensures
        s.subrange(a, i).push(s[i]) == s.subrange(a, i + 1),
{
    assert(s.subrange(a, i).push(s[i]) =~= s.subrange(a, i + 1));
}

proof fn lemma_views_push(ts: Seq<&str>, t: &str)
    ensures
        views_of(ts.push(t)) == views_of(ts) + seq![t@],
{
    assert(views_of(ts.push(t)) =~= views_of(ts) + seq![t@]);
}

proof fn lemma_scan_start(s: Seq<char>)
    ensures
        s.skip(0) == s,
        s.subrange(0, 0) == Seq::<char>::empty(),
{
    assert(s.skip(0) =~= s);
    assert(s.subrange(0, 0) =~= Seq::<char>::empty());
}

proof fn lemma_add_assoc(a: Seq<Seq<char>>, b: Seq<Seq<char>>, d: Seq<Seq<char>>)
    ensures
        a + (b + d) == (a + b) + d,
        Seq::<Seq<char>>::empty() + a == a,
{
    assert(a + (b + d) =~= (a + b) + d);
    assert(Seq::<Seq<char>>::empty() + a =~= a);
}

/// Splitting on a single separator character, with the chunk built so far as
/// accumulator; every separator starts a fresh chunk, so `n` separators give
/// `n + 1` chunks.
pub open spec fn split_char_rec(s: Seq<char>, c: char, cur: Seq<char>) -> Seq<Seq<char>>
    decreases s.len(),
{
    if s.len() == 0 {
        seq![cur]
    } else if s[0] == c {
        seq![cur] + split_char_rec(s.skip(1), c, Seq::empty())
    } else {
        split_char_rec(s.skip(1), c, cur.push(s[0]))
    }
}

pub open spec fn split_char(s: Seq<char>, c: char) -> Seq<Seq<char>> {
    split_char_rec(s, c, Seq::empty())
}

pub fn split_char_str<'a>(s: &'a str, c: char) -> (r: Vec<&'a str>)
    ensures
        views_of(r@) == split_char(s@, c),
{
    let n: usize = s.unicode_len();
    let mut out: Vec<&'a str> = Vec::new();
    let mut start: usize = 0;
    let mut i: usize = 0;
    proof {
        lemma_scan_start(s@);
        lemma_add_assoc(split_char(s@, c), split_char(s@, c), split_char(s@, c));
        assert(views_of(out@) =~= Seq::<Seq<char>>::empty());
    }
    while i < n
        invariant
            n == s@.len(),
            0 <= start <= i <= n,
            split_char(s@, c) == views_of(out@) + split_char_rec(
                s@.skip(i as int),
                c,
                s@.subrange(start as int, i as int),
            ),
        decreases n - i,
    {
        let ghost cur = s@.subrange(start as int, i as int);
        proof {
            lemma_skip_one(s@, i as int);
        }
        if s.get_char(i) == c {
            let tok = s.substring_char(start, i);
            proof {
                assert(split_char_rec(s@.skip(i as int), c, cur) == seq![cur] + split_char_rec(
                    s@.skip(i + 1),
                    c,
                    Seq::empty(),
                ));
                lemma_views_push(out@, tok);
                lemma_add_assoc(
                    views_of(out@),
                    seq![cur],
                    split_char_rec(s@.skip(i + 1), c, Seq::empty()),
                );
                assert(s@.subrange(i + 1, i + 1) =~= Seq::<char>::empty());
            }
            out.push(tok);
            start = i + 1;
        } else {
            proof {
                lemma_subrange_push(s@, start as int, i as int);
                assert(split_char_rec(s@.skip(i as int), c, cur) == split_char_rec(
                    s@.skip(i + 1),
                    c,
                    cur.push(s@[i as int]),
                ));
            }
        }
        i = i + 1;
    }
    let tail = s.substring_char(start, n);
    proof {
        assert(s@.skip(n as int).len() == 0);
        lemma_views_push(out@, tail);
        assert(views_of(out@) + seq![tail@] =~= views_of(out@) + split_char_rec(
            s@.skip(n as int),
            c,
            s@.subrange(start as int, n as int),
        ));
    }
    out.push(tail);
    out
}

/// Splitting on the two-character object marker `"o "`, leftmost first.
pub open spec fn split_marker_rec(s: Seq<char>, cur: Seq<char>) -> Seq<Seq<char>>
    decreases s.len(),
{
    if s.len() == 0 {
        seq![cur]
    } else if s.len() >= 2 && s[0] == 'o' && s[1] == ' ' {
        seq![cur] + split_marker_rec(s.skip(2), Seq::empty())
    } else {
        split_marker_rec(s.skip(1), cur.push(s[0]))
    }
}

pub open spec fn split_marker(s: Seq<char>) -> Seq<Seq<char>> {
    split_marker_rec(s, Seq::empty())
}

pub fn split_marker_str<'a>(s: &'a str) -> (r: Vec<&'a str>)
    ensures
        views_of(r@) == split_marker(s@),
{
    let n: usize = s.unicode_len();
    let mut out: Vec<&'a str> = Vec::new();
    let mut start: usize = 0;
    let mut i: usize = 0;
    proof {
        lemma_scan_start(s@);
        lemma_add_assoc(split_marker(s@), split_marker(s@), split_marker(s@));
        assert(views_of(out@) =~= Seq::<Seq<char>>::empty());
    }
    while i < n
        invariant
            n == s@.len(),
            0 <= start <= i <= n,
            split_marker(s@) == views_of(out@) + split_marker_rec(
                s@.skip(i as int),
                s@.subrange(start as int, i as int),
            ),
        decreases n - i,
    {
        let ghost cur = s@.subrange(start as int, i as int);
        proof {
            lemma_skip_one(s@, i as int);
        }
        if i + 1 < n && s.get_char(i) == 'o' && s.get_char(i + 1) == ' ' {
            let tok = s.substring_char(start, i);
            proof {
                assert(s@.skip(i as int)[1] == s@[i + 1]);
                assert(s@.skip(i as int).skip(2) =~= s@.skip(i + 2));
                assert(split_marker_rec(s@.skip(i as int), cur) == seq![cur] + split_marker_rec(
                    s@.skip(i + 2),
                    Seq::empty(),
                ));
                lemma_views_push(out@, tok);
                lemma_add_assoc(
                    views_of(out@),
                    seq![cur],
                    split_marker_rec(s@.skip(i + 2), Seq::empty()),
                );
                assert(s@.subrange(i + 2, i + 2) =~= Seq::<char>::empty());
            }
            out.push(tok);
            start = i + 2;
            i = i + 2;
        } else {
            proof {
                if s@.skip(i as int).len() >= 2 && s@.skip(i as int)[0] == 'o'
                    && s@.skip(i as int)[1] == ' ' {
                    assert(s@[i + 1] == s@.skip(i as int)[1]);
                    assert(false);
                }
                lemma_subrange_push(s@, start as int, i as int);
                assert(split_marker_rec(s@.skip(i as int), cur) == split_marker_rec(
                    s@.skip(i + 1),
                    cur.push(s@[i as int]),
                ));
            }
            i = i + 1;
        }
    }
    let tail = s.substring_char(start, n);
    proof {
        assert(s@.skip(n as int).len() == 0);
        lemma_views_push(out@, tail);
        assert(views_of(out@) + seq![tail@] =~= views_of(out@) + split_marker_rec(
            s@.skip(n as int),
            s@.subrange(start as int, n as int),
        ));
    }
    out.push(tail);
    out
}

/// Splitting on runs of whitespace, dropping empty pieces, as
/// `split_whitespace` does.
pub open spec fn tokens_rec(s: Seq<char>, cur: Seq<char>) -> Seq<Seq<char>>
    decreases s.len(),
{
    if s.len() == 0 {
        if cur.len() == 0 {
            Seq::empty()
        } else {
            seq![cur]
        }
    } else if is_ws_char(s[0]) {
        if cur.len() == 0 {
            tokens_rec(s.skip(1), Seq::empty())
        } else {
            seq![cur] + tokens_rec(s.skip(1), Seq::empty())
        }
    } else {
        tokens_rec(s.skip(1), cur.push(s[0]))
    }
}

pub open spec fn tokens(s: Seq<char>) -> Seq<Seq<char>> {
    tokens_rec(s, Seq::empty())
}

pub fn tokens_str<'a>(s: &'a str) -> (r: Vec<&'a str>)
    ensures
        views_of(r@) == tokens(s@),
{
    let n: usize = s.unicode_len();
    let mut out: Vec<&'a str> = Vec::new();
    let mut start: usize = 0;
    let mut i: usize = 0;
    proof {
        lemma_scan_start(s@);
        lemma_add_assoc(tokens(s@), tokens(s@), tokens(s@));
        assert(views_of(out@) =~= Seq::<Seq<char>>::empty());
    }
    while i < n
        invariant
            n == s@.len(),
            0 <= start <= i <= n,
            tokens(s@) == views_of(out@) + tokens_rec(
                s@.skip(i as int),
                s@.subrange(start as int, i as int),
            ),
        decreases n - i,
    {
        let ghost cur = s@.subrange(start as int, i as int);
        proof {
            lemma_skip_one(s@, i as int);
        }
        if ws_char(s.get_char(i)) {
            if start < i {
                let tok = s.substring_char(start, i);
                proof {
                    assert(tokens_rec(s@.skip(i as int), cur) == seq![cur] + tokens_rec(
                        s@.skip(i + 1),
                        Seq::empty(),
                    ));
                    lemma_views_push(out@, tok);
                    lemma_add_assoc(
                        views_of(out@),
                        seq![cur],
                        tokens_rec(s@.skip(i + 1), Seq::empty()),
                    );
                }
                out.push(tok);
            } else {
                proof {
                    assert(cur.len() == 0);
                    assert(tokens_rec(s@.skip(i as int), cur) == tokens_rec(
                        s@.skip(i + 1),
                        Seq::empty(),
                    ));
                }
            }
            proof {
                assert(s@.subrange(i + 1, i + 1) =~= Seq::<char>::empty());
            }
            start = i + 1;
        } else {
            proof {
                lemma_subrange_push(s@, start as int, i as int);
                assert(tokens_rec(s@.skip(i as int), cur) == tokens_rec(
                    s@.skip(i + 1),
                    cur.push(s@[i as int]),
                ));
            }
        }
        i = i + 1;
    }
    if start < n {
        let tail = s.substring_char(start, n);
        proof {
            assert(s@.skip(n as int).len() == 0);
            lemma_views_push(out@, tail);
            assert(views_of(out@) + seq![tail@] =~= views_of(out@) + tokens_rec(
                s@.skip(n as int),
                s@.subrange(start as int, n as int),
            ));
        }
        out.push(tail);
    } else {
        proof {
            assert(s@.skip(n as int).len() == 0);
            assert(s@.subrange(start as int, n as int).len() == 0);
            assert(views_of(out@) + Seq::<Seq<char>>::empty() =~= views_of(out@));
        }
    }
    out
}

/// No character of `s` is whitespace.
pub open spec fn no_ws(s: Seq<char>) -> bool {
    forall|j: int| 0 <= j < s.len() ==> !is_ws_char(#[trigger] s[j])
}

/// Scanning a run of non-whitespace characters moves it whole into the
/// accumulator.
pub proof fn lemma_tokens_over_word(t: Seq<char>, rest: Seq<char>, cur: Seq<char>)
    requires
        no_ws(t),
    ensures
        tokens_rec(t + rest, cur) == tokens_rec(rest, cur + t),
    decreases t.len(),
{
    if t.len() == 0 {
        assert(t + rest =~= rest);
        assert(cur + t =~= cur);
    } else {
        assert((t + rest)[0] == t[0]);
        assert((t + rest).skip(1) =~= t.skip(1) + rest);
        assert(cur.push(t[0]) + t.skip(1) =~= cur + t);
        assert(no_ws(t.skip(1)));
        lemma_tokens_over_word(t.skip(1), rest, cur.push(t[0]));
    }
}

/// Every character of `s` is whitespace.
pub open spec fn all_ws(s: Seq<char>) -> bool {
    forall|j: int| 0 <= j < s.len() ==> is_ws_char(#[trigger] s[j])
}

/// Scanning whitespace with an empty accumulator emits nothing.
pub proof fn lemma_tokens_over_ws(w: Seq<char>, rest: Seq<char>)
    requires
        all_ws(w),
    ensures
        tokens_rec(w + rest, Seq::empty()) == tokens_rec(rest, Seq::empty()),
    decreases w.len(),
{
    if w.len() == 0 {
        assert(w + rest =~= rest);
    } else {
        assert((w + rest)[0] == w[0]);
        assert((w + rest).skip(1) =~= w.skip(1) + rest);
        assert(all_ws(w.skip(1)));
        lemma_tokens_over_ws(w.skip(1), rest);
    }
}

/// A single space finishes the current token.
pub proof fn lemma_tokens_over_space(rest: Seq<char>, cur: Seq<char>)
    requires
        cur.len() > 0,
    ensures
        tokens_rec(seq![' '] + rest, cur) == seq![cur] + tokens_rec(rest, Seq::empty()),
{
    assert((seq![' '] + rest)[0] == ' ');
    assert((seq![' '] + rest).skip(1) =~= rest);
}

/// A stretch without the separator stays one chunk.
pub proof fn lemma_split_no_delim(t: Seq<char>, c: char, cur: Seq<char>)
    requires
        !contains_char(t, c),
    ensures
        split_char_rec(t, c, cur) == seq![cur + t],
    decreases t.len(),
{
    if t.len() == 0 {
        assert(cur + t =~= cur);
    } else {
        assert(t[0] != c);
        assert(!contains_char(t.skip(1), c)) by {
            if contains_char(t.skip(1), c) {
                let i = choose|i: int| 0 <= i < t.skip(1).len() && t.skip(1)[i] == c;
                assert(t[i + 1] == c);
            }
        }
        lemma_split_no_delim(t.skip(1), c, cur.push(t[0]));
        assert(cur.push(t[0]) + t.skip(1) =~= cur + t);
    }
}

/// A separator right after a clean stretch closes exactly one chunk.
pub proof fn lemma_split_line(t: Seq<char>, c: char, rest: Seq<char>, cur: Seq<char>)
    requires
        !contains_char(t, c),
    ensures
        split_char_rec(t + (seq![c] + rest), c, cur) == seq![cur + t] + split_char_rec(
            rest,
            c,
            Seq::empty(),
        ),
    decreases t.len(),
{
    if t.len() == 0 {
        assert(t + (seq![c] + rest) =~= seq![c] + rest);
        assert((seq![c] + rest)[0] == c);
        assert((seq![c] + rest).skip(1) =~= rest);
        assert(cur + t =~= cur);
    } else {
        assert(t[0] != c) by {
            if t[0] == c {
                assert(contains_char(t, c));
            }
        }
        assert(!contains_char(t.skip(1), c)) by {
            if contains_char(t.skip(1), c) {
                let i = choose|i: int| 0 <= i < t.skip(1).len() && t.skip(1)[i] == c;
                assert(t[i + 1] == c);
            }
        }
        assert((t + (seq![c] + rest))[0] == t[0]);
        assert((t + (seq![c] + rest)).skip(1) =~= t.skip(1) + (seq![c] + rest));
        lemma_split_line(t.skip(1), c, rest, cur.push(t[0]));
        assert(cur.push(t[0]) + t.skip(1) =~= cur + t);
    }
}

/// Text in which the letter of the object marker never occurs splits into a
/// single chunk.
pub proof fn lemma_no_marker_single_chunk(s: Seq<char>, cur: Seq<char>)
    requires
        !contains_char(s, 'o'),
    ensures
        split_marker_rec(s, cur) == seq![cur + s],
    decreases s.len(),
{
    if s.len() == 0 {
        assert(cur + s =~= cur);
    } else {
        assert(s[0] != 'o') by {
            if s[0] == 'o' {
                assert(contains_char(s, 'o'));
            }
        }
        assert(!contains_char(s.skip(1), 'o')) by {
            if contains_char(s.skip(1), 'o') {
                let i = choose|i: int| 0 <= i < s.skip(1).len() && s.skip(1)[i] == 'o';
                assert(s[i + 1] == 'o');
            }
        }
        lemma_no_marker_single_chunk(s.skip(1), cur.push(s[0]));
        assert(cur.push(s[0]) + s.skip(1) =~= cur + s);
    }
}

/// Searching a concatenation searches the parts.
pub proof fn lemma_contains_concat(x: Seq<char>, y: Seq<char>, c: char)
    ensures
        contains_char(x + y, c) == (contains_char(x, c) || contains_char(y, c)),
{
    if contains_char(x, c) {
        let i = choose|i: int| 0 <= i < x.len() && x[i] == c;
        assert((x + y)[i] == c);
    }
    if contains_char(y, c) {
        let i = choose|i: int| 0 <= i < y.len() && y[i] == c;
        assert((x + y)[x.len() + i] == c);
    }
    if contains_char(x + y, c) {
        let i = choose|i: int| 0 <= i < (x + y).len() && (x + y)[i] == c;
        if i < x.len() {
            assert(x[i] == c);
        } else {
            assert(y[i - x.len()] == c);
        }
    }
}

/// Does this token consist of the single character `c`?
pub fn is_kw1(t: &str, c: char) -> (b: bool)
    ensures
        b == (t@ == seq![c]),
{
    let n: usize = t.unicode_len();
    if n == 1 && t.get_char(0) == c {
        proof {
            assert(t@ =~= seq![c]);
        }
        true
    } else {
        proof {
            if t@ == seq![c] {
                assert(t@.len() == 1);
                assert(t@[0] == c);
            }
        }
        false
    }
}

/// Does this token consist of exactly the two characters `c0 c1`?
pub fn is_kw2(t: &str, c0: char, c1: char) -> (b: bool)
    ensures
        b == (t@ == seq![c0, c1]),
{
    let n: usize = t.unicode_len();
    if n == 2 && t.get_char(0) == c0 && t.get_char(1) == c1 {
        proof {
            assert(t@ =~= seq![c0, c1]);
        }
        true
    } else {
        proof {
            if t@ == seq![c0, c1] {
                assert(t@.len() == 2);
                assert(t@[0] == c0);
                assert(t@[1] == c1);
            }
        }
        false
    }
}

} // verus!
