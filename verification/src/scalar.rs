//! Scalar tokens. A scalar field is kept as its decimal text; a token is
//! accepted exactly when it matches the grammar the standard library's float
//! parser documents: an optional sign, then `inf`, `infinity` or `nan` in any
//! case, or digits with an optional point and an optional exponent.
use crate::num::is_digit;
use vstd::prelude::*;
use vstd::string::StrSliceExecFns;

verus! {

/// Is `c` the letter `lower`, in either case? (`lower` is a lowercase ASCII
/// letter.)
pub open spec fn is_ci(c: char, lower: char) -> bool {
    c == lower || (c as u32) + 0x20 == (lower as u32)
}

fn ci(c: char, lower: char) -> (b: bool)
    ensures
        b == is_ci(c, lower),
{
    let cu: u32 = c as u32;
    let lu: u32 = lower as u32;
    cu == lu || cu + 0x20 == lu
}

/// How many digits stand at the front of `s`.
pub open spec fn digit_prefix_len(s: Seq<char>) -> int
    decreases s.len(),
{
    if s.len() == 0 || !is_digit(s[0]) {
        0
    } else {
        1 + digit_prefix_len(s.skip(1))
    }
}

pub open spec fn all_digits(s: Seq<char>) -> bool {
    digit_prefix_len(s) == s.len()
}

pub open spec fn strip_sign(s: Seq<char>) -> Seq<char> {
    if s.len() >= 1 && (s[0] == '+' || s[0] == '-') {
        s.skip(1)
    } else {
        s
    }
}

/// `inf`, `infinity` or `nan`, in any mixture of case.
pub open spec fn is_special_word(s: Seq<char>) -> bool {
    (s.len() == 3 && is_ci(s[0], 'i') && is_ci(s[1], 'n') && is_ci(s[2], 'f')) || (s.len() == 8
        && is_ci(s[0], 'i') && is_ci(s[1], 'n') && is_ci(s[2], 'f') && is_ci(s[3], 'i') && is_ci(
        s[4],
        'n',
    ) && is_ci(s[5], 'i') && is_ci(s[6], 't') && is_ci(s[7], 'y')) || (s.len() == 3 && is_ci(
        s[0],
        'n',
    ) && is_ci(s[1], 'a') && is_ci(s[2], 'n'))
}

/// An exponent part: `e` or `E`, an optional sign, and at least one digit.
pub open spec fn is_exp_part(s: Seq<char>) -> bool {
    s.len() >= 1 && (s[0] == 'e' || s[0] == 'E') && {
        let b = strip_sign(s.skip(1));
        b.len() > 0 && all_digits(b)
    }
}

/// A number after the sign: digits, an optional point with more digits (at
/// least one digit on one side of the point), and an optional exponent.
pub open spec fn is_number(s: Seq<char>) -> bool {
    let d1 = digit_prefix_len(s);
    let r1 = s.skip(d1);
    if r1.len() == 0 {
        d1 > 0
    } else if r1[0] == '.' {
        let t = r1.skip(1);
        let d2 = digit_prefix_len(t);
        let r2 = t.skip(d2);
        (d1 > 0 || d2 > 0) && (r2.len() == 0 || is_exp_part(r2))
    } else {
        d1 > 0 && is_exp_part(r1)
    }
}

/// Does this token name a scalar?
pub open spec fn is_float_token(s: Seq<char>) -> bool {
    let b = strip_sign(s);
    b.len() > 0 && (is_special_word(b) || is_number(b))
}

/// The message every rejected scalar token reports, in the standard parser's
/// wording.
pub open spec fn float_err_text() -> Seq<char> {
    "Parse Float Error: invalid float literal"@
}

pub fn float_err_string() -> (r: String)
    ensures
        r@ == float_err_text(),
{
    "Parse Float Error: invalid float literal".to_owned()
}

proof fn lemma_skip_one(s: Seq<char>, i: int)
    requires
        0 <= i < s.len(),
    ensures
        s.skip(i).skip(1) == s.skip(i + 1),
        s.skip(i)[0] == s[i],
        s.skip(i).len() == s.len() - i,
{
    assert(s.skip(i).skip(1) =~= s.skip(i + 1));
}

/// The position right after the digit run that starts at `i`.
fn digit_run_end(s: &str, i: usize, n: usize) -> (j: usize)
    requires
        n == s@.len(),
        i <= n,
    ensures
        i <= j <= n,
        j - i == digit_prefix_len(s@.skip(i as int)),
{
    let mut j: usize = i;
    while j < n
        invariant
            n == s@.len(),
            i <= j <= n,
            digit_prefix_len(s@.skip(i as int)) == (j - i) + digit_prefix_len(s@.skip(j as int)),
        decreases n - j,
    {
        proof {
            lemma_skip_one(s@, j as int);
        }
        if !crate::num::digit(s.get_char(j)) {
            proof {
                assert(digit_prefix_len(s@.skip(j as int)) == 0);
            }
            return j;
        }
        j = j + 1;
    }
    proof {
        assert(s@.skip(n as int).len() == 0);
        assert(digit_prefix_len(s@.skip(n as int)) == 0);
    }
    j
}

/// Is the suffix of `s` that starts at `i` an exponent part?
fn exp_part_from(s: &str, i: usize, n: usize) -> (b: bool)
    requires
        n == s@.len(),
        i <= n,
    ensures
        b == is_exp_part(s@.skip(i as int)),
{
    let ghost suf = s@.skip(i as int);
    if i == n {
        return false;
    }
    proof {
        lemma_skip_one(s@, i as int);
    }
    let c0 = s.get_char(i);
    if !(c0 == 'e' || c0 == 'E') {
        return false;
    }
    let mut k: usize = i + 1;
    proof {
        assert(suf.skip(1) == s@.skip(i + 1));
    }
    if k < n {
        let cs = s.get_char(k);
        if cs == '+' || cs == '-' {
            proof {
                lemma_skip_one(s@, k as int);
                assert(strip_sign(s@.skip(k as int)) == s@.skip(k as int + 1));
            }
            k = k + 1;
        } else {
            proof {
                assert(s@.skip(k as int)[0] == s@[k as int]);
                assert(strip_sign(s@.skip(k as int)) == s@.skip(k as int));
            }
        }
    } else {
        proof {
            assert(s@.skip(k as int).len() == 0);
            assert(strip_sign(s@.skip(k as int)) == s@.skip(k as int));
        }
    }
    let ghost b = strip_sign(suf.skip(1));
    proof {
        assert(b == s@.skip(k as int));
    }
    let j = digit_run_end(s, k, n);
    if k < n && j == n {
        proof {
            assert(b.len() > 0 && all_digits(b));
        }
        true
    } else {
        proof {
            if b.len() > 0 && all_digits(b) {
                assert(digit_prefix_len(s@.skip(k as int)) == n - k);
                assert(j == n && k < n);
            }
        }
        false
    }
}

/// Accept or reject one scalar token.
pub fn check_float_token(t: &str) -> (b: bool)
    ensures
        b == is_float_token(t@),
{
    let n: usize = t.unicode_len();
    if n == 0 {
        return false;
    }
    let c0 = t.get_char(0);
    let start: usize = if c0 == '+' || c0 == '-' {
        1
    } else {
        0
    };
    let ghost body = strip_sign(t@);
    proof {
        if start == 1 {
            assert(body == t@.skip(1));
        } else {
            assert(t@.skip(0) =~= t@);
            assert(body == t@.skip(0));
        }
    }
    if start == n {
        proof {
            assert(body.len() == 0);
        }
        return false;
    }
    proof {
        assert(body == t@.skip(start as int));
        assert(body.len() == n - start);
    }
    // the special words
    if n - start == 3 {
        let a0 = t.get_char(start);
        let a1 = t.get_char(start + 1);
        let a2 = t.get_char(start + 2);
        proof {
            assert(body[0] == t@[start as int]);
            assert(body[1] == t@[start as int + 1]);
            assert(body[2] == t@[start as int + 2]);
        }
        if (ci(a0, 'i') && ci(a1, 'n') && ci(a2, 'f')) || (ci(a0, 'n') && ci(a1, 'a') && ci(
            a2,
            'n',
        )) {
            return true;
        }
    }
    if n - start == 8 {
        let a0 = t.get_char(start);
        let a1 = t.get_char(start + 1);
        let a2 = t.get_char(start + 2);
        let a3 = t.get_char(start + 3);
        let a4 = t.get_char(start + 4);
        let a5 = t.get_char(start + 5);
        let a6 = t.get_char(start + 6);
        let a7 = t.get_char(start + 7);
        proof {
            assert forall|k: int| 0 <= k < 8 implies body[k] == t@[start + k] by {}
        }
        if ci(a0, 'i') && ci(a1, 'n') && ci(a2, 'f') && ci(a3, 'i') && ci(a4, 'n') && ci(a5, 'i')
            && ci(a6, 't') && ci(a7, 'y') {
            return true;
        }
    }
    // a number
    let ghost d1 = digit_prefix_len(body);
    let ghost r1 = body.skip(d1);
    let p1 = digit_run_end(t, start, n);
    proof {
        assert(r1 =~= t@.skip(p1 as int));
    }
    if p1 == n {
        proof {
            assert(r1.len() == 0);
        }
        return p1 > start;
    }
    proof {
        lemma_skip_one(t@, p1 as int);
    }
    if t.get_char(p1) == '.' {
        let ghost tt = r1.skip(1);
        let ghost d2 = digit_prefix_len(tt);
        let ghost r2 = tt.skip(d2);
        proof {
            assert(tt == t@.skip(p1 as int + 1));
        }
        let p2 = digit_run_end(t, p1 + 1, n);
        proof {
            assert(r2 =~= t@.skip(p2 as int));
        }
        if !(p1 > start || p2 > p1 + 1) {
            return false;
        }
        if p2 == n {
            proof {
                assert(r2.len() == 0);
            }
            return true;
        }
        let e = exp_part_from(t, p2, n);
        proof {
            assert(r2.len() > 0);
        }
        e
    } else {
        if p1 == start {
            return false;
        }
        let e = exp_part_from(t, p1, n);
        proof {
            assert(r1.len() > 0 && r1[0] != '.');
        }
        e
    }
}

/// The characters a scalar token can be made of: digits, signs, the point,
/// the exponent letter, and the letters of the special words, either case.
pub open spec fn scalar_char(c: char) -> bool {
    is_digit(c) || c == '+' || c == '-' || c == '.' || is_ci(c, 'e') || is_ci(c, 'i') || is_ci(
        c,
        'n',
    ) || is_ci(c, 'f') || is_ci(c, 't') || is_ci(c, 'y') || is_ci(c, 'a')
}

pub open spec fn all_scalar_chars(s: Seq<char>) -> bool {
    forall|j: int| 0 <= j < s.len() ==> scalar_char(#[trigger] s[j])
}

/// A scalar character is not whitespace, not the comment character, not a
/// line break, not a slash, and not the letter of the object marker.
pub proof fn lemma_scalar_char_tame(c: char)
    requires
        scalar_char(c),
    ensures
        !crate::text::is_ws_char(c),
        c != '#',
        c != '\n',
        c != '/',
        c != 'o',
{
}

proof fn lemma_digit_prefix(s: Seq<char>)
    ensures
        0 <= digit_prefix_len(s) <= s.len(),
        forall|j: int| 0 <= j < digit_prefix_len(s) ==> is_digit(#[trigger] s[j]),
    decreases s.len(),
{
    if s.len() > 0 && is_digit(s[0]) {
        lemma_digit_prefix(s.skip(1));
        assert forall|j: int| 0 <= j < digit_prefix_len(s) implies is_digit(#[trigger] s[j]) by {
            if j > 0 {
                assert(s.skip(1)[j - 1] == s[j]);
            }
        }
    }
}

proof fn lemma_exp_chars(s: Seq<char>)
    requires
        is_exp_part(s),
    ensures
        all_scalar_chars(s),
{
    let t = s.skip(1);
    let b = strip_sign(t);
    lemma_digit_prefix(b);
    assert forall|j: int| 0 <= j < s.len() implies scalar_char(#[trigger] s[j]) by {
        if j > 0 {
            assert(t[j - 1] == s[j]);
            if t.len() >= 1 && (t[0] == '+' || t[0] == '-') {
                if j > 1 {
                    assert(b[j - 2] == t[j - 1]);
                    assert(is_digit(b[j - 2]));
                }
            } else {
                assert(b == t);
                assert(is_digit(b[j - 1]));
            }
        }
    }
}

proof fn lemma_number_chars(s: Seq<char>)
    requires
        is_number(s),
    ensures
        all_scalar_chars(s),
{
    let d1 = digit_prefix_len(s);
    lemma_digit_prefix(s);
    let r1 = s.skip(d1);
    if r1.len() == 0 {
    } else if r1[0] == '.' {
        let t = r1.skip(1);
        let d2 = digit_prefix_len(t);
        lemma_digit_prefix(t);
        let r2 = t.skip(d2);
        if r2.len() > 0 {
            lemma_exp_chars(r2);
        }
        assert forall|j: int| 0 <= j < s.len() implies scalar_char(#[trigger] s[j]) by {
            if j < d1 {
            } else if j == d1 {
                assert(r1[0] == s[j]);
            } else if j <= d1 + d2 {
                assert(t[j - d1 - 1] == s[j]);
                assert(is_digit(t[j - d1 - 1]));
            } else {
                assert(t[j - d1 - 1] == s[j]);
                assert(r2[j - d1 - 1 - d2] == t[j - d1 - 1]);
            }
        }
    } else {
        lemma_exp_chars(r1);
        assert forall|j: int| 0 <= j < s.len() implies scalar_char(#[trigger] s[j]) by {
            if j >= d1 {
                assert(r1[j - d1] == s[j]);
            }
        }
    }
}

/// Every character of a valid scalar token is a scalar character; in
/// particular a stored scalar holds no whitespace, no comment character and
/// no object marker, so writing it back cannot change how a line splits.
pub proof fn lemma_float_token_chars(t: Seq<char>)
    requires
        is_float_token(t),
    ensures
        all_scalar_chars(t),
        t.len() > 0,
{
    let b = strip_sign(t);
    if is_special_word(b) {
    } else {
        lemma_number_chars(b);
    }
    assert forall|j: int| 0 <= j < t.len() implies scalar_char(#[trigger] t[j]) by {
        if t.len() >= 1 && (t[0] == '+' || t[0] == '-') {
            if j > 0 {
                assert(b[j - 1] == t[j]);
            }
        } else {
            assert(b == t);
            assert(b[j] == t[j]);
        }
    }
}

/// Are all of `ts[i..]` scalar tokens?
pub open spec fn all_floats_from(ts: Seq<Seq<char>>, i: int) -> bool {
    forall|j: int| i <= j < ts.len() ==> is_float_token(#[trigger] ts[j])
}

/// Check every token from position `i` on.
pub fn check_floats_from(ts: &Vec<&str>, i: usize) -> (b: bool)
    requires
        i <= ts.len(),
    ensures
        b == all_floats_from(crate::text::views_of(ts@), i as int),
{
    let n = ts.len();
    let mut j: usize = i;
    while j < n
        invariant
            i <= j <= n,
            n == ts.len(),
            forall|k: int|
                i <= k < j ==> is_float_token(#[trigger] crate::text::views_of(ts@)[k]),
        decreases n - j,
    {
        let ok = check_float_token(ts[j]);
        proof {
            assert(crate::text::views_of(ts@)[j as int] == ts@[j as int]@);
        }
        if !ok {
            return false;
        }
        j = j + 1;
    }
    true
}

} // verus!
