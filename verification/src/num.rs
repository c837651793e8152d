//! Unsigned decimal numbers: reading an index token the way `u32::from_str`
//! does (optional leading `+`, decimal digits, overflow checked), and writing
//! a number back out, right-aligned in a column.
use vstd::prelude::*;
use vstd::string::StrSliceExecFns;
use vstd::string::StringExecFns;

verus! {

pub open spec fn is_digit(c: char) -> bool {
    0x30 <= (c as u32) && (c as u32) <= 0x39
}

pub open spec fn digit_val(c: char) -> int {
    (c as u32) - 0x30
}

pub fn digit(c: char) -> (b: bool)
    ensures
        b == is_digit(c),
{
    let u: u32 = c as u32;
    0x30 <= u && u <= 0x39
}

/// Why an index token was rejected; each case keeps the wording of the
/// standard library's integer parser.
#[derive(Clone, Copy, PartialEq, Eq, Structural, Debug)]
pub enum IntErrKind {
    Empty,
    InvalidDigit,
    Overflow,
}

pub open spec fn int_err_text(k: IntErrKind) -> Seq<char> {
    match k {
        IntErrKind::Empty => "Parse Int Error: cannot parse integer from empty string"@,
        IntErrKind::InvalidDigit => "Parse Int Error: invalid digit found in string"@,
        IntErrKind::Overflow => "Parse Int Error: number too large to fit in target type"@,
    }
}

pub fn int_err_string(k: IntErrKind) -> (r: String)
    ensures
        r@ == int_err_text(k),
{
    match k {
        IntErrKind::Empty => "Parse Int Error: cannot parse integer from empty string".to_owned(),
        IntErrKind::InvalidDigit => "Parse Int Error: invalid digit found in string".to_owned(),
        IntErrKind::Overflow => "Parse Int Error: number too large to fit in target type"
            .to_owned(),
    }
}

/// Digit-by-digit accumulation, left to right; a non-digit stops with
/// `InvalidDigit` before a later overflow could be seen, as the standard
/// parser does.
pub open spec fn u32_digits_val(s: Seq<char>, acc: int) -> Result<u32, IntErrKind>
    decreases s.len(),
{
    if s.len() == 0 {
        Ok(acc as u32)
    } else if !is_digit(s[0]) {
        Err(IntErrKind::InvalidDigit)
    } else if acc * 10 + digit_val(s[0]) > 0xffff_ffff {
        Err(IntErrKind::Overflow)
    } else {
        u32_digits_val(s.skip(1), acc * 10 + digit_val(s[0]))
    }
}

/// What `"…".parse::<u32>()` yields on this token: an optional leading `+`,
/// then decimal digits.
pub open spec fn u32_parse(s: Seq<char>) -> Result<u32, IntErrKind> {
    if s.len() == 0 {
        Err(IntErrKind::Empty)
    } else if s[0] == '+' {
        if s.len() == 1 {
            Err(IntErrKind::InvalidDigit)
        } else {
            u32_digits_val(s.skip(1), 0)
        }
    } else {
        u32_digits_val(s, 0)
    }
}

pub fn parse_u32(t: &str) -> (r: Result<u32, IntErrKind>)
    ensures
        r == u32_parse(t@),
{
    let n: usize = t.unicode_len();
    if n == 0 {
        return Err(IntErrKind::Empty);
    }
    let mut i: usize = 0;
    if t.get_char(0) == '+' {
        if n == 1 {
            return Err(IntErrKind::InvalidDigit);
        }
        i = 1;
    }
    let ghost digits = t@.skip(i as int);
    proof {
        assert(t@.skip(0) =~= t@);
    }
    let mut acc: u32 = 0;
    while i < n
        invariant
            n == t@.len(),
            0 <= i <= n,
            u32_parse(t@) == u32_digits_val(digits, 0),
            u32_digits_val(digits, 0) == u32_digits_val(t@.skip(i as int), acc as int),
        decreases n - i,
    {
        proof {
            assert(t@.skip(i as int).skip(1) =~= t@.skip(i + 1));
            assert(t@.skip(i as int)[0] == t@[i as int]);
        }
        let c = t.get_char(i);
        if !digit(c) {
            proof {
                assert(u32_digits_val(t@.skip(i as int), acc as int) == Err::<
                    u32,
                    IntErrKind,
                >(IntErrKind::InvalidDigit));
            }
            return Err(IntErrKind::InvalidDigit);
        }
        let d: u32 = (c as u32) - 0x30;
        let wide: u64 = (acc as u64) * 10 + (d as u64);
        if wide > 0xffff_ffff {
            proof {
                assert(digit_val(t@[i as int]) == d as int);
                assert(acc as int * 10 + digit_val(t@[i as int]) > 0xffff_ffff);
                assert(u32_digits_val(t@.skip(i as int), acc as int) == Err::<
                    u32,
                    IntErrKind,
                >(IntErrKind::Overflow));
            }
            return Err(IntErrKind::Overflow);
        }
        proof {
            assert(u32_digits_val(t@.skip(i as int), acc as int) == u32_digits_val(
                t@.skip(i + 1),
                acc as int * 10 + digit_val(t@[i as int]),
            ));
        }
        acc = wide as u32;
        i = i + 1;
    }
    proof {
        assert(t@.skip(n as int).len() == 0);
    }
    Ok(acc)
}

/// The decimal digits of `n`, most significant first.
pub open spec fn u32_dec(n: int) -> Seq<char>
    decreases n,
{
    if n < 0 {
        Seq::empty()
    } else if n < 10 {
        seq![dec_digit(n)]
    } else {
        u32_dec(n / 10).push(dec_digit(n % 10))
    }
}

pub open spec fn dec_digit(d: int) -> char {
    if d == 0 {
        '0'
    } else if d == 1 {
        '1'
    } else if d == 2 {
        '2'
    } else if d == 3 {
        '3'
    } else if d == 4 {
        '4'
    } else if d == 5 {
        '5'
    } else if d == 6 {
        '6'
    } else if d == 7 {
        '7'
    } else if d == 8 {
        '8'
    } else {
        '9'
    }
}

fn digit_str(d: u32) -> (r: &'static str)
    requires
        d < 10,
    ensures
        r@ == seq![dec_digit(d as int)],
{
    proof {
        reveal_strlit("0");
        reveal_strlit("1");
        reveal_strlit("2");
        reveal_strlit("3");
        reveal_strlit("4");
        reveal_strlit("5");
        reveal_strlit("6");
        reveal_strlit("7");
        reveal_strlit("8");
        reveal_strlit("9");
    }
    let r: &'static str = match d {
        0 => "0",
        1 => "1",
        2 => "2",
        3 => "3",
        4 => "4",
        5 => "5",
        6 => "6",
        7 => "7",
        8 => "8",
        _ => "9",
    };
    proof {
        assert(r@ =~= seq![dec_digit(d as int)]);
    }
    r
}

pub fn append_u32_dec(out: &mut String, n: u32)
    ensures
        final(out)@ == old(out)@ + u32_dec(n as int),
    decreases n,
{
    if n >= 10 {
        append_u32_dec(out, n / 10);
        out.append(digit_str(n % 10));
        proof {
            assert(out@ =~= old(out)@ + u32_dec(n as int));
        }
    } else {
        out.append(digit_str(n));
        proof {
            assert(out@ =~= old(out)@ + u32_dec(n as int));
        }
    }
}

pub open spec fn pow10(k: nat) -> int
    decreases k,
{
    if k == 0 {
        1
    } else {
        10 * pow10((k - 1) as nat)
    }
}

proof fn lemma_dec_len(n: int, k: nat)
    requires
        k >= 1,
        0 <= n < pow10(k),
    ensures
        u32_dec(n).len() <= k,
    decreases k,
{
    if n >= 10 {
        let m = pow10((k - 1) as nat);
        assert(pow10(k) == 10 * m);
        if k == 1 {
            assert(pow10(0nat) == 1);
            assert(false);
        }
        vstd::arithmetic::div_mod::lemma_fundamental_div_mod(n, 10);
        if n / 10 >= m {
            vstd::arithmetic::mul::lemma_mul_inequality(m, n / 10, 10);
            assert(false);
        }
        lemma_dec_len(n / 10, (k - 1) as nat);
    }
}

pub fn u32_dec_len(n: u32) -> (r: usize)
    ensures
        r == u32_dec(n as int).len(),
        1 <= r <= 10,
    decreases n,
{
    if n < 10 {
        1
    } else {
        proof {
            assert(n / 10 < n) by (nonlinear_arith)
                requires
                    n >= 10,
            ;
            assert(pow10(0nat) == 1);
            assert(pow10(1nat) == 10);
            assert(pow10(2nat) == 100);
            assert(pow10(3nat) == 1000);
            assert(pow10(4nat) == 10000);
            assert(pow10(5nat) == 100000);
            assert(pow10(6nat) == 1000000);
            assert(pow10(7nat) == 10000000);
            assert(pow10(8nat) == 100000000);
            assert(pow10(9nat) == 1000000000);
            assert(n as int / 10 < 1000000000);
            lemma_dec_len(n as int / 10, 9nat);
        }
        let rest = u32_dec_len(n / 10);
        1 + rest
    }
}

pub open spec fn spaces(n: int) -> Seq<char>
    decreases n,
{
    if n <= 0 {
        Seq::empty()
    } else {
        spaces(n - 1).push(' ')
    }
}

pub fn append_spaces(out: &mut String, n: usize)
    ensures
        final(out)@ == old(out)@ + spaces(n as int),
    decreases n,
{
    if n > 0 {
        append_spaces(out, n - 1);
        proof {
            reveal_strlit(" ");
        }
        out.append(" ");
        proof {
            assert(out@ =~= old(out)@ + spaces(n as int));
        }
    } else {
        proof {
            assert(out@ =~= old(out)@ + spaces(n as int));
        }
    }
}

/// Padding is whitespace and nothing else.
pub proof fn lemma_spaces_all_ws(n: int)
    ensures
        forall|j: int| 0 <= j < spaces(n).len() ==> spaces(n)[j] == ' ',
        spaces(n).len() == (if n <= 0 {
            0int
        } else {
            n
        }),
    decreases n,
{
    if n > 0 {
        lemma_spaces_all_ws(n - 1);
    }
}

/// `s`, right-aligned in a column of width `w`.
pub open spec fn pad_left(s: Seq<char>, w: int) -> Seq<char> {
    spaces(w - s.len()) + s
}

/// The number `n` as `{:6}` writes it: right-aligned in six columns.
pub open spec fn u32_col6(n: int) -> Seq<char> {
    pad_left(u32_dec(n), 6)
}

pub fn append_u32_col6(out: &mut String, n: u32)
    ensures
        final(out)@ == old(out)@ + u32_col6(n as int),
{
    let len = u32_dec_len(n);
    if len < 6 {
        append_spaces(out, 6 - len);
    } else {
        proof {
            assert(spaces(6 - u32_dec(n as int).len()) =~= Seq::<char>::empty());
        }
    }
    append_u32_dec(out, n);
    proof {
        assert(out@ =~= old(out)@ + u32_col6(n as int));
    }
}

} // verus!
