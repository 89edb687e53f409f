//! The reader's token layer: splitting source text into tokens,
//! checking delimiter balance, classifying atoms, and re-reading
//! multi-token strings and quotations.  A token stream is kept as a
//! reversed `Vec<String>` so that `pop` yields the next token.

use vstd::prelude::*;

use crate::errors::MachineError;
use crate::representation::Object;
use crate::tpfordev::{Exp, Pair};

use vstd::std_specs::vec::spec_vec_len;

verus! {

/// The views of a token vector, token by token.
pub open spec fn views_of(ts: Seq<String>) -> Seq<Seq<char>> {
    ts.map_values(|t: String| t@)
}

/// The whitespace that separates tokens.
pub open spec fn spec_is_whitespace(c: char) -> bool {
    c == ' ' || c == '\t' || c == '\n' || c == '\r'
}

/// A delimiter, which always forms a token of its own.
pub open spec fn spec_is_paren(c: char) -> bool {
    c == '(' || c == ')'
}

/// The token stream of `s` from position `i` on, with `cur` the
/// partial token read so far: delimiters are single-character tokens,
/// whitespace separates, everything else accumulates.
pub open spec fn spec_tokens_from(s: Seq<char>, i: int, cur: Seq<char>) -> Seq<Seq<char>>
    decreases s.len() - i,
{
    let flushed: Seq<Seq<char>> = if cur.len() > 0 {
        seq![cur]
    } else {
        Seq::empty()
    };
    if i < 0 || i >= s.len() {
        flushed
    } else if spec_is_whitespace(s[i]) {
        flushed.add(spec_tokens_from(s, i + 1, Seq::empty()))
    } else if spec_is_paren(s[i]) {
        flushed.add(seq![seq![s[i]]].add(spec_tokens_from(s, i + 1, Seq::empty())))
    } else {
        spec_tokens_from(s, i + 1, cur.push(s[i]))
    }
}

/// The token stream of a whole text.
pub open spec fn spec_tokens(s: Seq<char>) -> Seq<Seq<char>> {
    spec_tokens_from(s, 0, Seq::empty())
}

/// Whether `c` separates tokens.
pub fn is_whitespace_char(c: char) -> (r: bool)
    ensures
        r == spec_is_whitespace(c),
{
    c == ' ' || c == '\t' || c == '\n' || c == '\r'
}

/// Whether `c` is a delimiter.
pub fn is_paren_char(c: char) -> (r: bool)
    ensures
        r == spec_is_paren(c),
{
    c == '(' || c == ')'
}

/// Whether a string's view equals a literal's view.
pub fn str_is(s: &String, w: &str) -> (r: bool)
    ensures
        r == (s@ == w@),
{
    let t = String::from_str(w);
    *s == t
}

/// Splits source text into tokens: delimiters stand alone, whitespace
/// separates, every other maximal run is one token.
pub fn tokenizer(s: String) -> (r: Vec<String>)
    ensures
        views_of(r@) == spec_tokens(s@),
{
    let text = s.as_str();
    let n = text.unicode_len();
    let mut tokens: Vec<String> = Vec::new();
    let mut i: usize = 0;
    let mut start: usize = 0;
    proof {
        assert(views_of(tokens@) =~= Seq::<Seq<char>>::empty());
        assert(s@.subrange(0, 0) =~= Seq::<char>::empty());
        assert(spec_tokens(s@) =~= views_of(tokens@).add(
            spec_tokens_from(s@, 0, s@.subrange(0, 0)),
        ));
    }
    while i < n
        invariant
            0 <= start <= i <= n,
            n == text@.len(),
            text@ == s@,
            spec_tokens(s@) == views_of(tokens@).add(
                spec_tokens_from(s@, i as int, s@.subrange(start as int, i as int)),
            ),
        decreases n - i,
    {
        let c = text.get_char(i);
        let ghost cur = s@.subrange(start as int, i as int);
        let ghost done = views_of(tokens@);
        if is_whitespace_char(c) || is_paren_char(c) {
            if start < i {
                let tok = text.substring_char(start, i);
                tokens.push(tok.to_owned());
                proof {
                    assert(tokens@.drop_last() =~= tokens@.subrange(0, tokens@.len() - 1));
                    assert(views_of(tokens@) =~= done.push(cur));
                }
            } else {
                proof {
                    assert(cur =~= Seq::<char>::empty());
                }
            }
            let ghost done2 = views_of(tokens@);
            proof {
                if cur.len() > 0 {
                    assert(done2 =~= done.push(cur));
                } else {
                    assert(done2 =~= done);
                }
            }
            if is_paren_char(c) {
                let tok = text.substring_char(i, i + 1);
                tokens.push(tok.to_owned());
                proof {
                    assert(tok@ =~= seq![s@[i as int]]);
                    assert(views_of(tokens@) =~= done2.push(seq![s@[i as int]]));
                }
            }
            i = i + 1;
            start = i;
            proof {
                let ghost flushed: Seq<Seq<char>> = if cur.len() > 0 {
                    seq![cur]
                } else {
                    Seq::empty()
                };
                assert(s@.subrange(start as int, i as int) =~= Seq::<char>::empty());
                if spec_is_paren(s@[i - 1]) {
                    assert(spec_tokens_from(s@, i - 1, cur) =~= flushed.add(
                        seq![seq![s@[i - 1]]].add(
                            spec_tokens_from(s@, i as int, Seq::<char>::empty()),
                        ),
                    ));
                    assert(views_of(tokens@).add(
                        spec_tokens_from(s@, i as int, s@.subrange(start as int, i as int)),
                    ) =~= done.add(spec_tokens_from(s@, i - 1, cur)));
                } else {
                    assert(spec_tokens_from(s@, i - 1, cur) =~= flushed.add(
                        spec_tokens_from(s@, i as int, Seq::<char>::empty()),
                    ));
                    assert(views_of(tokens@).add(
                        spec_tokens_from(s@, i as int, s@.subrange(start as int, i as int)),
                    ) =~= done.add(spec_tokens_from(s@, i - 1, cur)));
                }
            }
        } else {
            i = i + 1;
            proof {
                assert(s@.subrange(start as int, i as int) =~= cur.push(s@[i - 1]));
            }
        }
    }
    let ghost done = views_of(tokens@);
    let ghost cur = s@.subrange(start as int, n as int);
    if start < n {
        let tok = text.substring_char(start, n);
        tokens.push(tok.to_owned());
        proof {
            assert(views_of(tokens@) =~= done.push(cur));
            assert(spec_tokens_from(s@, n as int, cur) =~= seq![cur]);
            assert(views_of(tokens@) =~= done.add(spec_tokens_from(s@, n as int, cur)));
        }
    } else {
        proof {
            assert(cur =~= Seq::<char>::empty());
            assert(spec_tokens_from(s@, n as int, cur) =~= Seq::<Seq<char>>::empty());
            assert(views_of(tokens@) =~= done.add(spec_tokens_from(s@, n as int, cur)));
        }
    }
    tokens
}

/// Empties `s` into a new vector, last token first, turning a token
/// list into a pop-ready stream (and back).
pub fn reverse(s: &mut Vec<String>) -> (r: Vec<String>)
    ensures
        r@ == old(s)@.reverse(),
        final (s)@.len() == 0,
{
    let ghost orig = old(s)@;
    let ghost n = orig.len() as int;
    let mut x: Vec<String> = Vec::new();
    while s.len() > 0
        invariant
            n == orig.len(),
            x@.len() + s@.len() == n,
            s@ == orig.take(s@.len() as int),
            forall|j: int| 0 <= j < x@.len() ==> x@[j] == orig[n - 1 - j],
        decreases s.len(),
    {
        let ghost sv = s@;
        match s.pop() {
            Some(token) => {
                proof {
                    assert(sv == orig.take(sv.len() as int));
                    assert(token == sv[sv.len() - 1]);
                    assert(token == orig[sv.len() - 1]);
                    assert(s@ =~= orig.take(s@.len() as int));
                }
                x.push(token);
            },
            None => {},
        }
    }
    proof {
        assert(x@ =~= orig.reverse());
    }
    x
}

/// How many tokens of `ts` equal `w`.
pub open spec fn count_token(ts: Seq<Seq<char>>, w: Seq<char>) -> int
    decreases ts.len(),
{
    if ts.len() == 0 {
        0
    } else {
        (if ts.last() == w {
            1int
        } else {
            0int
        }) + count_token(ts.drop_last(), w)
    }
}

/// Whether the token stream balances: as many `(` tokens as `)`
/// tokens.  (Balance by count only, as the reader requires.)
pub fn syntax_checker(t: &Vec<String>) -> (r: bool)
    ensures
        r == (count_token(views_of(t@), seq!['(']) == count_token(views_of(t@), seq![')'])),
{
    let mut left_parenthesis: usize = 0;
    let mut right_parenthesis: usize = 0;
    let mut k: usize = 0;
    proof {
        reveal_strlit("(");
        reveal_strlit(")");
        assert("("@ =~= seq!['(']);
        assert(")"@ =~= seq![')']);
        assert(views_of(t@.take(0)) =~= Seq::<Seq<char>>::empty());
    }
    while k < t.len()
        invariant
            0 <= k <= t@.len(),
            left_parenthesis <= k,
            right_parenthesis <= k,
            "("@ == seq!['('],
            ")"@ == seq![')'],
            left_parenthesis == count_token(views_of(t@.take(k as int)), seq!['(']),
            right_parenthesis == count_token(views_of(t@.take(k as int)), seq![')']),
        decreases t.len() - k,
    {
        let ghost prefix = views_of(t@.take(k as int));
        let token = &t[k];
        if str_is(token, "(") {
            left_parenthesis = left_parenthesis + 1;
        } else if str_is(token, ")") {
            right_parenthesis = right_parenthesis + 1;
        }
        k = k + 1;
        proof {
            let now = views_of(t@.take(k as int));
            assert(now.len() == k);
            assert(now.drop_last() =~= prefix);
            assert(t@.take(k as int)[k - 1] == t@[k - 1]);
            assert(now.last() == t@[k - 1]@);
            assert(token@ == now.last());
            assert(seq!['('][0] == '(' && seq![')'][0] == ')');
            assert(seq!['('] != seq![')']);
            assert(count_token(now, seq!['(']) == (if now.last() == seq!['('] {
                1int
            } else {
                0int
            }) + count_token(prefix, seq!['(']));
            assert(count_token(now, seq![')']) == (if now.last() == seq![')'] {
                1int
            } else {
                0int
            }) + count_token(prefix, seq![')']));
            assert(left_parenthesis == count_token(now, seq!['(']));
            assert(right_parenthesis == count_token(now, seq![')']));
        }
    }
    proof {
        assert(t@.take(t@.len() as int) =~= t@);
    }
    left_parenthesis == right_parenthesis
}

/// An ASCII letter.
pub open spec fn spec_is_alpha(c: char) -> bool {
    (97 <= c as u32 && c as u32 <= 122) || (65 <= c as u32 && c as u32 <= 90)
}

/// An operator character that forms a one-character symbol.
pub open spec fn spec_is_op_char(c: char) -> bool {
    c == '=' || c == '+' || c == '-' || c == '*' || c == '/' || c == '>' || c == '<'
}

/// A symbol token: it starts with a letter, or is a one-character
/// operator.
pub open spec fn spec_is_symbol(s: Seq<char>) -> bool {
    s.len() > 0 && (spec_is_alpha(s[0]) || (s.len() == 1 && spec_is_op_char(s[0])))
}

/// Whether a non-empty token reads as a symbol.
pub fn is_symbol(x: &String) -> (r: bool)
    requires
        x@.len() > 0,
    ensures
        r == spec_is_symbol(x@),
{
    let c = x.as_str().get_char(0);
    let u = c as u32;
    if (97 <= u && u <= 122) || (65 <= u && u <= 90) {
        true
    } else {
        x.as_str().unicode_len() == 1 && (c == '=' || c == '+' || c == '-' || c == '*' || c == '/'
            || c == '>' || c == '<')
    }
}

/// A decimal digit.
pub open spec fn spec_is_digit(c: char) -> bool {
    48 <= c as u32 && c as u32 <= 57
}

/// The value of a digit string, most significant first.
pub open spec fn digits_val(s: Seq<char>) -> int
    decreases s.len(),
{
    if s.len() == 0 {
        0
    } else {
        digits_val(s.drop_last()) * 10 + (s.last() as u32 - 48)
    }
}

/// Every character of `s` is a digit.
pub open spec fn all_digits(s: Seq<char>) -> bool {
    forall|j: int| 0 <= j < s.len() ==> spec_is_digit(#[trigger] s[j])
}

/// The digit part of a signed number token: everything after one
/// optional leading sign.
pub open spec fn spec_number_body(s: Seq<char>) -> Seq<char> {
    if s.len() > 0 && (s[0] == '+' || s[0] == '-') {
        s.skip(1)
    } else {
        s
    }
}

/// Whether the token is negative: a leading minus sign.
pub open spec fn spec_is_negative(s: Seq<char>) -> bool {
    s.len() > 0 && s[0] == '-'
}

/// A token that reads as an `i32`: an optional sign, then one or more
/// digits, with the value inside the `i32` range.
pub open spec fn spec_is_i32(s: Seq<char>) -> bool {
    let body = spec_number_body(s);
    body.len() > 0 && all_digits(body) && (if spec_is_negative(s) {
        digits_val(body) <= 0x8000_0000
    } else {
        digits_val(body) <= 0x7FFF_FFFF
    })
}

/// The value such a token denotes.
pub open spec fn spec_i32_value(s: Seq<char>) -> int {
    if spec_is_negative(s) {
        -digits_val(spec_number_body(s))
    } else {
        digits_val(spec_number_body(s))
    }
}

/// A digit string's value never shrinks when a digit is appended.
proof fn lemma_digits_val_nonneg(s: Seq<char>)
    requires
        all_digits(s),
    ensures
        digits_val(s) >= 0,
    decreases s.len(),
{
    if s.len() > 0 {
        assert(all_digits(s.drop_last())) by {
            assert(forall|j: int|
                0 <= j < s.len() - 1 ==> #[trigger] s.drop_last()[j] == s[j]);
        }
        lemma_digits_val_nonneg(s.drop_last());
    }
}

/// Scans `t` from position `from` for digits: `None` when the rest is
/// empty or holds a non-digit; otherwise the digits' value, saturated
/// to `0x1_0000_0000` when it exceeds `u32`.
fn scan_digits(t: &str, from: usize) -> (r: Option<u64>)
    requires
        from <= t@.len(),
    ensures
        match r {
            Some(v) => {
                let body = t@.skip(from as int);
                &&& body.len() > 0
                &&& all_digits(body)
                &&& v <= 0x1_0000_0000
                &&& (v <= 0xFFFF_FFFF ==> v == digits_val(body))
                &&& (v == 0x1_0000_0000 ==> digits_val(body) > 0xFFFF_FFFF)
            },
            None => {
                let body = t@.skip(from as int);
                body.len() == 0 || !all_digits(body)
            },
        },
{
    let n = t.unicode_len();
    if from >= n {
        return None;
    }
    let mut acc: u64 = 0;
    let mut j: usize = from;
    while j < n
        invariant
            from <= j <= n,
            n == t@.len(),
            all_digits(t@.subrange(from as int, j as int)),
            acc <= 0x1_0000_0000,
            acc <= 0xFFFF_FFFF ==> acc == digits_val(t@.subrange(from as int, j as int)),
            acc == 0x1_0000_0000 ==> digits_val(t@.subrange(from as int, j as int))
                > 0xFFFF_FFFF,
        decreases n - j,
    {
        let ghost pre = t@.subrange(from as int, j as int);
        let c = t.get_char(j);
        let u = c as u32;
        if !(48 <= u && u <= 57) {
            proof {
                assert(t@.skip(from as int)[j - from] == t@[j as int]);
            }
            return None;
        }
        let d = (u - 48) as u64;
        proof {
            assert(t@.subrange(from as int, j + 1) =~= pre.push(t@[j as int]));
            assert(t@.subrange(from as int, j + 1).drop_last() =~= pre);
            lemma_digits_val_nonneg(pre);
        }
        if acc > 0xFFFF_FFFF {
            // already saturated; the value only grows
        } else {
            let na = acc * 10 + d;
            if na > 0xFFFF_FFFF {
                proof {
                    assert(digits_val(t@.subrange(from as int, j + 1)) == digits_val(pre) * 10 + (
                    t@[j as int] as u32 - 48));
                }
                acc = 0x1_0000_0000;
            } else {
                acc = na;
            }
        }
        j = j + 1;
    }
    proof {
        assert(t@.subrange(from as int, n as int) =~= t@.skip(from as int));
    }
    Some(acc)
}

/// Parses an `i32` token; `None` when `t` is not such a token.
pub fn try_parse_i32(t: &str) -> (r: Option<i32>)
    ensures
        match r {
            Some(v) => spec_is_i32(t@) && v as int == spec_i32_value(t@),
            None => !spec_is_i32(t@),
        },
{
    let n = t.unicode_len();
    if n == 0 {
        return None;
    }
    let c0 = t.get_char(0);
    let signed = c0 == '+' || c0 == '-';
    let neg = c0 == '-';
    let from: usize = if signed {
        1
    } else {
        0
    };
    proof {
        if signed {
            assert(spec_number_body(t@) =~= t@.skip(1));
        } else {
            assert(spec_number_body(t@) =~= t@.skip(0));
            assert(t@.skip(0) =~= t@);
        }
    }
    match scan_digits(t, from) {
        None => None,
        Some(v) => {
            if neg {
                if v <= 0x8000_0000 {
                    proof {
                        lemma_digits_val_nonneg(t@.skip(from as int));
                    }
                    Some((-(v as i64)) as i32)
                } else {
                    None
                }
            } else {
                if v <= 0x7FFF_FFFF {
                    Some(v as i32)
                } else {
                    None
                }
            }
        },
    }
}

/// Whether a token reads as an `i32`.
pub fn is_i32(x: String) -> (r: bool)
    ensures
        r == spec_is_i32(x@),
{
    try_parse_i32(x.as_str()).is_some()
}

/// A character that begins an exponent part.
pub open spec fn spec_is_exp_char(c: char) -> bool {
    c == 'e' || c == 'E'
}

/// A float's mantissa: digits with at most one decimal point and at
/// least one digit.
pub open spec fn spec_is_mantissa(m: Seq<char>) -> bool {
    &&& forall|j: int| 0 <= j < m.len() ==> spec_is_digit(#[trigger] m[j]) || m[j] == '.'
    &&& exists|j: int| 0 <= j < m.len() && spec_is_digit(#[trigger] m[j])
    &&& forall|j1: int, j2: int|
        0 <= j1 < m.len() && 0 <= j2 < m.len() && #[trigger] m[j1] == '.' && #[trigger] m[j2]
            == '.' ==> j1 == j2
}

/// A float's exponent: an optional sign, then one or more digits.
pub open spec fn spec_is_exponent(e: Seq<char>) -> bool {
    let body = spec_number_body(e);
    body.len() > 0 && all_digits(body)
}

/// The first position of an exponent character at or after `i`, or
/// the length when there is none.
pub open spec fn first_exp_idx(b: Seq<char>, i: int) -> int
    decreases b.len() - i,
{
    if i < 0 || i >= b.len() {
        b.len() as int
    } else if spec_is_exp_char(b[i]) {
        i
    } else {
        first_exp_idx(b, i + 1)
    }
}

/// A float token after its optional sign: a mantissa, optionally
/// followed by an exponent marker and an exponent.
pub open spec fn spec_is_float_body(b: Seq<char>) -> bool {
    let k = first_exp_idx(b, 0);
    if k == b.len() {
        spec_is_mantissa(b)
    } else {
        spec_is_mantissa(b.take(k)) && spec_is_exponent(b.skip(k + 1))
    }
}

/// A token that reads as a decimal floating-point literal: an
/// optional sign, a mantissa and an optional exponent.
pub open spec fn spec_is_f32(s: Seq<char>) -> bool {
    spec_is_float_body(spec_number_body(s))
}

/// The position bound of `first_exp_idx` and its defining properties.
proof fn lemma_first_exp_idx(b: Seq<char>, i: int)
    requires
        0 <= i <= b.len(),
    ensures
        i <= first_exp_idx(b, i) <= b.len(),
        first_exp_idx(b, i) < b.len() ==> spec_is_exp_char(b[first_exp_idx(b, i)]),
        forall|j: int| i <= j < first_exp_idx(b, i) ==> !spec_is_exp_char(#[trigger] b[j]),
    decreases b.len() - i,
{
    if i < b.len() && !spec_is_exp_char(b[i]) {
        lemma_first_exp_idx(b, i + 1);
    }
}

/// Checks a mantissa: characters `from..to` of `t` must be digits or
/// a single decimal point, with at least one digit.
fn check_mantissa(t: &str, from: usize, to: usize) -> (r: bool)
    requires
        from <= to <= t@.len(),
    ensures
        r == spec_is_mantissa(t@.subrange(from as int, to as int)),
{
    let ghost m = t@.subrange(from as int, to as int);
    let mut j: usize = from;
    let mut dots: usize = 0;
    let mut seen_digit = false;
    while j < to
        invariant
            from <= j <= to <= t@.len(),
            m == t@.subrange(from as int, to as int),
            forall|q: int|
                0 <= q < j - from ==> spec_is_digit(#[trigger] m[q]) || m[q] == '.',
            seen_digit == exists|q: int| 0 <= q < j - from && spec_is_digit(#[trigger] m[q]),
            dots <= j,
            (dots == 0 ==> forall|q: int| 0 <= q < j - from ==> m[q] != '.'),
            (dots == 1 ==> exists|q: int|
                0 <= q < j - from && m[q] == '.' && forall|q2: int|
                    0 <= q2 < j - from && #[trigger] m[q2] == '.' ==> q2 == q),
            (dots >= 2 ==> exists|q1: int, q2: int|
                0 <= q1 < j - from && 0 <= q2 < j - from && q1 != q2 && #[trigger] m[q1] == '.'
                    && #[trigger] m[q2] == '.'),
        decreases to - j,
    {
        let c = t.get_char(j);
        let u = c as u32;
        proof {
            assert(m[j - from] == t@[j as int]);
        }
        if 48 <= u && u <= 57 {
            seen_digit = true;
        } else if c == '.' {
            if dots < 2 {
                dots = dots + 1;
            }
        } else {
            return false;
        }
        j = j + 1;
    }
    seen_digit && dots <= 1
}

/// Checks an exponent: characters `from..` of `t` must be an optional
/// sign and then one or more digits.
fn check_exponent(t: &str, from: usize) -> (r: bool)
    requires
        from <= t@.len(),
    ensures
        r == spec_is_exponent(t@.skip(from as int)),
{
    let ghost e = t@.skip(from as int);
    let n = t.unicode_len();
    if from >= n {
        proof {
            assert(spec_number_body(e) =~= e);
        }
        return false;
    }
    let c0 = t.get_char(from);
    let start: usize = if c0 == '+' || c0 == '-' {
        from + 1
    } else {
        from
    };
    proof {
        if c0 == '+' || c0 == '-' {
            assert(spec_number_body(e) =~= t@.skip(start as int));
        } else {
            assert(spec_number_body(e) =~= e);
            assert(e =~= t@.skip(start as int));
        }
    }
    match scan_digits(t, start) {
        Some(_) => true,
        None => false,
    }
}

/// Whether a token reads as a decimal floating-point literal.  The
/// machine core never computes with such a token: the reader keeps it
/// as text.
pub fn is_f32(x: String) -> (r: bool)
    ensures
        r == spec_is_f32(x@),
{
    let t = x.as_str();
    let n = t.unicode_len();
    if n == 0 {
        proof {
            assert(spec_number_body(x@) =~= x@);
            assert(first_exp_idx(x@, 0) == 0);
        }
        return false;
    }
    let c0 = t.get_char(0);
    let from: usize = if c0 == '+' || c0 == '-' {
        1
    } else {
        0
    };
    let ghost b = spec_number_body(x@);
    proof {
        if c0 == '+' || c0 == '-' {
            assert(b =~= x@.skip(1));
        } else {
            assert(b =~= x@.skip(0));
            assert(x@.skip(0) =~= x@);
        }
    }
    // find the first exponent marker at or after `from`
    let mut k: usize = from;
    let mut found = false;
    while k < n && !found
        invariant
            from <= k <= n,
            n == t@.len(),
            t@ == x@,
            b == spec_number_body(x@),
            b == x@.skip(from as int),
            found ==> k < n && spec_is_exp_char(x@[k as int]),
            forall|j: int| from <= j < k ==> !spec_is_exp_char(#[trigger] x@[j]),
        decreases n - k, 1int - (if found { 1int } else { 0int }),
    {
        let c = t.get_char(k);
        if c == 'e' || c == 'E' {
            found = true;
        } else {
            k = k + 1;
        }
    }
    proof {
        assert(forall|j: int| 0 <= j < b.len() ==> #[trigger] b[j] == x@[from + j]);
        if found {
            assert(spec_is_exp_char(b[k - from]));
            assert(first_exp_idx(b, 0) == k - from) by {
                lemma_first_exp_first(b, k - from);
            }
        } else {
            assert(k == n);
            assert(first_exp_idx(b, 0) == b.len()) by {
                lemma_first_exp_first(b, b.len() as int);
            }
        }
    }
    if found {
        let m_ok = check_mantissa(t, from, k);
        proof {
            assert(t@.subrange(from as int, k as int) =~= b.take(k - from));
        }
        if !m_ok {
            return false;
        }
        let e_ok = check_exponent(t, k + 1);
        proof {
            assert(t@.skip(k + 1) =~= b.skip(k - from + 1));
        }
        e_ok
    } else {
        let m_ok = check_mantissa(t, from, n);
        proof {
            assert(t@.subrange(from as int, n as int) =~= b.take(b.len() as int));
            assert(b.take(b.len() as int) =~= b);
        }
        m_ok
    }
}

/// If no exponent character stands before `k`, and `k` is either the
/// length or the position of one, then `k` is the first.
proof fn lemma_first_exp_first(b: Seq<char>, k: int)
    requires
        0 <= k <= b.len(),
        forall|j: int| 0 <= j < k ==> !spec_is_exp_char(#[trigger] b[j]),
        k < b.len() ==> spec_is_exp_char(b[k]),
    ensures
        first_exp_idx(b, 0) == k,
{
    lemma_first_exp_from(b, 0, k);
}

/// Helper for `lemma_first_exp_first`, generalized over the scan
/// start.
proof fn lemma_first_exp_from(b: Seq<char>, i: int, k: int)
    requires
        0 <= i <= k <= b.len(),
        forall|j: int| i <= j < k ==> !spec_is_exp_char(#[trigger] b[j]),
        k < b.len() ==> spec_is_exp_char(b[k]),
    ensures
        first_exp_idx(b, i) == k,
    decreases b.len() - i,
{
    if i < k {
        lemma_first_exp_from(b, i + 1, k);
    }
}

/// Whether a token's last character is a double quote.
pub fn is_end_with_double_quote(s: &str) -> (r: bool)
    requires
        s@.len() > 0,
    ensures
        r == (s@.last() == '"'),
{
    let n = s.unicode_len();
    s.get_char(n - 1) == '"'
}

/// What reading a string literal yields: tokens are taken from the
/// end of `ts` and joined onto `acc` with single spaces until one
/// ends with a closing double quote (which is dropped); `None` when
/// the stream runs out first.
pub open spec fn spec_read_string(acc: Seq<char>, ts: Seq<Seq<char>>) -> Option<
    (Seq<char>, Seq<Seq<char>>),
>
    decreases ts.len(),
{
    if ts.len() == 0 {
        None
    } else {
        let tok = ts.last();
        if tok.len() > 0 && tok.last() == '"' {
            Some((acc.add(seq![' ']).add(tok.drop_last()), ts.drop_last()))
        } else {
            spec_read_string(acc.add(seq![' ']).add(tok), ts.drop_last())
        }
    }
}

/// Reads the rest of a string literal whose opening token is `t`:
/// consumes tokens until one ends with `"`, joining them with single
/// spaces, and strips both quotes.  An error when the stream ends
/// with the literal unterminated (which empties the stream).
pub fn read_scheme_string(t: String, tokens: &mut Vec<String>) -> (r: Result<
    String,
    MachineError,
>)
    requires
        t@.len() > 0,
        t@[0] == '"',
    ensures
        final (tokens)@.len() <= old(tokens)@.len(),
        match spec_read_string(t@.skip(1), views_of(old(tokens)@)) {
            Some(p) => r matches Ok(out) && out@ == p.0 && views_of(final (tokens)@) == p.1,
            None => (r matches Err(e) && e == MachineError::SyntaxError) && final (tokens)@.len() == 0,
        },
{
    let n0 = t.as_str().unicode_len();
    let mut tt: String = t.as_str().substring_char(1, n0).to_owned();
    loop
        invariant
            tokens@.len() <= old(tokens)@.len(),
            spec_read_string(t@.skip(1), views_of(old(tokens)@)) == spec_read_string(
                tt@,
                views_of(tokens@),
            ),
        decreases tokens@.len(),
    {
        let ghost pre = views_of(tokens@);
        let next = tokens.pop();
        match next {
            Some(x) => {
                proof {
                    assert(pre.drop_last() =~= views_of(tokens@));
                    assert(pre.last() == x@);
                }
                let xn = x.as_str().unicode_len();
                if xn > 0 && is_end_with_double_quote(x.as_str()) {
                    let ghost tt0 = tt@;
                    tt.append(" ");
                    let tx = x.as_str().substring_char(0, xn - 1);
                    proof {
                        reveal_strlit(" ");
                        assert(" "@ =~= seq![' ']);
                        assert(tx@ =~= x@.drop_last());
                    }
                    tt.append(tx);
                    proof {
                        assert(tt@ =~= tt0.add(seq![' ']).add(x@.drop_last()));
                    }
                    return Ok(tt);
                } else {
                    let ghost tt0 = tt@;
                    tt.append(" ");
                    tt.append(x.as_str());
                    proof {
                        reveal_strlit(" ");
                        assert(" "@ =~= seq![' ']);
                        assert(tt@ =~= tt0.add(seq![' ']).add(x@));
                    }
                }
            },
            None => {
                return Err(MachineError::SyntaxError);
            },
        }
    }
}

/// What reading a parenthesized quotation yields: tokens come from
/// the end of `ts`; `(` and `)` adjust the depth counters and the
/// text, other tokens join with a space, and the read ends when the
/// counts balance.  `None` when the stream runs out first.
pub open spec fn spec_read_quote(
    acc: Seq<char>,
    left: int,
    right: int,
    ts: Seq<Seq<char>>,
) -> Option<(Seq<char>, Seq<Seq<char>>)>
    decreases ts.len(),
{
    if ts.len() == 0 {
        None
    } else {
        let tok = ts.last();
        if tok == seq!['('] {
            if left + 1 == right {
                Some((acc.add(seq![' ', '(']), ts.drop_last()))
            } else {
                spec_read_quote(acc.add(seq![' ', '(']), left + 1, right, ts.drop_last())
            }
        } else if tok == seq![')'] {
            if left == right + 1 {
                Some((acc.push(')'), ts.drop_last()))
            } else {
                spec_read_quote(acc.push(')'), left, right + 1, ts.drop_last())
            }
        } else {
            spec_read_quote(acc.add(seq![' ']).add(tok), left, right, ts.drop_last())
        }
    }
}

/// Reads a quotation whose opening token is `t`.  A lone `'` must be
/// followed by a parenthesized form, which is re-joined into text
/// until its delimiters balance; `'name` simply drops the quote mark.
/// Errors empty or leave the stream wherever the failure was seen.
pub fn read_scheme_quote(t: String, tokens: &mut Vec<String>) -> (r: Result<
    String,
    MachineError,
>)
    requires
        t@.len() > 0,
        t@[0] == '\'',
    ensures
        final (tokens)@.len() <= old(tokens)@.len(),
        t@.len() > 1 ==> (r matches Ok(out) && out@ == t@.skip(1) && final (tokens)@ == old(tokens)@),
        t@.len() == 1 && old(tokens)@.len() == 0 ==> (r matches Err(e) && e
            == MachineError::SyntaxError),
        t@.len() == 1 && old(tokens)@.len() > 0 && old(tokens)@.last()@ != seq!['('] ==> (
        r matches Err(e) && e == MachineError::SyntaxError),
        t@.len() == 1 && old(tokens)@.len() > 0 && old(tokens)@.last()@ == seq!['('] ==> match
            spec_read_quote(seq!['('], 1, 0, views_of(old(tokens)@.drop_last())) {
            Some(p) => r matches Ok(out) && out@ == p.0 && views_of(final (tokens)@) == p.1,
            None => (r matches Err(e) && e == MachineError::SyntaxError) && final (tokens)@.len() == 0,
        },
{
    proof {
        broadcast use vstd::std_specs::vec::axiom_spec_len;

        assert(spec_vec_len(tokens) == tokens@.len());
    }
    let tn = t.as_str().unicode_len();
    if tn == 1 {
        let first = match tokens.pop() {
            Some(x) => x,
            None => {
                return Err(MachineError::SyntaxError);
            },
        };
        if !str_is(&first, "(") {
            proof {
                reveal_strlit("(");
                assert("("@ =~= seq!['(']);
            }
            return Err(MachineError::SyntaxError);
        }
        proof {
            reveal_strlit("(");
            assert("("@ =~= seq!['(']);
        }
        let mut left: usize = 1;
        let mut right: usize = 0;
        let mut s_acc = String::from_str("(");
        loop
            invariant
                old(tokens)@.len() <= usize::MAX,
                left + tokens@.len() <= old(tokens)@.len(),
                right < left,
                t@.len() == 1,
                old(tokens)@.len() > 0,
                old(tokens)@.last()@ == seq!['('],
                spec_read_quote(seq!['('], 1, 0, views_of(old(tokens)@.drop_last()))
                    == spec_read_quote(s_acc@, left as int, right as int, views_of(tokens@)),
            decreases tokens@.len(),
        {
            let ghost pre = views_of(tokens@);
            let token = tokens.pop();
            match token {
                Some(x) => {
                    proof {
                        assert(pre.drop_last() =~= views_of(tokens@));
                        assert(pre.last() == x@);
                        reveal_strlit("(");
                        reveal_strlit(")");
                        assert("("@ =~= seq!['(']);
                        assert(")"@ =~= seq![')']);
                    }
                    if str_is(&x, "(") {
                        let ghost a0 = s_acc@;
                        left = left + 1;
                        s_acc.append(" (");
                        proof {
                            reveal_strlit(" (");
                            assert(" ("@ =~= seq![' ', '(']);
                            assert(s_acc@ =~= a0.add(seq![' ', '(']));
                        }
                        if left == right {
                            return Ok(s_acc);
                        }
                    } else if str_is(&x, ")") {
                        let ghost a0 = s_acc@;
                        right = right + 1;
                        s_acc.append(")");
                        proof {
                            reveal_strlit(")");
                            assert(")"@ =~= seq![')']);
                            assert(s_acc@ =~= a0.push(')'));
                        }
                        if left == right {
                            return Ok(s_acc);
                        }
                    } else {
                        let ghost a0 = s_acc@;
                        s_acc.append(" ");
                        s_acc.append(x.as_str());
                        proof {
                            reveal_strlit(" ");
                            assert(" "@ =~= seq![' ']);
                            assert(s_acc@ =~= a0.add(seq![' ']).add(x@));
                        }
                    }
                },
                None => {
                    return Err(MachineError::SyntaxError);
                },
            }
        }
    } else {
        let out = t.as_str().substring_char(1, tn).to_owned();
        proof {
            assert(out@ =~= t@.skip(1));
        }
        Ok(out)
    }
}

/// The loader's success shape: `p` is a spine with the parsed
/// shapes, laid out depth-first from cell `b` (where the allocation
/// cursor stood), fitting the capacity, with the `free` register
/// advanced past it.
pub open spec fn spec_loaded_list(
    cars: Seq<Object>,
    cdrs: Seq<Object>,
    regs: Seq<crate::register::Register>,
    sv: Seq<crate::tpfordev::ExpV>,
    cap: int,
    b: int,
    p: Pair,
) -> bool {
    &&& crate::tpfordev::pair_views(p) == sv
    &&& crate::memory::spec_list_cells(cars, cdrs, p, b)
    &&& b + crate::memory::spec_size_pair(p) <= cap
    &&& crate::machine::spec_lookup(regs, "free"@) == Some(
        Object::Index((b + crate::memory::spec_size_pair(p)) as usize),
    )
}

/// The loader's whole success condition for one witness spine: the
/// tokens read as exactly this spine's list, and its depth-first
/// layout now sits in the cells, starting where the allocation
/// cursor stood.
pub open spec fn spec_loaded_of_tokens(
    ts: Seq<Seq<char>>,
    cars: Seq<Object>,
    cdrs: Seq<Object>,
    regs: Seq<crate::register::Register>,
    cap: int,
    b: int,
    p: Pair,
) -> bool {
    &&& crate::parserfordev::spec_read_tokens(ts) == Some(
        crate::tpfordev::ExpV::List(crate::tpfordev::pair_views(p)),
    )
    &&& spec_loaded_list(cars, cdrs, regs, crate::tpfordev::pair_views(p), cap, b, p)
}

/// The loader's whole success contract: the stream consumed, the
/// root where the cursor stood, and a witness spine loaded there.
pub open spec fn spec_loader_ok(
    ts: Seq<Seq<char>>,
    tokens_left: int,
    regs0: Seq<crate::register::Register>,
    cars: Seq<Object>,
    cdrs: Seq<Object>,
    regs1: Seq<crate::register::Register>,
    cap: int,
    root: usize,
) -> bool {
    &&& tokens_left == 0
    &&& crate::machine::spec_lookup(regs0, "free"@) == Some(Object::Index(root))
    &&& exists|p: Pair|
        #[trigger] spec_loaded_of_tokens(ts, cars, cdrs, regs1, cap, root as int, p)
}

/// The loader's whole failure contract: which fatal condition draws
/// which error.
pub open spec fn spec_loader_err(
    ts: Seq<Seq<char>>,
    regs0: Seq<crate::register::Register>,
    cap: int,
    e: MachineError,
) -> bool {
    match crate::parserfordev::spec_read_tokens(ts) {
        None => e == MachineError::SyntaxError,
        Some(ev) => if !(ev matches crate::tpfordev::ExpV::List(_)) {
            e == MachineError::SyntaxError
        } else {
            match crate::machine::spec_lookup(regs0, "free"@) {
                None => e == MachineError::UnknownRegister,
                Some(o) => match o {
                    Object::Index(b) => e == MachineError::IndexOutOfBounds && exists|p: Pair|
                        #[trigger] crate::tpfordev::pair_views(p) == ev->List_0 && b
                            + crate::memory::spec_size_pair(p) > cap,
                    _ => e == MachineError::NotAnIndex,
                },
            }
        },
    }
}

/// Reads one complete list from the token stream and writes it into
/// the active generation, depth first, starting at the cell the
/// `free` register points at; `free` advances one cell per cell
/// written, and the root index — where the structure begins — is
/// returned.  The generations are only ever reclaimed whole: `flip`
/// and the collector reset the cursor, never the loader.  Fatal
/// exactly on unbalanced delimiters or an unreadable token, on a
/// text that reads as something other than a list, on a `free`
/// register that is missing or holds no index, or on a structure
/// that outgrows the generation.
#[verifier::spinoff_prover]
#[verifier::rlimit(50)]
pub fn build_syntax_tree_into_memeory(
    tokens: &mut Vec<String>,
    memory: &mut crate::memory::Memory,
    machine: &mut crate::machine::BasicMachine,
) -> (r: Result<usize, MachineError>)
    requires
        old(memory).wf(),
    ensures
        final (memory).wf(),
        final (memory).spec_capacity() == old(memory).spec_capacity(),
        final (memory).new_cars@ == old(memory).new_cars@,
        final (memory).new_cdrs@ == old(memory).new_cdrs@,
        final (machine).stack == old(machine).stack,
        final (machine).labels == old(machine).labels,
        final (machine).instruction_sequence == old(machine).instruction_sequence,
        forall|n2: Seq<char>|
            n2 != "free"@ ==> #[trigger] crate::machine::spec_lookup(
                final (machine).registers@,
                n2,
            ) == crate::machine::spec_lookup(old(machine).registers@, n2),
        match r {
            Ok(root) => spec_loader_ok(
                views_of(old(tokens)@),
                final (tokens)@.len() as int,
                old(machine).registers@,
                final (memory).the_cars@,
                final (memory).the_cdrs@,
                final (machine).registers@,
                old(memory).spec_capacity(),
                root,
            ),
            Err(e) => spec_loader_err(
                views_of(old(tokens)@),
                old(machine).registers@,
                old(memory).spec_capacity(),
                e,
            ),
        },
{
    if !syntax_checker(tokens) {
        return Err(MachineError::SyntaxError);
    }
    let exp = match crate::parserfordev::build_syntax_tree(tokens) {
        Ok(e) => e,
        Err(e) => {
            return Err(e);
        },
    };
    let spine = match exp {
        Exp::List(p) => p,
        other => {
            proof {
                assert(!(crate::tpfordev::exp_view(other) matches crate::tpfordev::ExpV::List(
                    _,
                )));
            }
            return Err(MachineError::SyntaxError);
        },
    };
    let ghost spine_v = spine;
    proof {
        assert(crate::tpfordev::exp_view(Exp::List(spine_v)) == crate::tpfordev::ExpV::List(
            crate::tpfordev::pair_views(spine_v),
        ));
        crate::memory::lemma_size_pair_nonneg(spine_v);
    }
    let free_name = String::from_str("free");
    let base = match machine.get_register_contents(&free_name) {
        Some(Object::Index(b)) => b,
        Some(_) => {
            return Err(MachineError::NotAnIndex);
        },
        None => {
            return Err(MachineError::UnknownRegister);
        },
    };
    if base > memory.capacity() {
        return Err(MachineError::IndexOutOfBounds);
    }
    let mut free: usize = base;
    match memory.write_list(&spine, &mut free) {
        Ok(_) => {},
        Err(e) => {
            return Err(e);
        },
    }
    machine.initilize_free_register(free);
    proof {
        assert(crate::memory::spec_list_cells(
            memory.the_cars@,
            memory.the_cdrs@,
            spine_v,
            base as int,
        ));
        assert(spec_loaded_list(
            memory.the_cars@,
            memory.the_cdrs@,
            machine.registers@,
            crate::tpfordev::pair_views(spine_v),
            old(memory).spec_capacity(),
            base as int,
            spine_v,
        ));
        assert(crate::parserfordev::spec_read_tokens(views_of(old(tokens)@)) == Some(
            crate::tpfordev::ExpV::List(crate::tpfordev::pair_views(spine_v)),
        ));
        assert(spec_loaded_of_tokens(
            views_of(old(tokens)@),
            memory.the_cars@,
            memory.the_cdrs@,
            machine.registers@,
            old(memory).spec_capacity(),
            base as int,
            spine_v,
        ));
        assert(spec_loader_ok(
            views_of(old(tokens)@),
            tokens@.len() as int,
            old(machine).registers@,
            memory.the_cars@,
            memory.the_cdrs@,
            machine.registers@,
            old(memory).spec_capacity(),
            base,
        ));
    }
    Ok(base)
}

/// A bounded stack of heap indices used while the reader builds list
/// structure in memory; exceeding its depth is a fatal condition.
pub struct PairStack {
    capacity: usize,
    container: Vec<usize>,
}

impl PairStack {
    /// The indices currently held, bottom first.
    pub closed spec fn view(&self) -> Seq<usize> {
        self.container@
    }

    pub closed spec fn spec_capacity(&self) -> int {
        self.capacity as int
    }

    /// An empty stack with depth 100.
    pub fn new() -> (r: Self)
        ensures
            r@ == Seq::<usize>::empty(),
            r.spec_capacity() == 100,
    {
        PairStack { capacity: 100, container: Vec::new() }
    }

    /// Pushes an index; an error (leaving the stack as it was) once
    /// the configured depth is reached.
    pub fn push(&mut self, index: usize) -> (r: Result<(), MachineError>)
        ensures
            final (self).spec_capacity() == old(self).spec_capacity(),
            match r {
                Ok(_) => old(self)@.len() < old(self).spec_capacity() && final (self)@ == old(
                    self,
                )@.push(index),
                Err(e) => old(self)@.len() >= old(self).spec_capacity() && final (self)@ == old(
                    self,
                )@ && e == MachineError::StackOverflow,
            },
    {
        if self.container.len() < self.capacity {
            self.container.push(index);
            Ok(())
        } else {
            Err(MachineError::StackOverflow)
        }
    }

    /// Pops the top index; `None` on an empty stack.
    pub fn pop(&mut self) -> (r: Option<usize>)
        ensures
            final (self).spec_capacity() == old(self).spec_capacity(),
            match r {
                Some(i) => old(self)@.len() > 0 && i == old(self)@.last() && final (self)@ == old(
                    self,
                )@.drop_last(),
                None => old(self)@.len() == 0 && final (self)@ == old(self)@,
            },
    {
        self.container.pop()
    }

    /// The top index without removing it; `None` on an empty stack.
    pub fn peek(&self) -> (r: Option<usize>)
        ensures
            match r {
                Some(i) => self@.len() > 0 && i == self@.last(),
                None => self@.len() == 0,
            },
    {
        if self.container.len() > 0 {
            Some(self.container[self.container.len() - 1])
        } else {
            None
        }
    }
}

} // verus!
