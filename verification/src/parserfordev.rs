//! The reader and printer for symbolic expressions: token streams are
//! built into `Exp` trees, and trees render back to text.  Rendering
//! has an exact character-level specification, `spec_render`; reading
//! is checked for delimiter balance and token validity and reports
//! every malformed input as a fatal error.

use vstd::prelude::*;

use crate::errors::MachineError;
use crate::parser::{
    is_f32, is_i32, is_symbol, read_scheme_quote, read_scheme_string, reverse, str_is,
    syntax_checker, tokenizer, try_parse_i32,
};
use crate::parser::{
    spec_i32_value, spec_is_f32, spec_is_i32, spec_is_symbol, spec_read_quote, spec_read_string,
    views_of,
};
use crate::tpfordev::{exp_view, pair_views, views_of_exps, Exp, ExpV, Pair};

verus! {

/// The decimal digits of `n`, most significant first.
pub open spec fn spec_nat_digits(n: nat) -> Seq<char>
    decreases n,
{
    if n < 10 {
        seq![spec_digit_char(n)]
    } else {
        spec_nat_digits(n / 10).push(spec_digit_char(n % 10))
    }
}

/// The character for one digit value.
pub open spec fn spec_digit_char(d: nat) -> char {
    if d == 0 {
        '0'
    } else if d == 1 {
        '1'
    } else if d == 2 {
        '2'
    } else if d == 3 {
        '3'
    } else if d == 4 {
        '4'
    } else if d == 5 {
        '5'
    } else if d == 6 {
        '6'
    } else if d == 7 {
        '7'
    } else if d == 8 {
        '8'
    } else {
        '9'
    }
}

/// The decimal text of an integer, with a minus sign when negative.
pub open spec fn spec_int_str(n: int) -> Seq<char> {
    if n < 0 {
        seq!['-'].add(spec_nat_digits((-n) as nat))
    } else {
        spec_nat_digits(n as nat)
    }
}

/// A one-character string for a digit value.
fn digit_str(d: u64) -> (r: &'static str)
    requires
        d <= 9,
    ensures
        r@ == seq![spec_digit_char(d as nat)],
{
    proof {
        reveal_strlit("0");
        reveal_strlit("1");
        reveal_strlit("2");
        reveal_strlit("3");
        reveal_strlit("4");
        reveal_strlit("5");
        reveal_strlit("6");
        reveal_strlit("7");
        reveal_strlit("8");
        reveal_strlit("9");
        assert("0"@ =~= seq!['0']);
        assert("1"@ =~= seq!['1']);
        assert("2"@ =~= seq!['2']);
        assert("3"@ =~= seq!['3']);
        assert("4"@ =~= seq!['4']);
        assert("5"@ =~= seq!['5']);
        assert("6"@ =~= seq!['6']);
        assert("7"@ =~= seq!['7']);
        assert("8"@ =~= seq!['8']);
        assert("9"@ =~= seq!['9']);
    }
    if d == 0 {
        "0"
    } else if d == 1 {
        "1"
    } else if d == 2 {
        "2"
    } else if d == 3 {
        "3"
    } else if d == 4 {
        "4"
    } else if d == 5 {
        "5"
    } else if d == 6 {
        "6"
    } else if d == 7 {
        "7"
    } else if d == 8 {
        "8"
    } else {
        "9"
    }
}

/// Appends the decimal digits of `n` to `s`.
fn push_nat_digits(s: &mut String, n: u64)
    ensures
        final (s)@ == old(s)@.add(spec_nat_digits(n as nat)),
    decreases n,
{
    if n >= 10 {
        push_nat_digits(s, n / 10);
        let d = digit_str(n % 10);
        let ghost mid = s@;
        s.append(d);
        proof {
            assert(s@ =~= old(s)@.add(spec_nat_digits(n as nat)));
        }
    } else {
        let d = digit_str(n);
        s.append(d);
        proof {
            assert(s@ =~= old(s)@.add(spec_nat_digits(n as nat)));
        }
    }
}

/// Appends the decimal text of an `i32` to `s`.
pub fn push_i32(s: &mut String, n: i32)
    ensures
        final (s)@ == old(s)@.add(spec_int_str(n as int)),
{
    if n < 0 {
        s.append("-");
        proof {
            reveal_strlit("-");
            assert("-"@ =~= seq!['-']);
        }
        let m = (-(n as i64)) as u64;
        push_nat_digits(s, m);
        proof {
            assert(old(s)@.add(seq!['-']).add(spec_nat_digits(m as nat)) =~= old(s)@.add(
                spec_int_str(n as int),
            ));
        }
    } else {
        push_nat_digits(s, n as u64);
    }
}

/// Appends the decimal text of a `usize` to `s`.
pub fn push_usize(s: &mut String, n: usize)
    ensures
        final (s)@ == old(s)@.add(spec_nat_digits(n as nat)),
{
    push_nat_digits(s, n as u64);
}

/// The rendering of one expression: atoms carry one leading space
/// (quotes and strings with their marks), a list is parenthesized
/// with a plain space before its third and later elements.
pub open spec fn spec_render(e: Exp) -> Seq<char>
    decreases e,
{
    match e {
        Exp::FloatNumber(x) => seq![' '].add(x@),
        Exp::Integer(x) => seq![' '].add(spec_int_str(x as int)),
        Exp::Symbol(x) => seq![' '].add(x@),
        Exp::Index(x) => seq![' '].add(spec_int_str(x as int)),
        Exp::Quote(x) => seq![' ', '\''].add(x@),
        Exp::SchemeString(x) => seq![' ', '"'].add(x@).push('"'),
        Exp::Bool(x) => if x {
            seq![' ', 't', 'r', 'u', 'e']
        } else {
            seq![' ', 'f', 'a', 'l', 's', 'e']
        },
        Exp::List(Pair::Nil) => seq!['(', ')'],
        Exp::List(Pair::Cons(x, y)) => seq!['('].add(spec_render(*x)).add(
            spec_render_rest(*y, true),
        ).push(')'),
    }
}

/// The rendering of a list's elements after the first: the second
/// element follows the first directly, later ones get a separating
/// space.
pub open spec fn spec_render_rest(p: Pair, first: bool) -> Seq<char>
    decreases p,
{
    match p {
        Pair::Nil => Seq::empty(),
        Pair::Cons(x, y) => (if first {
            Seq::empty()
        } else {
            seq![' ']
        }).add(spec_render(*x)).add(spec_render_rest(*y, false)),
    }
}

/// Appends the rendering of `exp` to `s`.
pub fn exp_to_str_iter(s: &mut String, exp: Exp)
    ensures
        final (s)@ == old(s)@.add(spec_render(exp)),
    decreases exp,
{
    let ghost s0 = s@;
    match exp {
        Exp::FloatNumber(x) => {
            s.append(" ");
            s.append(x.as_str());
            proof {
                reveal_strlit(" ");
                assert(" "@ =~= seq![' ']);
                assert(s@ =~= s0.add(seq![' '].add(x@)));
            }
        },
        Exp::Integer(x) => {
            s.append(" ");
            push_i32(s, x);
            proof {
                reveal_strlit(" ");
                assert(" "@ =~= seq![' ']);
                assert(s@ =~= s0.add(seq![' '].add(spec_int_str(x as int))));
            }
        },
        Exp::Symbol(x) => {
            s.append(" ");
            s.append(x.as_str());
            proof {
                reveal_strlit(" ");
                assert(" "@ =~= seq![' ']);
                assert(s@ =~= s0.add(seq![' '].add(x@)));
            }
        },
        Exp::Index(x) => {
            s.append(" ");
            push_usize(s, x);
            proof {
                reveal_strlit(" ");
                assert(" "@ =~= seq![' ']);
                assert(spec_int_str(x as int) == spec_nat_digits(x as nat));
                assert(s@ =~= s0.add(seq![' '].add(spec_int_str(x as int))));
            }
        },
        Exp::Quote(x) => {
            s.append(" '");
            s.append(x.as_str());
            proof {
                reveal_strlit(" '");
                assert(" '"@ =~= seq![' ', '\'']);
                assert(s@ =~= s0.add(seq![' ', '\''].add(x@)));
            }
        },
        Exp::SchemeString(x) => {
            s.append(" \"");
            s.append(x.as_str());
            s.append("\"");
            proof {
                reveal_strlit(" \"");
                reveal_strlit("\"");
                assert(" \""@ =~= seq![' ', '"']);
                assert("\""@ =~= seq!['"']);
                assert(s@ =~= s0.add(seq![' ', '"'].add(x@).push('"')));
            }
        },
        Exp::Bool(x) => {
            if x {
                s.append(" true");
                proof {
                    reveal_strlit(" true");
                    assert(" true"@ =~= seq![' ', 't', 'r', 'u', 'e']);
                    assert(s@ =~= s0.add(spec_render(Exp::Bool(true))));
                }
            } else {
                s.append(" false");
                proof {
                    reveal_strlit(" false");
                    assert(" false"@ =~= seq![' ', 'f', 'a', 'l', 's', 'e']);
                    assert(s@ =~= s0.add(spec_render(Exp::Bool(false))));
                }
            }
        },
        Exp::List(p) => {
            match p {
                Pair::Nil => {
                    s.append("()");
                    proof {
                        reveal_strlit("()");
                        assert("()"@ =~= seq!['(', ')']);
                        assert(s@ =~= s0.add(seq!['(', ')']));
                    }
                },
                Pair::Cons(x, y) => {
                    let ghost gx = *x;
                    let ghost gy = *y;
                    s.append("(");
                    proof {
                        reveal_strlit("(");
                        assert("("@ =~= seq!['(']);
                    }
                    exp_to_str_iter(s, *x);
                    exp_to_str_rest(s, *y, true);
                    s.append(")");
                    proof {
                        reveal_strlit(")");
                        assert(")"@ =~= seq![')']);
                        assert(s@ =~= s0.add(
                            seq!['('].add(spec_render(gx)).add(spec_render_rest(gy, true)).push(
                                ')',
                            ),
                        ));
                    }
                },
            }
        },
    }
}

/// Appends the rendering of a list's later elements to `s`.
fn exp_to_str_rest(s: &mut String, p: Pair, first: bool)
    ensures
        final (s)@ == old(s)@.add(spec_render_rest(p, first)),
    decreases p,
{
    let ghost s0 = s@;
    match p {
        Pair::Nil => {
            proof {
                assert(s@ =~= s0.add(spec_render_rest(Pair::Nil, first)));
            }
        },
        Pair::Cons(x, y) => {
            let ghost gx = *x;
            let ghost gy = *y;
            if !first {
                s.append(" ");
                proof {
                    reveal_strlit(" ");
                    assert(" "@ =~= seq![' ']);
                }
            }
            exp_to_str_iter(s, *x);
            exp_to_str_rest(s, *y, false);
            proof {
                if first {
                    assert(s@ =~= s0.add(
                        Seq::empty().add(spec_render(gx)).add(spec_render_rest(gy, false)),
                    ));
                } else {
                    assert(s@ =~= s0.add(
                        seq![' '].add(spec_render(gx)).add(spec_render_rest(gy, false)),
                    ));
                }
            }
        },
    }
}

/// `s` with leading and trailing whitespace removed.
pub open spec fn spec_trim(s: Seq<char>) -> Seq<char>
    decreases s.len(),
{
    if s.len() == 0 {
        s
    } else if crate::parser::spec_is_whitespace(s[0]) {
        spec_trim(s.skip(1))
    } else if crate::parser::spec_is_whitespace(s.last()) {
        spec_trim(s.drop_last())
    } else {
        s
    }
}

/// Removes leading and trailing whitespace.
pub fn trim_string(s: &String) -> (r: String)
    ensures
        r@ == spec_trim(s@),
{
    let t = s.as_str();
    let n = t.unicode_len();
    let mut lo: usize = 0;
    proof {
        assert(s@.skip(0) =~= s@);
    }
    while lo < n && crate::parser::is_whitespace_char(t.get_char(lo))
        invariant
            0 <= lo <= n,
            n == t@.len(),
            t@ == s@,
            spec_trim(s@) == spec_trim(s@.skip(lo as int)),
        decreases n - lo,
    {
        proof {
            assert(s@.skip(lo as int).skip(1) =~= s@.skip(lo + 1));
        }
        lo = lo + 1;
    }
    let mut hi: usize = n;
    proof {
        assert(s@.skip(lo as int).take(n - lo) =~= s@.skip(lo as int));
    }
    while hi > lo && crate::parser::is_whitespace_char(t.get_char(hi - 1))
        invariant
            0 <= lo <= hi <= n,
            n == t@.len(),
            t@ == s@,
            spec_trim(s@) == spec_trim(s@.skip(lo as int).take(hi - lo)),
            lo < n ==> !crate::parser::spec_is_whitespace(s@[lo as int]),
        decreases hi,
    {
        proof {
            let cur = s@.skip(lo as int).take(hi - lo);
            assert(cur[0] == s@[lo as int]);
            assert(cur.last() == s@[hi - 1]);
            assert(cur.drop_last() =~= s@.skip(lo as int).take(hi - 1 - lo));
        }
        hi = hi - 1;
    }
    let out = t.substring_char(lo, hi).to_owned();
    proof {
        let cur = s@.skip(lo as int).take(hi - lo);
        assert(out@ =~= cur);
        if cur.len() > 0 {
            assert(cur[0] == s@[lo as int]);
            assert(cur.last() == s@[hi - 1]);
            assert(spec_trim(cur) == cur);
        } else {
            assert(spec_trim(cur) == cur);
        }
    }
    out
}

/// Renders an expression: its `spec_render` text with surrounding
/// whitespace trimmed, so a lone atom renders without its leading
/// space.
pub fn exp_to_str(exp: Exp) -> (r: String)
    ensures
        r@ == spec_trim(spec_render(exp)),
{
    let mut s = String::new();
    exp_to_str_iter(&mut s, exp);
    proof {
        assert(Seq::<char>::empty().add(spec_render(exp)) =~= spec_render(exp));
    }
    trim_string(&s)
}

/// What reading forms from a pop-ready token stream yields: the
/// shapes of the forms read until a closing delimiter or the
/// stream's end, and the unread rest of the stream; `None` on an
/// unreadable token.  The fuel only serves the definition's
/// termination: any fuel past the stream's length gives the one real
/// answer, which is what the reader is proved to return.
pub open spec fn spec_parse_items(ts: Seq<Seq<char>>, fuel: nat) -> Option<
    (Seq<ExpV>, Seq<Seq<char>>),
>
    decreases fuel,
{
    if fuel == 0 {
        None
    } else if ts.len() == 0 {
        Some((Seq::empty(), ts))
    } else {
        let tok = ts.last();
        let rest = ts.drop_last();
        if tok.len() == 0 {
            None
        } else if tok == seq!['('] {
            match spec_parse_items(rest, (fuel - 1) as nat) {
                None => None,
                Some(sub) => match spec_parse_items(sub.1, (fuel - 1) as nat) {
                    None => None,
                    Some(more) => Some((seq![ExpV::List(sub.0)].add(more.0), more.1)),
                },
            }
        } else if tok == seq![')'] {
            Some((Seq::empty(), rest))
        } else if tok == seq!['N', 'i', 'l'] {
            spec_parse_items(rest, (fuel - 1) as nat)
        } else if tok == seq!['t', 'r', 'u', 'e'] {
            match spec_parse_items(rest, (fuel - 1) as nat) {
                None => None,
                Some(more) => Some((seq![ExpV::Bool(true)].add(more.0), more.1)),
            }
        } else if tok == seq!['f', 'a', 'l', 's', 'e'] {
            match spec_parse_items(rest, (fuel - 1) as nat) {
                None => None,
                Some(more) => Some((seq![ExpV::Bool(false)].add(more.0), more.1)),
            }
        } else if spec_is_symbol(tok) {
            match spec_parse_items(rest, (fuel - 1) as nat) {
                None => None,
                Some(more) => Some((seq![ExpV::Symbol(tok)].add(more.0), more.1)),
            }
        } else if tok[0] == '"' {
            match spec_read_string(tok.skip(1), rest) {
                None => None,
                Some(p) => match spec_parse_items(p.1, (fuel - 1) as nat) {
                    None => None,
                    Some(more) => Some((seq![ExpV::SchemeString(p.0)].add(more.0), more.1)),
                },
            }
        } else if tok[0] == '\'' {
            if tok.len() > 1 {
                match spec_parse_items(rest, (fuel - 1) as nat) {
                    None => None,
                    Some(more) => Some((seq![ExpV::Quote(tok.skip(1))].add(more.0), more.1)),
                }
            } else if rest.len() == 0 {
                None
            } else if rest.last() != seq!['('] {
                None
            } else {
                match spec_read_quote(seq!['('], 1, 0, rest.drop_last()) {
                    None => None,
                    Some(p) => match spec_parse_items(p.1, (fuel - 1) as nat) {
                        None => None,
                        Some(more) => Some((seq![ExpV::Quote(p.0)].add(more.0), more.1)),
                    },
                }
            }
        } else if spec_is_i32(tok) {
            match spec_parse_items(rest, (fuel - 1) as nat) {
                None => None,
                Some(more) => Some((seq![ExpV::Integer(spec_i32_value(tok))].add(more.0), more.1)),
            }
        } else if spec_is_f32(tok) {
            match spec_parse_items(rest, (fuel - 1) as nat) {
                None => None,
                Some(more) => Some((seq![ExpV::FloatNumber(tok)].add(more.0), more.1)),
            }
        } else {
            None
        }
    }
}

/// Builds the expressions read from a pop-ready token stream until a
/// closing delimiter or the stream's end; the elements appear in the
/// returned vector in reading order.  Fatal on an unreadable token.
/// The result is exactly `spec_parse_items` of the stream, at any
/// sufficient fuel.
/// Prepends already-read shapes onto a reading's result.
pub open spec fn spec_lift(
    d: Seq<ExpV>,
    x: Option<(Seq<ExpV>, Seq<Seq<char>>)>,
) -> Option<(Seq<ExpV>, Seq<Seq<char>>)> {
    match x {
        None => None,
        Some(m) => Some((d.add(m.0), m.1)),
    }
}

/// Consing one shape under a lift is lifting over the grown prefix.
proof fn lemma_lift_cons(d: Seq<ExpV>, v: ExpV, x: Option<(Seq<ExpV>, Seq<Seq<char>>)>)
    ensures
        spec_lift(
            d,
            match x {
                None => None,
                Some(m) => Some((seq![v].add(m.0), m.1)),
            },
        ) == spec_lift(d.push(v), x),
{
    match x {
        None => {},
        Some(m) => {
            assert(d.add(seq![v].add(m.0)) =~= d.push(v).add(m.0));
        },
    }
}

/// A reading step that consumed tokens and read one shape: the
/// running relation between the original stream and the rest
/// advances by one shape.
proof fn lemma_step_consuming(
    orig: Seq<Seq<char>>,
    iters: int,
    done: Seq<ExpV>,
    prev: Seq<Seq<char>>,
    next: Seq<Seq<char>>,
    v: ExpV,
    items_new: Seq<Exp>,
)
    requires
        0 <= iters,
        iters + prev.len() <= orig.len(),
        prev.len() >= 1,
        views_of_exps(items_new) == done.push(v),
        forall|fuel: nat|
            fuel >= orig.len() + 1 ==> spec_parse_items(orig, fuel) == spec_lift(
                done,
                spec_parse_items(prev, (fuel - iters) as nat),
            ),
        forall|f: nat|
            1 <= f ==> spec_parse_items(prev, f) == (match spec_parse_items(
                next,
                (f - 1) as nat,
            ) {
                None => None,
                Some(m) => Some((seq![v].add(m.0), m.1)),
            }),
    ensures
        forall|fuel: nat|
            fuel >= orig.len() + 1 ==> spec_parse_items(orig, fuel) == spec_lift(
                views_of_exps(items_new),
                spec_parse_items(next, (fuel - (iters + 1)) as nat),
            ),
{
    assert forall|fuel: nat| fuel >= orig.len() + 1 implies spec_parse_items(orig, fuel)
        == spec_lift(
        views_of_exps(items_new),
        spec_parse_items(next, (fuel - (iters + 1)) as nat),
    ) by {
        let f = (fuel - iters) as nat;
        assert(f >= prev.len() + 1);
        assert(spec_parse_items(orig, fuel) == spec_lift(done, spec_parse_items(prev, f)));
        assert(spec_parse_items(prev, f) == (match spec_parse_items(next, (f - 1) as nat) {
            None => None,
            Some(m) => Some((seq![v].add(m.0), m.1)),
        }));
        lemma_lift_cons(done, v, spec_parse_items(next, (f - 1) as nat));
        assert((f - 1) as nat == (fuel - (iters + 1)) as nat);
    }
}

/// A reading step that found the stream unreadable: the whole
/// reading answers nothing.
proof fn lemma_spec_none(orig: Seq<Seq<char>>, iters: int, done: Seq<ExpV>, prev: Seq<Seq<char>>)
    requires
        0 <= iters,
        iters + prev.len() <= orig.len(),
        forall|fuel: nat|
            fuel >= orig.len() + 1 ==> spec_parse_items(orig, fuel) == spec_lift(
                done,
                spec_parse_items(prev, (fuel - iters) as nat),
            ),
        forall|f: nat| 1 <= f ==> spec_parse_items(prev, f) is None,
    ensures
        forall|fuel: nat| fuel >= orig.len() + 1 ==> spec_parse_items(orig, fuel) is None,
{
    assert forall|fuel: nat| fuel >= orig.len() + 1 implies spec_parse_items(orig, fuel)
        is None by {
        let f = (fuel - iters) as nat;
        assert(f >= 1);
        assert(spec_parse_items(prev, f) is None);
        assert(spec_parse_items(orig, fuel) == spec_lift(done, spec_parse_items(prev, f)));
    }
}

fn build_syntax_tree_helper(tokens: &mut Vec<String>) -> (r: Result<Vec<Exp>, MachineError>)
    ensures
        final (tokens)@.len() <= old(tokens)@.len(),
        match r {
            Ok(items) => forall|fuel: nat|
                fuel >= old(tokens)@.len() + 1 ==> spec_parse_items(
                    views_of(old(tokens)@),
                    fuel,
                ) == Some((views_of_exps(items@), views_of(final (tokens)@))),
            Err(e) => e == MachineError::SyntaxError && forall|fuel: nat|
                fuel >= old(tokens)@.len() + 1 ==> spec_parse_items(
                    views_of(old(tokens)@),
                    fuel,
                ) is None,
        },
    decreases old(tokens)@.len(),
{
    let ghost orig = views_of(old(tokens)@);
    let mut items: Vec<Exp> = Vec::new();
    let ghost mut iters: int = 0;
    proof {
        reveal_strlit("(");
        reveal_strlit(")");
        reveal_strlit("Nil");
        reveal_strlit("true");
        reveal_strlit("false");
        assert("("@ =~= seq!['(']);
        assert(")"@ =~= seq![')']);
        assert("Nil"@ =~= seq!['N', 'i', 'l']);
        assert("true"@ =~= seq!['t', 'r', 'u', 'e']);
        assert("false"@ =~= seq!['f', 'a', 'l', 's', 'e']);
        assert(views_of_exps(items@) =~= Seq::<ExpV>::empty());
    }
    loop
        invariant
            orig == views_of(old(tokens)@),
            0 <= iters,
            iters + tokens@.len() <= old(tokens)@.len(),
            "("@ == seq!['('] && ")"@ == seq![')'] && "Nil"@ == seq!['N', 'i', 'l'] && "true"@
                == seq!['t', 'r', 'u', 'e'] && "false"@ == seq!['f', 'a', 'l', 's', 'e'],
            forall|fuel: nat|
                fuel >= orig.len() + 1 ==> spec_parse_items(orig, fuel) == spec_lift(
                    views_of_exps(items@),
                    spec_parse_items(views_of(tokens@), (fuel - iters) as nat),
                ),
        decreases tokens@.len(),
    {
        let ghost pre = tokens@;
        let ghost prev = views_of(pre);
        let ghost done = views_of_exps(items@);
        let t = match tokens.pop() {
            Some(t) => t,
            None => {
                proof {
                    assert forall|fuel: nat| fuel >= orig.len() + 1 implies spec_parse_items(
                        orig,
                        fuel,
                    ) == Some((views_of_exps(items@), views_of(tokens@))) by {
                        assert(spec_parse_items(prev, (fuel - iters) as nat) == Some((
                            Seq::<ExpV>::empty(),
                            prev,
                        )));
                        assert(done.add(Seq::<ExpV>::empty()) =~= done);
                    }
                }
                return Ok(items);
            },
        };
        proof {
            assert(prev.last() == t@);
            assert(prev.drop_last() =~= views_of(tokens@));
            assert((prev.len() - 1) as int + 1 == prev.len());
        }
        let ghost cur = views_of(tokens@);
        let tn = t.as_str().unicode_len();
        if tn == 0 {
            proof {
                lemma_spec_none(orig, iters, done, prev);
            }
            return Err(MachineError::SyntaxError);
        }
        if str_is(&t, "(") {
            let subtree = match build_syntax_tree_helper(tokens) {
                Ok(v) => v,
                Err(e) => {
                    proof {
                        assert forall|fuel: nat| fuel >= orig.len() + 1 implies spec_parse_items(
                            orig,
                            fuel,
                        ) is None by {
                            assert(spec_parse_items(cur, (fuel - iters - 1) as nat) is None);
                            assert(spec_parse_items(prev, (fuel - iters) as nat) is None);
                        }
                    }
                    return Err(e);
                },
            };
            let mut spine = Exp::List(Pair::Nil);
            let mut k = subtree.len();
            while k > 0
                invariant
                    k <= subtree@.len(),
                    spine matches Exp::List(_),
                    crate::tpfordev::elems_of(spine) == subtree@.skip(k as int),
                decreases k,
            {
                k = k - 1;
                let ghost spre = crate::tpfordev::elems_of(spine);
                spine = crate::tpfordev::scheme_cons(subtree[k].clone(), spine);
                proof {
                    assert(crate::tpfordev::elems_of(spine) =~= subtree@.skip(k as int));
                }
            }
            proof {
                assert(subtree@.skip(0) =~= subtree@);
            }
            let ghost subv = views_of_exps(subtree@);
            let ghost after = views_of(tokens@);
            proof {
                crate::tpfordev::lemma_pair_views_elems(spine->List_0);
                assert(exp_view(spine) == ExpV::List(subv));
            }
            items.push(spine);
            proof {
                assert(views_of_exps(items@) =~= done.push(ExpV::List(subv)));
                iters = iters + 1;
                assert forall|fuel: nat| fuel >= orig.len() + 1 implies spec_parse_items(
                    orig,
                    fuel,
                ) == spec_lift(
                    views_of_exps(items@),
                    spec_parse_items(views_of(tokens@), (fuel - iters) as nat),
                ) by {
                    let f = (fuel - (iters - 1)) as nat;
                    assert(spec_parse_items(cur, (f - 1) as nat) == Some((subv, after)));
                    assert(spec_parse_items(prev, f) == (match spec_parse_items(
                        after,
                        (f - 1) as nat,
                    ) {
                        None => None,
                        Some(more) => Some((seq![ExpV::List(subv)].add(more.0), more.1)),
                    }));
                    lemma_lift_cons(
                        done,
                        ExpV::List(subv),
                        spec_parse_items(after, (f - 1) as nat),
                    );
                }
            }
        } else if str_is(&t, ")") {
            proof {
                assert forall|fuel: nat| fuel >= orig.len() + 1 implies spec_parse_items(
                    orig,
                    fuel,
                ) == Some((views_of_exps(items@), views_of(tokens@))) by {
                    assert(spec_parse_items(prev, (fuel - iters) as nat) == Some((
                        Seq::<ExpV>::empty(),
                        cur,
                    )));
                    assert(done.add(Seq::<ExpV>::empty()) =~= done);
                }
            }
            return Ok(items);
        } else if str_is(&t, "Nil") {
            // a bare end-of-list marker adds nothing
            proof {
                iters = iters + 1;
                assert forall|fuel: nat| fuel >= orig.len() + 1 implies spec_parse_items(
                    orig,
                    fuel,
                ) == spec_lift(
                    views_of_exps(items@),
                    spec_parse_items(views_of(tokens@), (fuel - iters) as nat),
                ) by {
                    let f = (fuel - (iters - 1)) as nat;
                    assert(spec_parse_items(prev, f) == spec_parse_items(cur, (f - 1) as nat));
                }
            }
        } else if str_is(&t, "true") {
            items.push(Exp::Bool(true));
            proof {
                assert(views_of_exps(items@) =~= done.push(ExpV::Bool(true)));
                lemma_step_consuming(orig, iters, done, prev, cur, ExpV::Bool(true), items@);
                iters = iters + 1;
            }
        } else if str_is(&t, "false") {
            items.push(Exp::Bool(false));
            proof {
                assert(views_of_exps(items@) =~= done.push(ExpV::Bool(false)));
                lemma_step_consuming(orig, iters, done, prev, cur, ExpV::Bool(false), items@);
                iters = iters + 1;
            }
        } else if is_symbol(&t) {
            let ghost tv = t@;
            items.push(Exp::Symbol(t));
            proof {
                assert(views_of_exps(items@) =~= done.push(ExpV::Symbol(tv)));
                lemma_step_consuming(orig, iters, done, prev, cur, ExpV::Symbol(tv), items@);
                iters = iters + 1;
            }
        } else {
            let c0 = t.as_str().get_char(0);
            if c0 == '"' {
                let ghost tv = t@;
                let str_read = read_scheme_string(t, tokens);
                match str_read {
                    Ok(content) => {
                        let ghost p0 = content@;
                        let ghost p1 = views_of(tokens@);
                        items.push(Exp::SchemeString(content));
                        proof {
                            assert(views_of_exps(items@) =~= done.push(ExpV::SchemeString(p0)));
                            assert(spec_read_string(tv.skip(1), cur) == Some((p0, p1)));
                            lemma_step_consuming(
                                orig,
                                iters,
                                done,
                                prev,
                                p1,
                                ExpV::SchemeString(p0),
                                items@,
                            );
                            iters = iters + 1;
                        }
                    },
                    Err(e) => {
                        proof {
                            lemma_spec_none(orig, iters, done, prev);
                        }
                        return Err(e);
                    },
                }
            } else if c0 == '\'' {
                let ghost tv = t@;
                let ghost cur_s = tokens@;
                let quote_read = read_scheme_quote(t, tokens);
                proof {
                    if cur_s.len() > 0 {
                        assert(views_of(cur_s).last() == cur_s.last()@);
                        assert(views_of(cur_s.drop_last()) =~= cur.drop_last());
                    }
                }
                match quote_read {
                    Ok(content) => {
                        let ghost p0 = content@;
                        let ghost p1 = views_of(tokens@);
                        items.push(Exp::Quote(content));
                        proof {
                            assert(views_of_exps(items@) =~= done.push(ExpV::Quote(p0)));
                            if tv.len() > 1 {
                                assert(p0 == tv.skip(1));
                                assert(p1 =~= cur);
                            } else {
                                assert(cur.len() > 0 && cur.last() == seq!['(']);
                                assert(spec_read_quote(seq!['('], 1, 0, cur.drop_last()) == Some(
                                    (p0, p1),
                                ));
                            }
                            lemma_step_consuming(
                                orig,
                                iters,
                                done,
                                prev,
                                p1,
                                ExpV::Quote(p0),
                                items@,
                            );
                            iters = iters + 1;
                        }
                    },
                    Err(e) => {
                        proof {
                            assert forall|f: nat| 1 <= f implies spec_parse_items(prev, f)
                                is None by {
                                assert(prev.last() == tv);
                                assert(tv.len() <= 1);
                                if cur_s.len() == 0 {
                                    assert(cur.len() == 0);
                                } else if cur_s.last()@ != seq!['('] {
                                    assert(cur.last() == cur_s.last()@);
                                } else {
                                    assert(spec_read_quote(
                                        seq!['('],
                                        1,
                                        0,
                                        cur.drop_last(),
                                    ) is None);
                                }
                            }
                            lemma_spec_none(orig, iters, done, prev);
                        }
                        return Err(e);
                    },
                }
            } else if is_i32(t.clone()) {
                match try_parse_i32(t.as_str()) {
                    Some(v) => {
                        items.push(Exp::Integer(v));
                        proof {
                            assert(views_of_exps(items@) =~= done.push(ExpV::Integer(v as int)));
                            lemma_step_consuming(
                                orig,
                                iters,
                                done,
                                prev,
                                cur,
                                ExpV::Integer(v as int),
                                items@,
                            );
                            iters = iters + 1;
                        }
                    },
                    None => {
                        proof {
                            assert(false);
                        }
                        return Err(MachineError::SyntaxError);
                    },
                }
            } else if is_f32(t.clone()) {
                let ghost tv = t@;
                items.push(Exp::FloatNumber(t));
                proof {
                    assert(views_of_exps(items@) =~= done.push(ExpV::FloatNumber(tv)));
                    lemma_step_consuming(orig, iters, done, prev, cur, ExpV::FloatNumber(tv), items@);
                    iters = iters + 1;
                }
            } else {
                proof {
                    lemma_spec_none(orig, iters, done, prev);
                }
                return Err(MachineError::SyntaxError);
            }
        }
    }
}

/// What building one expression from a token list yields: the first
/// form the reversed (pop-ready) stream reads, the empty list when
/// the stream holds none, nothing when it is unreadable.
pub open spec fn spec_build_tree(ts: Seq<Seq<char>>) -> Option<ExpV> {
    match spec_parse_items(ts.reverse(), (ts.len() + 1) as nat) {
        None => None,
        Some(m) => Some(
            if m.0.len() > 0 {
                m.0[0]
            } else {
                ExpV::List(Seq::empty())
            },
        ),
    }
}

/// Builds one expression from a token list (in reading order): the
/// first form read, or the empty list when there is none — exactly
/// `spec_build_tree` of the tokens.  Fatal on an unreadable token;
/// the token list is consumed.
pub fn build_syntax_tree(tokens: &mut Vec<String>) -> (r: Result<Exp, MachineError>)
    ensures
        final (tokens)@.len() == 0,
        match r {
            Ok(e) => spec_build_tree(views_of(old(tokens)@)) == Some(exp_view(e)),
            Err(er) => er == MachineError::SyntaxError && spec_build_tree(
                views_of(old(tokens)@),
            ) is None,
        },
{
    let ghost ts = views_of(old(tokens)@);
    let mut stream = reverse(tokens);
    proof {
        assert(views_of(stream@) =~= ts.reverse());
    }
    let items = match build_syntax_tree_helper(&mut stream) {
        Ok(v) => v,
        Err(e) => {
            proof {
                assert(spec_parse_items(ts.reverse(), (ts.len() + 1) as nat) is None);
            }
            return Err(e);
        },
    };
    proof {
        assert(spec_parse_items(ts.reverse(), (ts.len() + 1) as nat) == Some((
            views_of_exps(items@),
            views_of(stream@),
        )));
    }
    if items.len() > 0 {
        let mut items = items;
        let first = items.remove(0);
        Ok(first)
    } else {
        proof {
            assert(exp_view(Exp::List(Pair::Nil)) == ExpV::List(Seq::empty())) by {
                assert(pair_views(Pair::Nil) =~= Seq::<ExpV>::empty());
            }
        }
        Ok(Exp::List(Pair::Nil))
    }
}

/// What reading one expression from source text yields: nothing when
/// the delimiters do not balance or a token is unreadable, the built
/// expression's shape otherwise.
pub open spec fn spec_read_exp(s: Seq<char>) -> Option<ExpV> {
    let ts = crate::parser::spec_tokens(s);
    if crate::parser::count_token(ts, seq!['(']) != crate::parser::count_token(ts, seq![')']) {
        None
    } else {
        spec_build_tree(ts)
    }
}

/// What reading one expression from an already-tokenized list
/// yields: nothing when the delimiters do not balance or a token is
/// unreadable, the built expression's shape otherwise.
pub open spec fn spec_read_tokens(ts: Seq<Seq<char>>) -> Option<ExpV> {
    if crate::parser::count_token(ts, seq!['(']) != crate::parser::count_token(ts, seq![')']) {
        None
    } else {
        spec_build_tree(ts)
    }
}

/// Reads one expression from source text: tokenizes, requires the
/// delimiters to balance, and builds the tree — exactly
/// `spec_read_exp` of the text.  Every malformed input is a fatal
/// error.
pub fn str_to_exp(s: String) -> (r: Result<Exp, MachineError>)
    ensures
        match r {
            Ok(e) => spec_read_exp(s@) == Some(exp_view(e)),
            Err(er) => er == MachineError::SyntaxError && spec_read_exp(s@) is None,
        },
{
    let ghost sv = s@;
    let mut tokens = tokenizer(s);
    if !syntax_checker(&tokens) {
        return Err(MachineError::SyntaxError);
    }
    build_syntax_tree(&mut tokens)
}

} // verus!