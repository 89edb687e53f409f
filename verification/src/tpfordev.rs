//! The symbolic expression tree the assembler consumes.
//!
//! An `Exp` is an atom or a proper list; a list's spine is a `Pair`
//! chain ending in `Pair::Nil`, so every list is proper (no dotted
//! tails).  Contracts speak of lists through `pair_elems`, the
//! sequence of their elements, and compare expressions through
//! `exp_eq`, structural equality up to string views.

use vstd::prelude::*;

use crate::errors::MachineError;
use crate::representation::Object;

verus! {

/// The spine of a proper list.
#[derive(Debug, PartialEq)]
pub enum Pair {
    Cons(Box<Exp>, Box<Pair>),
    Nil,
}

/// A symbolic expression: an atom or a proper list.  A `FloatNumber`
/// keeps the literal text it was read from; the core never computes
/// with it.
#[derive(Debug, PartialEq)]
pub enum Exp {
    FloatNumber(String),
    Integer(i32),
    List(Pair),
    Symbol(String),
    Quote(String),
    SchemeString(String),
    Bool(bool),
    Index(usize),
}

/// The mathematical shape of an expression: strings by their
/// character sequences, lists by the sequence of their elements'
/// shapes.  Two expressions with equal shapes mean the same datum.
pub ghost enum ExpV {
    FloatNumber(Seq<char>),
    Integer(int),
    List(Seq<ExpV>),
    Symbol(Seq<char>),
    Quote(Seq<char>),
    SchemeString(Seq<char>),
    Bool(bool),
    Index(int),
}

/// The shape of an expression.
pub open spec fn exp_view(e: Exp) -> ExpV
    decreases e,
{
    match e {
        Exp::FloatNumber(s) => ExpV::FloatNumber(s@),
        Exp::Integer(i) => ExpV::Integer(i as int),
        Exp::List(p) => ExpV::List(pair_views(p)),
        Exp::Symbol(s) => ExpV::Symbol(s@),
        Exp::Quote(s) => ExpV::Quote(s@),
        Exp::SchemeString(s) => ExpV::SchemeString(s@),
        Exp::Bool(b) => ExpV::Bool(b),
        Exp::Index(i) => ExpV::Index(i as int),
    }
}

/// The shapes of a spine's elements, in order.
pub open spec fn pair_views(p: Pair) -> Seq<ExpV>
    decreases p,
{
    match p {
        Pair::Nil => Seq::empty(),
        Pair::Cons(x, y) => seq![exp_view(*x)].add(pair_views(*y)),
    }
}

/// The shapes of a sequence of expressions.
pub open spec fn views_of_exps(v: Seq<Exp>) -> Seq<ExpV> {
    Seq::new(v.len(), |i: int| exp_view(v[i]))
}

/// A spine's element shapes are its elements' shapes.
pub proof fn lemma_pair_views_elems(p: Pair)
    ensures
        pair_views(p) == views_of_exps(pair_elems(p)),
    decreases p,
{
    match p {
        Pair::Nil => {
            assert(pair_views(p) =~= views_of_exps(pair_elems(p)));
        },
        Pair::Cons(x, y) => {
            lemma_pair_views_elems(*y);
            assert(forall|i: int|
                0 <= i < pair_elems(*y).len() ==> #[trigger] pair_elems(Pair::Cons(x, y))[i + 1]
                    == pair_elems(*y)[i]);
            assert(pair_views(p) =~= views_of_exps(pair_elems(p)));
        },
    }
}

/// The elements of a list expression, in order.
pub open spec fn elems_of(e: Exp) -> Seq<Exp> {
    match e {
        Exp::List(p) => pair_elems(p),
        _ => Seq::empty(),
    }
}

/// The elements of a list spine, in order.
pub open spec fn pair_elems(p: Pair) -> Seq<Exp>
    decreases p,
{
    match p {
        Pair::Nil => Seq::empty(),
        Pair::Cons(x, y) => seq![*x].add(pair_elems(*y)),
    }
}

/// Structural equality on expressions, with strings compared by view.
pub open spec fn exp_eq(a: Exp, b: Exp) -> bool
    decreases a,
{
    match (a, b) {
        (Exp::FloatNumber(x), Exp::FloatNumber(y)) => x@ == y@,
        (Exp::Integer(x), Exp::Integer(y)) => x == y,
        (Exp::List(p), Exp::List(q)) => pair_eq(p, q),
        (Exp::Symbol(x), Exp::Symbol(y)) => x@ == y@,
        (Exp::Quote(x), Exp::Quote(y)) => x@ == y@,
        (Exp::SchemeString(x), Exp::SchemeString(y)) => x@ == y@,
        (Exp::Bool(x), Exp::Bool(y)) => x == y,
        (Exp::Index(x), Exp::Index(y)) => x == y,
        _ => false,
    }
}

/// Structural equality on list spines, with strings compared by view.
pub open spec fn pair_eq(p: Pair, q: Pair) -> bool
    decreases p,
{
    match (p, q) {
        (Pair::Nil, Pair::Nil) => true,
        (Pair::Cons(x, y), Pair::Cons(z, w)) => exp_eq(*x, *z) && pair_eq(*y, *w),
        _ => false,
    }
}

impl Clone for Pair {
    /// A deep copy that is equal to the original.
    fn clone(&self) -> (res: Self)
        ensures
            res == *self,
        decreases self,
    {
        match self {
            Pair::Nil => Pair::Nil,
            Pair::Cons(x, y) => Pair::Cons(Box::new((**x).clone()), Box::new((**y).clone())),
        }
    }
}

impl Clone for Exp {
    /// A deep copy that is equal to the original.
    fn clone(&self) -> (res: Self)
        ensures
            res == *self,
        decreases self,
    {
        match self {
            Exp::FloatNumber(s) => Exp::FloatNumber(s.clone()),
            Exp::Integer(i) => Exp::Integer(*i),
            Exp::List(p) => Exp::List(p.clone()),
            Exp::Symbol(s) => Exp::Symbol(s.clone()),
            Exp::Quote(s) => Exp::Quote(s.clone()),
            Exp::SchemeString(s) => Exp::SchemeString(s.clone()),
            Exp::Bool(b) => Exp::Bool(*b),
            Exp::Index(i) => Exp::Index(*i),
        }
    }
}

/// Exec structural equality, deciding `exp_eq`.
pub fn exp_equal(a: &Exp, b: &Exp) -> (r: bool)
    ensures
        r == exp_eq(*a, *b),
    decreases a,
{
    match (a, b) {
        (Exp::FloatNumber(x), Exp::FloatNumber(y)) => *x == *y,
        (Exp::Integer(x), Exp::Integer(y)) => x == y,
        (Exp::List(p), Exp::List(q)) => pair_equal(p, q),
        (Exp::Symbol(x), Exp::Symbol(y)) => *x == *y,
        (Exp::Quote(x), Exp::Quote(y)) => *x == *y,
        (Exp::SchemeString(x), Exp::SchemeString(y)) => *x == *y,
        (Exp::Bool(x), Exp::Bool(y)) => x == y,
        (Exp::Index(x), Exp::Index(y)) => x == y,
        _ => false,
    }
}

/// Exec structural equality on spines, deciding `pair_eq`.
pub fn pair_equal(p: &Pair, q: &Pair) -> (r: bool)
    ensures
        r == pair_eq(*p, *q),
    decreases p,
{
    match (p, q) {
        (Pair::Nil, Pair::Nil) => true,
        (Pair::Cons(x, y), Pair::Cons(z, w)) => exp_equal(x, z) && pair_equal(y, w),
        _ => false,
    }
}

impl Exp {
    /// Whether this is a non-empty list.
    pub fn is_pair(&self) -> (r: bool)
        ensures
            r == self.spec_is_pair(),
    {
        match self {
            Exp::List(x) => match x {
                Pair::Nil => false,
                _ => true,
            },
            _ => false,
        }
    }

    pub open spec fn spec_is_pair(&self) -> bool {
        match self {
            Exp::List(Pair::Nil) => false,
            Exp::List(_) => true,
            _ => false,
        }
    }

    /// Whether this is a list, empty or not.
    pub fn is_list(&self) -> (r: bool)
        ensures
            r == (*self matches Exp::List(_)),
    {
        match self {
            Exp::List(_x) => true,
            _ => false,
        }
    }

    /// Whether this is a number atom (float or integer).
    pub fn is_number(&self) -> (r: bool)
        ensures
            r == (*self matches Exp::FloatNumber(_) || *self matches Exp::Integer(_)),
    {
        match self {
            Exp::FloatNumber(_x) => true,
            Exp::Integer(_x) => true,
            _ => false,
        }
    }

    pub fn is_string(&self) -> (r: bool)
        ensures
            r == (*self matches Exp::SchemeString(_)),
    {
        match self {
            Exp::SchemeString(_x) => true,
            _ => false,
        }
    }

    pub fn is_quote(&self) -> (r: bool)
        ensures
            r == (*self matches Exp::Quote(_)),
    {
        match self {
            Exp::Quote(_x) => true,
            _ => false,
        }
    }

    pub fn is_bool(&self) -> (r: bool)
        ensures
            r == (*self matches Exp::Bool(_)),
    {
        match self {
            Exp::Bool(_x) => true,
            _ => false,
        }
    }

    /// Whether this is the empty list.
    pub fn is_null(&self) -> (r: bool)
        ensures
            r == (*self matches Exp::List(Pair::Nil)),
    {
        match self {
            Exp::List(Pair::Nil) => true,
            _ => false,
        }
    }

    pub fn is_symbol(&self) -> (r: bool)
        ensures
            r == (*self matches Exp::Symbol(_)),
    {
        match self {
            Exp::Symbol(_x) => true,
            _ => false,
        }
    }

    /// Whether a datum evaluates to itself: numbers, strings and
    /// quotations do, and a list does when every element does.
    /// Symbols (variables) and the machine-level atoms do not.
    pub open spec fn spec_is_self_evaluating(&self) -> bool
        decreases self,
    {
        match self {
            Exp::FloatNumber(_) => true,
            Exp::Integer(_) => true,
            Exp::SchemeString(_) => true,
            Exp::Quote(_) => true,
            Exp::List(p) => spec_all_self_evaluating(*p),
            _ => false,
        }
    }

    /// Decides `spec_is_self_evaluating`.
    pub fn is_self_evuluating_list(&self) -> (r: bool)
        ensures
            r == self.spec_is_self_evaluating(),
        decreases self,
    {
        match self {
            Exp::FloatNumber(_) => true,
            Exp::Integer(_) => true,
            Exp::SchemeString(_) => true,
            Exp::Quote(_) => true,
            Exp::List(p) => all_self_evaluating(p),
            _ => false,
        }
    }

    /// Converts an atom into the machine value a register stores.
    /// Lists have no scalar form: they live in the heap, and a
    /// register then holds their index.
    pub fn exp_to_object(&self) -> (r: Result<Object, MachineError>)
        ensures
            match r {
                Ok(o) => o == self.spec_to_object() && !(*self matches Exp::List(_)),
                Err(e) => *self matches Exp::List(_) && e == MachineError::SyntaxError,
            },
    {
        match self {
            Exp::FloatNumber(x) => Ok(Object::Number(x.clone())),
            Exp::Integer(x) => Ok(Object::Integer(*x)),
            Exp::Symbol(x) => Ok(Object::Symbol(x.clone())),
            Exp::Quote(x) => Ok(Object::Symbol(x.clone())),
            Exp::Bool(x) => Ok(Object::Bool(*x)),
            Exp::Index(x) => Ok(Object::Index(*x)),
            Exp::SchemeString(x) => Ok(Object::LispString(x.clone())),
            Exp::List(_) => Err(MachineError::SyntaxError),
        }
    }

    /// The machine value an atom converts to.  A quote becomes a
    /// symbol, as the reader's quote notation is symbol-like data.
    pub open spec fn spec_to_object(&self) -> Object {
        match self {
            Exp::FloatNumber(x) => Object::Number(*x),
            Exp::Integer(x) => Object::Integer(*x),
            Exp::Symbol(x) => Object::Symbol(*x),
            Exp::Quote(x) => Object::Symbol(*x),
            Exp::Bool(x) => Object::Bool(*x),
            Exp::Index(x) => Object::Index(*x),
            Exp::SchemeString(x) => Object::LispString(*x),
            Exp::List(_) => Object::Empty,
        }
    }
}

/// Every element of the spine evaluates to itself.
pub open spec fn spec_all_self_evaluating(p: Pair) -> bool
    decreases p,
{
    match p {
        Pair::Nil => true,
        Pair::Cons(x, y) => x.spec_is_self_evaluating() && spec_all_self_evaluating(*y),
    }
}

/// Decides `spec_all_self_evaluating`.
fn all_self_evaluating(p: &Pair) -> (r: bool)
    ensures
        r == spec_all_self_evaluating(*p),
    decreases p,
{
    match p {
        Pair::Nil => true,
        Pair::Cons(x, y) => x.is_self_evuluating_list() && all_self_evaluating(y),
    }
}

/// Scheme `cons`: prepends `lhs` onto a list `rhs`; a non-list `rhs`
/// is first wrapped into a one-element list, so the result is always
/// a proper list.
pub fn scheme_cons(lhs: Exp, rhs: Exp) -> (r: Exp)
    ensures
        match rhs {
            Exp::List(q) => r == Exp::List(Pair::Cons(Box::new(lhs), Box::new(q))),
            _ => (r matches Exp::List(_)) && elems_of(r) == seq![lhs, rhs],
        },
{
    let ghost glhs = lhs;
    let ghost grhs = rhs;
    match rhs {
        Exp::List(x) => {
            let s1 = Box::new(lhs);
            let s2 = Box::new(x);
            Exp::List(Pair::Cons(s1, s2))
        },
        _ => {
            let s1 = Box::new(Pair::Nil);
            let s2 = Box::new(rhs);
            let s3 = Pair::Cons(s2, s1);
            let ghost gs3 = s3;
            let s4 = Box::new(s3);
            let s5 = Box::new(lhs);
            let r = Exp::List(Pair::Cons(s5, s4));
            proof {
                assert(pair_elems(Pair::Nil) =~= Seq::<Exp>::empty());
                assert(pair_elems(gs3) =~= seq![grhs]);
                assert(elems_of(r) =~= seq![glhs, grhs]);
            }
            r
        },
    }
}

/// Appends `rhs` to the spine `p`: for a list `rhs` the elements are
/// concatenated; a non-list `rhs` becomes the tail, so it is returned
/// unchanged when `p` is empty and becomes the last element otherwise.
fn append_pair(p: Pair, rhs: Exp) -> (r: Exp)
    ensures
        match rhs {
            Exp::List(q) => (r matches Exp::List(_)) && elems_of(r) == pair_elems(p).add(
                pair_elems(q),
            ),
            _ => match p {
                Pair::Nil => r == rhs,
                _ => (r matches Exp::List(_)) && elems_of(r) == pair_elems(p).push(rhs),
            },
        },
    decreases p,
{
    let ghost gp = p;
    let ghost grhs = rhs;
    match p {
        Pair::Nil => {
            proof {
                if grhs matches Exp::List(_) {
                    assert(elems_of(grhs) =~= pair_elems(Pair::Nil).add(elems_of(grhs)));
                }
            }
            rhs
        },
        Pair::Cons(x, y) => {
            let ghost gx = *x;
            let ghost gy = *y;
            let rest = append_pair(*y, rhs);
            let ghost grest = rest;
            let out = scheme_cons(*x, rest);
            let ghost gout = out;
            proof {
                match (grest, gout) {
                    (Exp::List(restp), Exp::List(outp)) => {
                        assert(pair_elems(outp) =~= seq![gx].add(pair_elems(restp)));
                    },
                    _ => {},
                }
                match grhs {
                    Exp::List(q) => {
                        assert(elems_of(gout) =~= pair_elems(gp).add(pair_elems(q)));
                    },
                    _ => {
                        match gy {
                            Pair::Nil => {
                                assert(grest == grhs);
                                assert(elems_of(gout) =~= seq![gx, grhs]);
                                assert(pair_elems(gp) =~= seq![gx]);
                                assert(elems_of(gout) =~= pair_elems(gp).push(grhs));
                            },
                            _ => {
                                assert(elems_of(grest) == pair_elems(gy).push(grhs));
                                assert(elems_of(gout) =~= seq![gx].add(
                                    pair_elems(gy).push(grhs),
                                ));
                                assert(pair_elems(gp) =~= seq![gx].add(pair_elems(gy)));
                                assert(elems_of(gout) =~= pair_elems(gp).push(grhs));
                            },
                        }
                    },
                }
            }
            out
        },
    }
}

/// Scheme `append`.  For a list `rhs` the result's elements are the
/// two element sequences concatenated; a non-list `rhs` becomes the
/// last element (or, when `lhs` is empty, is returned unchanged).
/// An error when `lhs` is not a list.
pub fn append(lhs: Exp, rhs: Exp) -> (r: Result<Exp, MachineError>)
    ensures
        match r {
            Ok(out) => (lhs matches Exp::List(_)) && match (lhs, rhs) {
                (Exp::List(p), Exp::List(q)) => (out matches Exp::List(_)) && elems_of(out)
                    == pair_elems(p).add(pair_elems(q)),
                (Exp::List(p), _) => match p {
                    Pair::Nil => out == rhs,
                    _ => (out matches Exp::List(_)) && elems_of(out) == pair_elems(p).push(rhs),
                },
                _ => false,
            },
            Err(e) => !(lhs matches Exp::List(_)) && e == MachineError::SyntaxError,
        },
{
    match lhs {
        Exp::List(p) => Ok(append_pair(p, rhs)),
        _ => Err(MachineError::SyntaxError),
    }
}

/// `car` of a non-empty list; an error on anything else.
pub fn car(exp: &Exp) -> (r: Result<Exp, &'static str>)
    ensures
        match r {
            Ok(out) => exp.spec_is_pair() && elems_of(*exp).len() >= 1 && out == elems_of(
                *exp,
            )[0],
            Err(_) => !exp.spec_is_pair(),
        },
{
    match exp {
        Exp::List(Pair::Cons(x, _y)) => Ok((**x).clone()),
        _ => Err("not a proper list!"),
    }
}

/// `cdr` of a non-empty list: the list of its remaining elements.
pub fn cdr(exp: &Exp) -> (r: Result<Exp, &'static str>)
    ensures
        match r {
            Ok(out) => exp.spec_is_pair() && elems_of(*exp).len() >= 1 && (out matches Exp::List(
                _,
            )) && elems_of(out) == elems_of(*exp).drop_first(),
            Err(_) => !exp.spec_is_pair(),
        },
{
    match exp {
        Exp::List(Pair::Cons(_x, y)) => {
            let z = Exp::List((**y).clone());
            proof {
                assert(elems_of(z) =~= elems_of(*exp).drop_first());
            }
            Ok(z)
        },
        _ => Err("not a proper lsit!"),
    }
}

/// Replaces the first element of a non-empty list.
pub fn set_car(x: Exp, y: Exp) -> (r: Result<Exp, &'static str>)
    ensures
        match r {
            Ok(out) => x.spec_is_pair() && (out matches Exp::List(_)) && elems_of(out)
                == elems_of(x).update(0, y),
            Err(_) => !x.spec_is_pair(),
        },
{
    if let Exp::List(Pair::Cons(_lhs, rhs)) = x {
        let out = Exp::List(Pair::Cons(Box::new(y), rhs));
        proof {
            assert(elems_of(out) =~= elems_of(x).update(0, y));
        }
        Ok(out)
    } else {
        Err("error happens!")
    }
}

/// Replaces the tail of a non-empty list: keeps the first element and
/// conses it onto `y`.
pub fn set_cdr(x: Exp, y: Exp) -> (r: Result<Exp, &'static str>)
    ensures
        match r {
            Ok(out) => x.spec_is_pair() && match y {
                Exp::List(q) => out == Exp::List(
                    Pair::Cons(Box::new(elems_of(x)[0]), Box::new(q)),
                ),
                _ => out matches Exp::List(_) && elems_of(out) == seq![
                    elems_of(x)[0],
                    y,
                ],
            },
            Err(_) => !x.spec_is_pair(),
        },
{
    if let Exp::List(Pair::Cons(lhs, _rhs)) = x {
        Ok(scheme_cons(*lhs, y))
    } else {
        Err("error happens!")
    }
}

/// The number of elements of a spine; an error when the count would
/// not fit an `i32`.
fn pair_length(p: &Pair) -> (r: Result<i32, &'static str>)
    ensures
        match r {
            Ok(n) => n == pair_elems(*p).len(),
            Err(_) => pair_elems(*p).len() > i32::MAX,
        },
    decreases p,
{
    match p {
        Pair::Nil => Ok(0),
        Pair::Cons(_x, y) => {
            let n = pair_length(y)?;
            if n == i32::MAX {
                Err("list too long")
            } else {
                Ok(n + 1)
            }
        },
    }
}

/// The number of elements of a list; an error on a non-list or a list
/// longer than an `i32` can count.
pub fn list_length(exp: &Exp) -> (r: Result<i32, &'static str>)
    ensures
        match r {
            Ok(n) => (*exp matches Exp::List(_)) && n == elems_of(*exp).len(),
            Err(_) => !(*exp matches Exp::List(_)) || elems_of(*exp).len() > i32::MAX,
        },
{
    match exp {
        Exp::List(p) => pair_length(p),
        _ => Err("not a proper list!"),
    }
}

/// A found association at position `m`: the element is a non-empty
/// list whose first element equals the key, and no earlier element
/// matched (every earlier one being a non-empty list).
pub open spec fn spec_assoc_found_at(elems: Seq<Exp>, key: Exp, entry: Exp, m: int) -> bool {
    &&& 0 <= m < elems.len()
    &&& elems[m] == entry
    &&& entry.spec_is_pair()
    &&& exp_eq(elems_of(entry)[0], key)
    &&& forall|q: int|
        0 <= q < m ==> (#[trigger] elems[q]).spec_is_pair() && !exp_eq(elems_of(elems[q])[0], key)
}

/// A failed association scan stopping at position `m`: every earlier
/// element is a non-matching non-empty list, and `m` is the spine's
/// end or its first element that is no non-empty list.
pub open spec fn spec_assoc_none_at(elems: Seq<Exp>, key: Exp, m: int) -> bool {
    &&& 0 <= m <= elems.len()
    &&& (m == elems.len() || !elems[m].spec_is_pair())
    &&& forall|q: int|
        0 <= q < m ==> (#[trigger] elems[q]).spec_is_pair() && !exp_eq(elems_of(elems[q])[0], key)
}

/// What an association search answers for a spine: either a first
/// match, or a scan that ran out without one.
pub open spec fn spec_assoc_post(elems: Seq<Exp>, key: Exp, r: Option<Exp>) -> bool {
    match r {
        Some(entry) => exists|m: int| #[trigger] spec_assoc_found_at(elems, key, entry, m),
        None => exists|m: int| #[trigger] spec_assoc_none_at(elems, key, m),
    }
}

/// Searches an association spine for the first entry (itself a
/// non-empty list) whose first element equals `key` structurally.
/// The search stops with `None` at the spine's end or at the first
/// element that is not a non-empty list.
fn pair_assoc(p: &Pair, key: &Exp) -> (r: Option<Exp>)
    ensures
        spec_assoc_post(pair_elems(*p), *key, r),
    decreases p,
{
    let ghost elems = pair_elems(*p);
    match p {
        Pair::Cons(x, y) => {
            proof {
                assert(elems[0] == **x);
            }
            match &**x {
                Exp::List(Pair::Cons(k, _v)) => {
                    if exp_equal(k, key) {
                        let entry = (**x).clone();
                        proof {
                            assert(elems_of(**x)[0] == **k);
                            assert(spec_assoc_found_at(elems, *key, entry, 0));
                        }
                        return Some(entry);
                    }
                    proof {
                        assert(elems_of(**x)[0] == **k);
                        assert(elems[0].spec_is_pair());
                        assert(!exp_eq(elems_of(elems[0])[0], *key));
                    }
                },
                _ => {
                    proof {
                        assert(spec_assoc_none_at(elems, *key, 0));
                    }
                    return None;
                },
            }
            let rest = pair_assoc(y, key);
            proof {
                let sub = pair_elems(**y);
                assert(forall|q: int| 0 <= q < sub.len() ==> #[trigger] sub[q] == elems[q + 1]);
                match &rest {
                    Some(entry) => {
                        let m = choose|m: int| spec_assoc_found_at(sub, *key, *entry, m);
                        assert(elems[m + 1] == *entry);
                        assert(spec_assoc_found_at(elems, *key, *entry, m + 1));
                    },
                    None => {
                        let m = choose|m: int| spec_assoc_none_at(sub, *key, m);
                        if m < sub.len() {
                            assert(sub[m] == elems[m + 1]);
                        }
                        assert(spec_assoc_none_at(elems, *key, m + 1));
                    },
                }
            }
            rest
        },
        Pair::Nil => {
            proof {
                assert(spec_assoc_none_at(elems, *key, 0));
            }
            None
        },
    }
}

/// Looks an association list up by key: returns the first element
/// whose own first element equals `key` (structurally, strings by
/// view), with `None` exactly when the scan found no match before
/// the list's end or its first non-list element.  A non-list `items`
/// answers `None` at once.
pub fn scheme_assoc(items: &Exp, key: &Exp) -> (r: Option<Exp>)
    ensures
        match items {
            Exp::List(p) => spec_assoc_post(pair_elems(*p), *key, r),
            _ => r is None,
        },
{
    match items {
        Exp::List(p) => pair_assoc(p, key),
        _ => None,
    }
}

} // verus!