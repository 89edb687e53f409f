//! List accessors over symbolic expressions, and the tagged-list
//! test the assembler classifies instruction forms with.  The wider
//! library of native operations (arithmetic, environment frames) is
//! the embedder's, not the core's: the machine only dispatches to it
//! by name.

use vstd::prelude::*;

use crate::errors::MachineError;
use crate::tpfordev::{car, cdr, elems_of, exp_eq, Exp, Pair};

verus! {

/// The second element of a list.
pub fn cadr(exp: &Exp) -> (r: Result<Exp, &'static str>)
    ensures
        match r {
            Ok(out) => elems_of(*exp).len() >= 2 && out == elems_of(*exp)[1],
            Err(_) => !(*exp matches Exp::List(_)) || elems_of(*exp).len() < 2,
        },
{
    let s = cdr(exp)?;
    let out = car(&s)?;
    proof {
        assert(elems_of(*exp).drop_first()[0] == elems_of(*exp)[1]);
    }
    Ok(out)
}

/// The list of elements from the third on.
pub fn cddr(exp: &Exp) -> (r: Result<Exp, &'static str>)
    ensures
        match r {
            Ok(out) => elems_of(*exp).len() >= 2 && (out matches Exp::List(_)) && elems_of(out)
                == elems_of(*exp).skip(2),
            Err(_) => !(*exp matches Exp::List(_)) || elems_of(*exp).len() < 2,
        },
{
    let s1 = cdr(exp)?;
    let out = cdr(&s1)?;
    proof {
        assert(elems_of(out) =~= elems_of(*exp).skip(2));
    }
    Ok(out)
}

/// The first element of the first element.
pub fn caar(exp: &Exp) -> (r: Result<Exp, &'static str>)
    ensures
        match r {
            Ok(out) => elems_of(*exp).len() >= 1 && elems_of(elems_of(*exp)[0]).len() >= 1 && out
                == elems_of(elems_of(*exp)[0])[0],
            Err(_) => !exp.spec_is_pair() || !elems_of(*exp)[0].spec_is_pair(),
        },
{
    let s1 = car(exp)?;
    car(&s1)
}

/// The tail of the first element.
pub fn cdar(exp: &Exp) -> (r: Result<Exp, &'static str>)
    ensures
        match r {
            Ok(out) => elems_of(*exp).len() >= 1 && elems_of(elems_of(*exp)[0]).len() >= 1 && (
            out matches Exp::List(_)) && elems_of(out) == elems_of(
                elems_of(*exp)[0],
            ).drop_first(),
            Err(_) => !exp.spec_is_pair() || !elems_of(*exp)[0].spec_is_pair(),
        },
{
    let s1 = car(exp)?;
    cdr(&s1)
}

/// The list of elements from the fourth on.
pub fn cdddr(exp: &Exp) -> (r: Result<Exp, &'static str>)
    ensures
        match r {
            Ok(out) => elems_of(*exp).len() >= 3 && (out matches Exp::List(_)) && elems_of(out)
                == elems_of(*exp).skip(3),
            Err(_) => !(*exp matches Exp::List(_)) || elems_of(*exp).len() < 3,
        },
{
    let s1 = cddr(exp)?;
    let out = cdr(&s1)?;
    proof {
        assert(elems_of(out) =~= elems_of(*exp).skip(3));
    }
    Ok(out)
}

/// The fourth element of a list.
pub fn cadddr(exp: &Exp) -> (r: Result<Exp, &'static str>)
    ensures
        match r {
            Ok(out) => elems_of(*exp).len() >= 4 && out == elems_of(*exp)[3],
            Err(_) => !(*exp matches Exp::List(_)) || elems_of(*exp).len() < 4,
        },
{
    let s1 = cdddr(exp)?;
    let out = car(&s1)?;
    proof {
        assert(elems_of(*exp).skip(3)[0] == elems_of(*exp)[3]);
    }
    Ok(out)
}

/// The third element of a list.
pub fn caddr(exp: &Exp) -> (r: Result<Exp, &'static str>)
    ensures
        match r {
            Ok(out) => elems_of(*exp).len() >= 3 && out == elems_of(*exp)[2],
            Err(_) => !(*exp matches Exp::List(_)) || elems_of(*exp).len() < 3,
        },
{
    let s1 = cddr(exp)?;
    let out = car(&s1)?;
    proof {
        assert(elems_of(*exp).skip(2)[0] == elems_of(*exp)[2]);
    }
    Ok(out)
}

/// The first element of the second element.
pub fn caadr(exp: &Exp) -> (r: Result<Exp, &'static str>)
    ensures
        match r {
            Ok(out) => elems_of(*exp).len() >= 2 && elems_of(elems_of(*exp)[1]).len() >= 1 && out
                == elems_of(elems_of(*exp)[1])[0],
            Err(_) => !(*exp matches Exp::List(_)) || elems_of(*exp).len() < 2 || !elems_of(
                *exp,
            )[1].spec_is_pair(),
        },
{
    let s1 = cadr(exp)?;
    car(&s1)
}

/// The tail of the second element.
pub fn cdadr(exp: &Exp) -> (r: Result<Exp, &'static str>)
    ensures
        match r {
            Ok(out) => elems_of(*exp).len() >= 2 && elems_of(elems_of(*exp)[1]).len() >= 1 && (
            out matches Exp::List(_)) && elems_of(out) == elems_of(
                elems_of(*exp)[1],
            ).drop_first(),
            Err(_) => !(*exp matches Exp::List(_)) || elems_of(*exp).len() < 2 || !elems_of(
                *exp,
            )[1].spec_is_pair(),
        },
{
    let s1 = cadr(exp)?;
    cdr(&s1)
}

/// Whether a form carries a symbol tag: `args` is the two-element
/// list `(form tag)`, and the answer is whether `form` is a non-empty
/// list whose head is the symbol `tag`.  Fatal exactly when `args`
/// itself is no pair, or the form is a pair but the tag operand is
/// missing or no symbol (a non-pair form answers `false` first, as
/// the machine's own dispatch relies on).
pub fn is_tagged_list(args: &Exp) -> (r: Result<Exp, MachineError>)
    ensures
        match r {
            Ok(out) => elems_of(*args).len() >= 1 && match out {
                Exp::Bool(b) => if !elems_of(*args)[0].spec_is_pair() {
                    b == false
                } else {
                    elems_of(*args).len() >= 2 && (elems_of(*args)[1] matches Exp::Symbol(_)) && b
                        == exp_eq(elems_of(elems_of(*args)[0])[0], elems_of(*args)[1])
                },
                _ => false,
            },
            Err(e) => e == MachineError::SyntaxError && (!args.spec_is_pair() || (elems_of(
                *args,
            )[0].spec_is_pair() && (elems_of(*args).len() < 2 || !(elems_of(*args)[1] matches
            Exp::Symbol(_))))),
        },
{
    let exp = match car(args) {
        Ok(e) => e,
        Err(_) => {
            return Err(MachineError::SyntaxError);
        },
    };
    if !exp.is_pair() {
        return Ok(Exp::Bool(false));
    }
    let tag = match cadr(args) {
        Ok(t) => t,
        Err(_) => {
            return Err(MachineError::SyntaxError);
        },
    };
    if let Exp::Symbol(y) = tag {
        let head = match car(&exp) {
            Ok(h) => h,
            Err(_) => {
                return Err(MachineError::SyntaxError);
            },
        };
        if let Exp::Symbol(x) = head {
            if x == y {
                Ok(Exp::Bool(true))
            } else {
                Ok(Exp::Bool(false))
            }
        } else {
            Ok(Exp::Bool(false))
        }
    } else {
        Err(MachineError::SyntaxError)
    }
}

} // verus!
