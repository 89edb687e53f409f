//! A register: a name and one current machine value, overwritten in
//! place and never aliased.  A register that holds a heap index can
//! read the list structure behind it back out of memory as text.

use vstd::prelude::*;

use crate::errors::MachineError;
use crate::memory::Memory;
use crate::parserfordev::{spec_int_str, push_i32, push_usize};
use crate::representation::Object;

verus! {

/// A named mutable value slot.  A fresh register holds the quoted
/// marker `unsigned`, the machine's "not yet assigned" value.
pub struct Register {
    pub name: &'static str,
    pub contents: Object,
}

impl Register {
    /// A fresh register named `s`, holding the unassigned marker.
    pub fn new(s: &'static str) -> (r: Self)
        ensures
            r.name@ == s@,
            r.contents matches Object::Quote(q) && q@ == "unsigned"@,
    {
        Register { name: s, contents: Object::Quote(String::from_str("unsigned")) }
    }

    /// The current value.
    pub fn get(&self) -> (r: &Object)
        ensures
            r == &self.contents,
    {
        &self.contents
    }

    /// Overwrites the value.
    pub fn set(&mut self, val: Object)
        ensures
            final (self).contents == val,
            final (self).name == old(self).name,
    {
        self.contents = val;
    }

    /// The heap index this register holds; fatal when it holds
    /// anything else.
    pub fn get_memory_index(&self) -> (r: Result<usize, MachineError>)
        ensures
            match r {
                Ok(i) => self.contents == Object::Index(i),
                Err(e) => !(self.contents matches Object::Index(_)) && e
                    == MachineError::NotAnIndex,
            },
    {
        if let Object::Index(x) = &self.contents {
            Ok(*x)
        } else {
            Err(MachineError::NotAnIndex)
        }
    }

    /// The car of the cell this register points at.
    pub fn car(&self, memory: &Memory) -> (r: Result<Object, MachineError>)
        ensures
            match r {
                Ok(o) => self.contents matches Object::Index(i) && i < memory.the_cars@.len() && o
                    == memory.the_cars@[self.contents->Index_0 as int],
                Err(_) => !(self.contents matches Object::Index(_)) || self.contents->Index_0
                    >= memory.the_cars@.len(),
            },
    {
        let i = self.get_memory_index()?;
        memory.car(i)
    }

    /// The cdr of the cell this register points at.
    pub fn cdr(&self, memory: &Memory) -> (r: Result<Object, MachineError>)
        ensures
            match r {
                Ok(o) => self.contents matches Object::Index(i) && i < memory.the_cdrs@.len() && o
                    == memory.the_cdrs@[self.contents->Index_0 as int],
                Err(_) => !(self.contents matches Object::Index(_)) || self.contents->Index_0
                    >= memory.the_cdrs@.len(),
            },
    {
        let i = self.get_memory_index()?;
        memory.cdr(i)
    }

    /// Renders the list rooted at this register's index as text; see
    /// `spec_cell_render` for the exact form.  Fatal when the
    /// register holds no index, the index is out of bounds, or the
    /// structure is no well-formed list of the generation's size.
    pub fn get_list_frome_memory_as_str(&self, memory: &Memory) -> (r: Result<
        String,
        MachineError,
    >)
        requires
            memory.wf(),
        ensures
            match r {
                Ok(s) => self.contents matches Object::Index(i) && i < memory.the_cars@.len()
                    && Some(s@) == spec_list_render(
                    memory.the_cars@,
                    memory.the_cdrs@,
                    self.contents->Index_0 as int,
                    memory.the_cars@.len() as nat,
                ),
                Err(e) => (!(self.contents matches Object::Index(_)) || self.contents->Index_0
                    >= memory.the_cars@.len() || spec_list_render(
                    memory.the_cars@,
                    memory.the_cdrs@,
                    self.contents->Index_0 as int,
                    memory.the_cars@.len() as nat,
                ) is None) && (e == MachineError::NotAnIndex || e == MachineError::IndexOutOfBounds
                    || e == MachineError::SyntaxError || e == MachineError::StructureTooDeep),
            },
    {
        let i = self.get_memory_index()?;
        if i >= memory.capacity() {
            return Err(MachineError::IndexOutOfBounds);
        }
        let mut s = String::from_str("(");
        proof {
            reveal_strlit("(");
            assert("("@ =~= seq!['(']);
        }
        let fuel = memory.capacity();
        render_cell_iter(&mut s, memory, i, fuel)?;
        proof {
            assert(seq!['('].add(
                spec_cell_render(
                    memory.the_cars@,
                    memory.the_cdrs@,
                    i as int,
                    memory.the_cars@.len() as nat,
                ).unwrap(),
            ) == spec_list_render(
                memory.the_cars@,
                memory.the_cdrs@,
                i as int,
                memory.the_cars@.len() as nat,
            ).unwrap());
        }
        Ok(s)
    }
}

/// The text of one atom in a cell's car position: a leading space,
/// then the value (strings quoted, quote marks kept).  `None` for a
/// value that cannot stand in a rendered list.
pub open spec fn spec_atom_render(o: Object) -> Option<Seq<char>> {
    match o {
        Object::Bool(b) => if b {
            Some(seq![' ', 't', 'r', 'u', 'e'])
        } else {
            Some(seq![' ', 'f', 'a', 'l', 's', 'e'])
        },
        Object::Integer(x) => Some(seq![' '].add(spec_int_str(x as int))),
        Object::LispString(x) => Some(seq![' ', '"'].add(x@).push('"')),
        Object::Number(x) => Some(seq![' '].add(x@)),
        Object::Quote(x) => Some(seq![' ', '\''].add(x@)),
        Object::Symbol(x) => Some(seq![' '].add(x@)),
        _ => None,
    }
}

/// The rendering of the cell at `i`: its car (an atom's text, or a
/// nested parenthesized list), then its cdr (a closing parenthesis at
/// the end of the list, or the next cell's rendering).  `None` when
/// the structure is malformed or deeper than the fuel allows.
pub open spec fn spec_cell_render(
    cars: Seq<Object>,
    cdrs: Seq<Object>,
    i: int,
    fuel: nat,
) -> Option<Seq<char>>
    decreases fuel, 0int,
{
    if fuel == 0 || !(0 <= i < cars.len()) {
        None
    } else {
        let car_part = match cars[i] {
            Object::Pair(x) => match spec_list_render(cars, cdrs, x as int, (fuel - 1) as nat) {
                Some(t) => Some(t),
                None => None,
            },
            other => spec_atom_render(other),
        };
        match car_part {
            None => None,
            Some(cp) => match cdrs[i] {
                Object::Nil => Some(cp.push(')')),
                Object::Pair(x) => match spec_cell_render(cars, cdrs, x as int, (fuel - 1) as nat) {
                    Some(rest) => Some(cp.add(rest)),
                    None => None,
                },
                _ => None,
            },
        }
    }
}

/// A whole list's rendering: an opening parenthesis, then the first
/// cell's rendering.
pub open spec fn spec_list_render(
    cars: Seq<Object>,
    cdrs: Seq<Object>,
    i: int,
    fuel: nat,
) -> Option<Seq<char>>
    decreases fuel, 1int,
{
    match spec_cell_render(cars, cdrs, i, fuel) {
        Some(t) => Some(seq!['('].add(t)),
        None => None,
    }
}

/// Appends the rendering of the cell at `i` to `s`; an error leaves
/// `s` in an unspecified partial state, exactly when the spec gives
/// `None`.
fn render_cell_iter(s: &mut String, memory: &Memory, i: usize, fuel: usize) -> (r: Result<
    (),
    MachineError,
>)
    requires
        memory.wf(),
    ensures
        match r {
            Ok(_) => spec_cell_render(
                memory.the_cars@,
                memory.the_cdrs@,
                i as int,
                fuel as nat,
            ) matches Some(t) && final (s)@ == old(s)@.add(t),
            Err(e) => spec_cell_render(memory.the_cars@, memory.the_cdrs@, i as int, fuel as nat)
                is None && (e == MachineError::IndexOutOfBounds || e == MachineError::SyntaxError
                || e == MachineError::StructureTooDeep),
        },
    decreases fuel,
{
    let ghost s0 = s@;
    if fuel == 0 {
        return Err(MachineError::StructureTooDeep);
    }
    if i >= memory.capacity() {
        return Err(MachineError::IndexOutOfBounds);
    }
    let car_item = &memory.the_cars[i];
    match car_item {
        Object::Bool(b) => {
            if *b {
                s.append(" true");
                proof {
                    reveal_strlit(" true");
                    assert(" true"@ =~= seq![' ', 't', 'r', 'u', 'e']);
                }
            } else {
                s.append(" false");
                proof {
                    reveal_strlit(" false");
                    assert(" false"@ =~= seq![' ', 'f', 'a', 'l', 's', 'e']);
                }
            }
        },
        Object::Integer(x) => {
            s.append(" ");
            push_i32(s, *x);
            proof {
                reveal_strlit(" ");
                assert(" "@ =~= seq![' ']);
                assert(s@ =~= s0.add(seq![' '].add(spec_int_str(*x as int))));
            }
        },
        Object::LispString(x) => {
            s.append(" \"");
            s.append(x.as_str());
            s.append("\"");
            proof {
                reveal_strlit(" \"");
                reveal_strlit("\"");
                assert(" \""@ =~= seq![' ', '"']);
                assert("\""@ =~= seq!['"']);
                assert(s@ =~= s0.add(seq![' ', '"'].add(x@).push('"')));
            }
        },
        Object::Number(x) => {
            s.append(" ");
            s.append(x.as_str());
            proof {
                reveal_strlit(" ");
                assert(" "@ =~= seq![' ']);
                assert(s@ =~= s0.add(seq![' '].add(x@)));
            }
        },
        Object::Quote(x) => {
            s.append(" '");
            s.append(x.as_str());
            proof {
                reveal_strlit(" '");
                assert(" '"@ =~= seq![' ', '\'']);
                assert(s@ =~= s0.add(seq![' ', '\''].add(x@)));
            }
        },
        Object::Symbol(x) => {
            s.append(" ");
            s.append(x.as_str());
            proof {
                reveal_strlit(" ");
                assert(" "@ =~= seq![' ']);
                assert(s@ =~= s0.add(seq![' '].add(x@)));
            }
        },
        Object::Pair(x) => {
            s.append("(");
            proof {
                reveal_strlit("(");
                assert("("@ =~= seq!['(']);
            }
            let xi = *x;
            render_cell_iter(s, memory, xi, fuel - 1)?;
            proof {
                let inner = spec_cell_render(
                    memory.the_cars@,
                    memory.the_cdrs@,
                    xi as int,
                    (fuel - 1) as nat,
                ).unwrap();
                assert(s@ =~= s0.add(seq!['('].add(inner)));
            }
        },
        _ => {
            return Err(MachineError::SyntaxError);
        },
    }
    let ghost car_text = s@.skip(s0.len() as int);
    proof {
        assert(s@ =~= s0.add(car_text));
        let cp = match memory.the_cars@[i as int] {
            Object::Pair(x) => spec_list_render(
                memory.the_cars@,
                memory.the_cdrs@,
                x as int,
                (fuel - 1) as nat,
            ).unwrap(),
            other => spec_atom_render(other).unwrap(),
        };
        assert(car_text =~= cp);
    }
    let cdr_item = &memory.the_cdrs[i];
    match cdr_item {
        Object::Nil => {
            s.append(")");
            proof {
                reveal_strlit(")");
                assert(")"@ =~= seq![')']);
                assert(s@ =~= s0.add(car_text.push(')')));
            }
            Ok(())
        },
        Object::Pair(x) => {
            let xi = *x;
            render_cell_iter(s, memory, xi, fuel - 1)?;
            proof {
                let rest = spec_cell_render(
                    memory.the_cars@,
                    memory.the_cdrs@,
                    xi as int,
                    (fuel - 1) as nat,
                ).unwrap();
                assert(s@ =~= s0.add(car_text.add(rest)));
            }
            Ok(())
        },
        _ => Err(MachineError::SyntaxError),
    }
}

} // verus!
