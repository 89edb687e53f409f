//! The two-generation cons-cell heap: two equal-capacity arenas, each
//! a pair of parallel arrays (car values and cdr values) indexed by
//! integer.  Exactly one arena is active at a time; `flip` exchanges
//! their roles and discards the previous active generation whole.
//! Every index-taking operation is fatal past the capacity.

use vstd::prelude::*;

use vstd::pervasive::VecAdditionalExecFns;

use crate::errors::MachineError;
use crate::parser::str_is;
use crate::representation::Object;
use crate::tpfordev::{Exp, Pair};

verus! {

/// The heap.  `the_cars`/`the_cdrs` form the active generation,
/// `new_cars`/`new_cdrs` the inactive one that the collector copies
/// into.  All four arrays always have the same length, the capacity.
pub struct Memory {
    pub the_cars: Vec<Object>,
    pub the_cdrs: Vec<Object>,
    pub new_cars: Vec<Object>,
    pub new_cdrs: Vec<Object>,
}

impl Memory {
    /// All four arrays have one common length.
    pub open spec fn wf(&self) -> bool {
        &&& self.the_cdrs@.len() == self.the_cars@.len()
        &&& self.new_cars@.len() == self.the_cars@.len()
        &&& self.new_cdrs@.len() == self.the_cars@.len()
    }

    /// The fixed number of cells in each generation.
    pub open spec fn spec_capacity(&self) -> int {
        self.the_cars@.len() as int
    }

    /// A fresh heap of `size` untouched cells per generation.
    pub fn new(size: usize) -> (r: Self)
        ensures
            r.wf(),
            r.spec_capacity() == size,
            forall|i: int|
                0 <= i < size ==> r.the_cars@[i] == Object::Empty && r.the_cdrs@[i]
                    == Object::Empty && r.new_cars@[i] == Object::Empty && #[trigger] r.new_cdrs@[i]
                    == Object::Empty,
    {
        let mut v: Vec<Object> = Vec::new();
        let mut i: usize = 0;
        while i < size
            invariant
                i <= size,
                v@.len() == i,
                forall|j: int| 0 <= j < i ==> #[trigger] v@[j] == Object::Empty,
            decreases size - i,
        {
            v.push(Object::Empty);
            i = i + 1;
        }
        Memory { the_cars: v.clone(), the_cdrs: v.clone(), new_cars: v.clone(), new_cdrs: v }
    }

    /// The capacity.
    pub fn capacity(&self) -> (r: usize)
        ensures
            r == self.spec_capacity(),
    {
        self.the_cars.len()
    }

    /// Writes `item` at `index` of the named array: `car`, `cdr`,
    /// `new_car` or `new_cdr`.  Fatal on an unknown name or an index
    /// past the capacity.
    pub fn update(&mut self, message: &str, item: Object, index: usize) -> (r: Result<
        (),
        MachineError,
    >)
        requires
            old(self).wf(),
        ensures
            final (self).wf(),
            final (self).spec_capacity() == old(self).spec_capacity(),
            match r {
                Ok(_) => {
                    &&& (message@ == "car"@ || message@ == "cdr"@ || message@ == "new_car"@
                        || message@ == "new_cdr"@)
                    &&& index < old(self).spec_capacity()
                    &&& (if message@ == "car"@ {
                        final (self).the_cars@ == old(self).the_cars@.update(index as int, item)
                    } else {
                        final (self).the_cars@ == old(self).the_cars@
                    })
                    &&& (if message@ == "cdr"@ {
                        final (self).the_cdrs@ == old(self).the_cdrs@.update(index as int, item)
                    } else {
                        final (self).the_cdrs@ == old(self).the_cdrs@
                    })
                    &&& (if message@ == "new_car"@ {
                        final (self).new_cars@ == old(self).new_cars@.update(index as int, item)
                    } else {
                        final (self).new_cars@ == old(self).new_cars@
                    })
                    &&& (if message@ == "new_cdr"@ {
                        final (self).new_cdrs@ == old(self).new_cdrs@.update(index as int, item)
                    } else {
                        final (self).new_cdrs@ == old(self).new_cdrs@
                    })
                },
                Err(e) => {
                    &&& *final (self) == *old(self)
                    &&& (if !(message@ == "car"@ || message@ == "cdr"@ || message@ == "new_car"@
                        || message@ == "new_cdr"@) {
                        e == MachineError::UnknownMemoryBlock
                    } else {
                        index >= old(self).spec_capacity() && e == MachineError::IndexOutOfBounds
                    })
                },
            },
    {
        proof {
            reveal_strlit("car");
            reveal_strlit("cdr");
            reveal_strlit("new_car");
            reveal_strlit("new_cdr");
            assert("car"@ != "cdr"@) by {
                assert("car"@[1] == 'a' && "cdr"@[1] == 'd');
            }
            assert("car"@ != "new_car"@ && "car"@ != "new_cdr"@ && "cdr"@ != "new_car"@ && "cdr"@
                != "new_cdr"@) by {
                assert("car"@.len() == 3 && "new_car"@.len() == 7 && "new_cdr"@.len() == 7);
            }
            assert("new_car"@ != "new_cdr"@) by {
                assert("new_car"@[5] == 'a' && "new_cdr"@[5] == 'd');
            }
        }
        let m = message.to_owned();
        if str_is(&m, "car") {
            if index < self.the_cars.len() {
                self.the_cars.set(index, item);
                Ok(())
            } else {
                Err(MachineError::IndexOutOfBounds)
            }
        } else if str_is(&m, "cdr") {
            if index < self.the_cdrs.len() {
                if index < self.the_cars.len() {
                    self.the_cdrs.set(index, item);
                    Ok(())
                } else {
                    Err(MachineError::IndexOutOfBounds)
                }
            } else {
                Err(MachineError::IndexOutOfBounds)
            }
        } else if str_is(&m, "new_car") {
            if index < self.new_cars.len() {
                if index < self.the_cars.len() {
                    self.new_cars.set(index, item);
                    Ok(())
                } else {
                    Err(MachineError::IndexOutOfBounds)
                }
            } else {
                Err(MachineError::IndexOutOfBounds)
            }
        } else if str_is(&m, "new_cdr") {
            if index < self.new_cdrs.len() {
                if index < self.the_cars.len() {
                    self.new_cdrs.set(index, item);
                    Ok(())
                } else {
                    Err(MachineError::IndexOutOfBounds)
                }
            } else {
                Err(MachineError::IndexOutOfBounds)
            }
        } else {
            Err(MachineError::UnknownMemoryBlock)
        }
    }

    /// Exchanges the roles of the two generations.  The previous
    /// active generation is discarded whole: its cells simply become
    /// the next collection's target space.
    pub fn flip(&mut self)
        ensures
            final (self).the_cars@ == old(self).new_cars@,
            final (self).the_cdrs@ == old(self).new_cdrs@,
            final (self).new_cars@ == old(self).the_cars@,
            final (self).new_cdrs@ == old(self).the_cdrs@,
    {
        let mut cars: Vec<Object> = Vec::new();
        let mut cdrs: Vec<Object> = Vec::new();
        core::mem::swap(&mut cars, &mut self.the_cars);
        core::mem::swap(&mut self.the_cars, &mut self.new_cars);
        core::mem::swap(&mut self.new_cars, &mut cars);
        core::mem::swap(&mut cdrs, &mut self.the_cdrs);
        core::mem::swap(&mut self.the_cdrs, &mut self.new_cdrs);
        core::mem::swap(&mut self.new_cdrs, &mut cdrs);
    }

    /// The car value at `i` of the active generation.
    pub fn car(&self, i: usize) -> (r: Result<Object, MachineError>)
        ensures
            match r {
                Ok(o) => i < self.the_cars@.len() && o == self.the_cars@[i as int],
                Err(e) => i >= self.the_cars@.len() && e == MachineError::IndexOutOfBounds,
            },
    {
        if i < self.the_cars.len() {
            Ok(self.the_cars[i].clone())
        } else {
            Err(MachineError::IndexOutOfBounds)
        }
    }

    /// The cdr value at `i` of the active generation.
    pub fn cdr(&self, i: usize) -> (r: Result<Object, MachineError>)
        ensures
            match r {
                Ok(o) => i < self.the_cdrs@.len() && o == self.the_cdrs@[i as int],
                Err(e) => i >= self.the_cdrs@.len() && e == MachineError::IndexOutOfBounds,
            },
    {
        if i < self.the_cdrs.len() {
            Ok(self.the_cdrs[i].clone())
        } else {
            Err(MachineError::IndexOutOfBounds)
        }
    }

    /// The car value at `i` of the inactive generation.
    pub fn new_car(&self, i: usize) -> (r: Result<Object, MachineError>)
        ensures
            match r {
                Ok(o) => i < self.new_cars@.len() && o == self.new_cars@[i as int],
                Err(e) => i >= self.new_cars@.len() && e == MachineError::IndexOutOfBounds,
            },
    {
        if i < self.new_cars.len() {
            Ok(self.new_cars[i].clone())
        } else {
            Err(MachineError::IndexOutOfBounds)
        }
    }

    /// The cdr value at `i` of the inactive generation.
    pub fn new_cdr(&self, i: usize) -> (r: Result<Object, MachineError>)
        ensures
            match r {
                Ok(o) => i < self.new_cdrs@.len() && o == self.new_cdrs@[i as int],
                Err(e) => i >= self.new_cdrs@.len() && e == MachineError::IndexOutOfBounds,
            },
    {
        if i < self.new_cdrs.len() {
            Ok(self.new_cdrs[i].clone())
        } else {
            Err(MachineError::IndexOutOfBounds)
        }
    }
}

/// The roles after a flip.
pub open spec fn spec_flip(m: Memory) -> Memory {
    Memory { the_cars: m.new_cars, the_cdrs: m.new_cdrs, new_cars: m.the_cars, new_cdrs: m.the_cdrs }
}

/// Flipping is its own inverse at the role level: two flips return
/// every array to its place.
pub proof fn lemma_flip_involutive(m: Memory)
    ensures
        spec_flip(spec_flip(m)) == m,
{
}

/// How many cells a list element needs: none for an atom, one spine
/// cell per element plus the elements' own cells for a list.
pub open spec fn spec_size_exp(e: Exp) -> int
    decreases e,
{
    match e {
        Exp::List(p) => spec_size_pair(p),
        _ => 0,
    }
}

/// How many cells a list spine needs.
pub open spec fn spec_size_pair(p: Pair) -> int
    decreases p,
{
    match p {
        Pair::Nil => 0,
        Pair::Cons(x, y) => 1 + spec_size_exp(*x) + spec_size_pair(*y),
    }
}

/// Cell sizes are never negative.
pub proof fn lemma_size_pair_nonneg(p: Pair)
    ensures
        spec_size_pair(p) >= 0,
    decreases p,
{
    match p {
        Pair::Nil => {},
        Pair::Cons(x, y) => {
            lemma_size_exp_nonneg(*x);
            lemma_size_pair_nonneg(*y);
        },
    }
}

/// An element's cell count is never negative.
pub proof fn lemma_size_exp_nonneg(e: Exp)
    ensures
        spec_size_exp(e) >= 0,
    decreases e,
{
    match e {
        Exp::List(p) => {
            lemma_size_pair_nonneg(p);
        },
        _ => {},
    }
}

/// The machine value written for an atom in a car slot: the atom
/// itself, with a quotation stored as a quote and a string as a
/// string.
pub open spec fn spec_atom_object(e: Exp, o: Object) -> bool {
    match e {
        Exp::Integer(x) => o == Object::Integer(x),
        Exp::FloatNumber(s) => o == Object::Number(s),
        Exp::Symbol(s) => o == Object::Symbol(s),
        Exp::Quote(s) => o == Object::Quote(s),
        Exp::SchemeString(s) => o == Object::LispString(s),
        Exp::Bool(b) => o == Object::Bool(b),
        Exp::Index(i) => o == Object::Index(i),
        Exp::List(_) => false,
    }
}

/// The depth-first layout of a list with spine `p` whose cells start
/// at `b`: each spine cell's car holds its element (an atom value, a
/// pointer to the element's own cells laid out right after, or `Nil`
/// for an empty list) and its cdr points at the next spine cell, or
/// holds `Nil` at the end.
pub open spec fn spec_list_cells(cars: Seq<Object>, cdrs: Seq<Object>, p: Pair, b: int) -> bool
    decreases p,
{
    match p {
        Pair::Nil => true,
        Pair::Cons(x, y) => {
            let car_ok = match *x {
                Exp::List(q) => match q {
                    Pair::Nil => 0 <= b < cars.len() && cars[b] == Object::Nil,
                    _ => 0 <= b < cars.len() && b + 1 <= usize::MAX && cars[b] == Object::Pair(
                        (b + 1) as usize,
                    ) && spec_list_cells(cars, cdrs, q, b + 1),
                },
                atom => 0 <= b < cars.len() && spec_atom_object(atom, cars[b]),
            };
            let next = b + 1 + spec_size_exp(*x);
            let cdr_ok = match *y {
                Pair::Nil => 0 <= b < cdrs.len() && cdrs[b] == Object::Nil,
                _ => 0 <= b < cdrs.len() && next <= usize::MAX && cdrs[b] == Object::Pair(
                    next as usize,
                ) && spec_list_cells(cars, cdrs, *y, next),
            };
            car_ok && cdr_ok
        },
    }
}

/// Laid-out cells stay laid out while the cells they occupy keep
/// their values.
pub proof fn lemma_list_cells_frame(
    cars1: Seq<Object>,
    cdrs1: Seq<Object>,
    cars2: Seq<Object>,
    cdrs2: Seq<Object>,
    p: Pair,
    b: int,
)
    requires
        spec_list_cells(cars1, cdrs1, p, b),
        cars2.len() == cars1.len(),
        cdrs2.len() == cdrs1.len(),
        forall|j: int|
            b <= j < b + spec_size_pair(p) && 0 <= j < cars1.len() ==> #[trigger] cars2[j]
                == cars1[j],
        forall|j: int|
            b <= j < b + spec_size_pair(p) && 0 <= j < cdrs1.len() ==> #[trigger] cdrs2[j]
                == cdrs1[j],
    ensures
        spec_list_cells(cars2, cdrs2, p, b),
    decreases p,
{
    match p {
        Pair::Nil => {},
        Pair::Cons(x, y) => {
            lemma_size_exp_nonneg(*x);
            lemma_size_pair_nonneg(*y);
            assert(spec_size_pair(p) == 1 + spec_size_exp(*x) + spec_size_pair(*y));
            assert(cars2[b] == cars1[b]);
            assert(cdrs2[b] == cdrs1[b]);
            match *x {
                Exp::List(q) => {
                    match q {
                        Pair::Nil => {},
                        _ => {
                            lemma_list_cells_frame(cars1, cdrs1, cars2, cdrs2, q, b + 1);
                        },
                    }
                },
                _ => {},
            }
            match *y {
                Pair::Nil => {},
                _ => {
                    lemma_list_cells_frame(
                        cars1,
                        cdrs1,
                        cars2,
                        cdrs2,
                        *y,
                        b + 1 + spec_size_exp(*x),
                    );
                },
            }
        },
    }
}

impl Memory {
    /// Writes the list with spine `p` into the active generation
    /// depth-first, starting at `*free` and advancing it one cell at
    /// a time.  Fatal exactly when the generation has no room for the
    /// whole structure, in which case a prefix of it has been
    /// written.
    pub fn write_list(&mut self, p: &Pair, free: &mut usize) -> (r: Result<(), MachineError>)
        requires
            old(self).wf(),
            *old(free) <= old(self).spec_capacity(),
        ensures
            final (self).wf(),
            final (self).spec_capacity() == old(self).spec_capacity(),
            final (self).new_cars@ == old(self).new_cars@,
            final (self).new_cdrs@ == old(self).new_cdrs@,
            *final (free) >= *old(free),
            forall|j: int|
                0 <= j < old(self).the_cars@.len() && !(*old(free) <= j < *final (free))
                    ==> #[trigger] final (self).the_cars@[j] == old(self).the_cars@[j],
            forall|j: int|
                0 <= j < old(self).the_cars@.len() && !(*old(free) <= j < *final (free))
                    ==> #[trigger] final (self).the_cdrs@[j] == old(self).the_cdrs@[j],
            match r {
                Ok(_) => {
                    &&& *final (free) == *old(free) + spec_size_pair(*p)
                    &&& *old(free) + spec_size_pair(*p) <= old(self).spec_capacity()
                    &&& spec_list_cells(
                        final (self).the_cars@,
                        final (self).the_cdrs@,
                        *p,
                        *old(free) as int,
                    )
                },
                Err(e) => {
                    &&& e == MachineError::IndexOutOfBounds
                    &&& *old(free) + spec_size_pair(*p) > old(self).spec_capacity()
                },
            },
        decreases *p,
    {
        match p {
            Pair::Nil => Ok(()),
            Pair::Cons(x, y) => {
                proof {
                    lemma_size_pair_nonneg(**y);
                    lemma_size_exp_nonneg(**x);
                    match &**x {
                        Exp::List(q) => {
                            lemma_size_pair_nonneg(*q);
                        },
                        _ => {},
                    }
                }
                let b = *free;
                if b >= self.the_cars.len() {
                    return Err(MachineError::IndexOutOfBounds);
                }
                *free = b + 1;
                // the element in the car slot
                match &**x {
                    Exp::List(q) => {
                        match q {
                            Pair::Nil => {
                                self.the_cars.set(b, Object::Nil);
                            },
                            _ => {
                                self.the_cars.set(b, Object::Pair(b + 1));
                                match self.write_list(q, free) {
                                    Ok(_) => {},
                                    Err(e) => {
                                        return Err(e);
                                    },
                                }
                            },
                        }
                    },
                    Exp::Integer(v) => {
                        self.the_cars.set(b, Object::Integer(*v));
                    },
                    Exp::FloatNumber(t) => {
                        self.the_cars.set(b, Object::Number(t.clone()));
                    },
                    Exp::Symbol(t) => {
                        self.the_cars.set(b, Object::Symbol(t.clone()));
                    },
                    Exp::Quote(t) => {
                        self.the_cars.set(b, Object::Quote(t.clone()));
                    },
                    Exp::SchemeString(t) => {
                        self.the_cars.set(b, Object::LispString(t.clone()));
                    },
                    Exp::Bool(v) => {
                        self.the_cars.set(b, Object::Bool(*v));
                    },
                    Exp::Index(v) => {
                        self.the_cars.set(b, Object::Index(*v));
                    },
                }
                let ghost mem_c = *self;
                let ghost free_c = *free;
                proof {
                    assert(free_c == b + 1 + spec_size_exp(**x));
                }
                // the rest of the spine in the cdr slot
                match &**y {
                    Pair::Nil => {
                        self.the_cdrs.set(b, Object::Nil);
                        proof {
                            match &**x {
                                Exp::List(q) => {
                                    match q {
                                        Pair::Nil => {},
                                        _ => {
                                            lemma_list_cells_frame(
                                                mem_c.the_cars@,
                                                mem_c.the_cdrs@,
                                                self.the_cars@,
                                                self.the_cdrs@,
                                                *q,
                                                b + 1,
                                            );
                                        },
                                    }
                                },
                                _ => {},
                            }
                        }
                        Ok(())
                    },
                    _ => {
                        self.the_cdrs.set(b, Object::Pair(*free));
                        let ghost mem_d = *self;
                        match self.write_list(y, free) {
                            Ok(_) => {},
                            Err(e) => {
                                return Err(e);
                            },
                        }
                        proof {
                            assert(self.the_cdrs@[b as int] == Object::Pair(free_c));
                            match &**x {
                                Exp::List(q) => {
                                    match q {
                                        Pair::Nil => {},
                                        _ => {
                                            lemma_list_cells_frame(
                                                mem_c.the_cars@,
                                                mem_c.the_cdrs@,
                                                mem_d.the_cars@,
                                                mem_d.the_cdrs@,
                                                *q,
                                                b + 1,
                                            );
                                            lemma_list_cells_frame(
                                                mem_d.the_cars@,
                                                mem_d.the_cdrs@,
                                                self.the_cars@,
                                                self.the_cdrs@,
                                                *q,
                                                b + 1,
                                            );
                                        },
                                    }
                                },
                                _ => {},
                            }
                        }
                        Ok(())
                    },
                }
            },
        }
    }
}

} // verus!
