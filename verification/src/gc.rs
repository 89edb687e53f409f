//! The stop-and-copy garbage collector.  Live cells are relocated
//! from the active generation into the inactive one with a
//! broken-heart forwarding protocol, scanning copied cells with an
//! explicit cursor instead of recursion so that relocation depth
//! never scales with structure depth; a final flip exchanges the
//! generations.
//!
//! The contract of `collect` states the whole algorithm's effect: the
//! cells copied are exactly the ones reachable from the root, each
//! exactly once (the forwarding addresses left in the discarded space
//! form an injection), the copied cells hold the original car and cdr
//! values with every pointer retargeted through that injection, and
//! the allocation cursor ends at the count of reachable cells.

use vstd::prelude::*;

use vstd::pervasive::VecAdditionalExecFns;
use vstd::set_lib::{lemma_int_range, lemma_len_subset, set_int_range};

use crate::errors::MachineError;
use crate::memory::Memory;
use crate::register::{spec_cell_render, spec_list_render};
use crate::representation::{
    pointer_target, spec_is_pointer, spec_pointer_target, spec_retarget, Object,
};

verus! {

/// A value a well-formed heap slot may hold: a pointer stays inside
/// the generation, and the broken-heart marker never appears as user
/// data.
pub open spec fn cell_value_wf(o: Object, cap: int) -> bool {
    match spec_pointer_target(o) {
        Some(t) => 0 <= t < cap,
        None => o != Object::BrokenHeart,
    }
}

/// A well-formed heap: every slot of every cell is a well-formed
/// value.
pub open spec fn heap_wf(cars: Seq<Object>, cdrs: Seq<Object>, cap: int) -> bool {
    &&& cars.len() == cap
    &&& cdrs.len() == cap
    &&& forall|i: int| 0 <= i < cap ==> cell_value_wf(#[trigger] cars[i], cap)
    &&& forall|i: int| 0 <= i < cap ==> cell_value_wf(#[trigger] cdrs[i], cap)
}

/// Cell `i` holds a pointer to cell `t` in one of its slots.
pub open spec fn points_to(cars: Seq<Object>, cdrs: Seq<Object>, i: int, t: int) -> bool {
    spec_pointer_target(cars[i]) == Some(t) || spec_pointer_target(cdrs[i]) == Some(t)
}

/// Cell `i` is reachable from cell `r` in at most `n` pointer steps.
pub open spec fn reach_n(cars: Seq<Object>, cdrs: Seq<Object>, r: int, i: int, n: nat) -> bool
    decreases n,
{
    if n == 0 {
        i == r
    } else {
        i == r || exists|m: int|
            0 <= m < cars.len() && reach_n(cars, cdrs, r, m, (n - 1) as nat) && #[trigger] points_to(
                cars,
                cdrs,
                m,
                i,
            )
    }
}

/// Cell `i` is reachable from cell `r`.
pub open spec fn reachable(cars: Seq<Object>, cdrs: Seq<Object>, r: int, i: int) -> bool {
    exists|n: nat| reach_n(cars, cdrs, r, i, n)
}

/// The cells reachable from a root value; empty when the root is not
/// a pointer.
pub open spec fn live_set(cars: Seq<Object>, cdrs: Seq<Object>, rootv: Object) -> Set<int> {
    match spec_pointer_target(rootv) {
        Some(r) => Set::new(|i: int| 0 <= i < cars.len() && reachable(cars, cdrs, r, i)),
        None => Set::empty(),
    }
}

/// One pointer step preserves reachability.
pub proof fn lemma_reach_step(cars: Seq<Object>, cdrs: Seq<Object>, r: int, m: int, t: int)
    requires
        reachable(cars, cdrs, r, m),
        0 <= m < cars.len(),
        points_to(cars, cdrs, m, t),
    ensures
        reachable(cars, cdrs, r, t),
{
    let n = choose|n: nat| reach_n(cars, cdrs, r, m, n);
    let n1: nat = n + 1;
    assert((n1 - 1) as nat == n);
    assert(reach_n(cars, cdrs, r, m, (n1 - 1) as nat));
    assert(points_to(cars, cdrs, m, t));
    assert(reach_n(cars, cdrs, r, t, n1));
}

/// The collection's bookkeeping while cells are being copied.
/// `order` lists the old-space indices of the copied cells in copy
/// order; `cars0`/`cdrs0` are the active generation as it was before
/// the collection started.  A copied cell's old car holds the
/// broken-heart marker and its old cdr the forwarding index; every
/// other old cell is untouched.
pub open spec fn gc_inv(
    mem: Memory,
    cars0: Seq<Object>,
    cdrs0: Seq<Object>,
    order: Seq<int>,
    free: int,
) -> bool {
    let cap = cars0.len() as int;
    &&& mem.wf()
    &&& mem.spec_capacity() == cap
    &&& cdrs0.len() == cap
    &&& heap_wf(cars0, cdrs0, cap)
    &&& order.no_duplicates()
    &&& order.len() == free
    &&& 0 <= free <= cap
    &&& forall|m: int| 0 <= m < order.len() ==> 0 <= #[trigger] order[m] < cap
    &&& forall|i: int|
        0 <= i < cap ==> (order.contains(i) <==> mem.the_cars@[i] == Object::BrokenHeart)
    &&& forall|m: int|
        0 <= m < order.len() ==> mem.the_cdrs@[#[trigger] order[m]] == Object::Index(m as usize)
    &&& forall|i: int|
        0 <= i < cap && !order.contains(i) ==> #[trigger] mem.the_cars@[i] == cars0[i]
    &&& forall|i: int|
        0 <= i < cap && !order.contains(i) ==> #[trigger] mem.the_cdrs@[i] == cdrs0[i]
}

/// Relocates one value: a non-pointer is returned as it is; a
/// pointer to an already-copied cell is retargeted at the cell's
/// forwarding index; a pointer to a fresh cell first copies that
/// cell's two original slots to the next free cell of the inactive
/// generation and leaves a broken heart with the forwarding index
/// behind.  Fatal only when a fresh copy finds the inactive
/// generation full.
fn relocate_value(
    mem: &mut Memory,
    free: usize,
    v: &Object,
    Ghost(cars0): Ghost<Seq<Object>>,
    Ghost(cdrs0): Ghost<Seq<Object>>,
    Ghost(order): Ghost<Seq<int>>,
) -> (res: Result<(Object, usize, Ghost<Seq<int>>), MachineError>)
    requires
        gc_inv(*old(mem), cars0, cdrs0, order, free as int),
        match spec_pointer_target(*v) {
            Some(t) => 0 <= t < cars0.len(),
            None => true,
        },
    ensures
        match res {
            Ok((r, free2, order2)) => {
                &&& gc_inv(*final (mem), cars0, cdrs0, order2@, free2 as int)
                &&& match spec_pointer_target(*v) {
                    None => r == *v && order2@ == order && free2 == free && *final (mem) == *old(
                        mem,
                    ),
                    Some(t) => {
                        &&& order2@.contains(t)
                        &&& r == spec_retarget(*v, order2@.index_of(t))
                        &&& (if order.contains(t) {
                            order2@ == order && free2 == free && *final (mem) == *old(mem)
                        } else {
                            &&& order2@ == order.push(t)
                            &&& free2 == free + 1
                            &&& final (mem).new_cars@ == old(mem).new_cars@.update(
                                free as int,
                                cars0[t],
                            )
                            &&& final (mem).new_cdrs@ == old(mem).new_cdrs@.update(
                                free as int,
                                cdrs0[t],
                            )
                            &&& final (mem).the_cars@ == old(mem).the_cars@.update(
                                t,
                                Object::BrokenHeart,
                            )
                            &&& final (mem).the_cdrs@ == old(mem).the_cdrs@.update(
                                t,
                                Object::Index(free),
                            )
                        })
                    },
                }
            },
            Err(e) => {
                &&& e == MachineError::IndexOutOfBounds
                &&& free == cars0.len()
                &&& spec_pointer_target(*v) matches Some(t) && !order.contains(t)
                &&& *final (mem) == *old(mem)
            },
        },
{
    let ghost cap = cars0.len() as int;
    let t = match pointer_target(v) {
        None => {
            return Ok((v.clone(), free, Ghost(order)));
        },
        Some(t) => t,
    };
    let already = matches!(&mem.the_cars[t], Object::BrokenHeart);
    if already {
        proof {
            assert(order.contains(t as int));
        }
        // the forwarding index is in the old cdr slot
        let fwd = match &mem.the_cdrs[t] {
            Object::Index(j) => *j,
            _ => {
                proof {
                    let m = order.index_of(t as int);
                    assert(order[m] == t as int);
                    assert(mem.the_cdrs@[t as int] == Object::Index(m as usize));
                }
                return Err(MachineError::BrokenHeart);
            },
        };
        proof {
            let m = order.index_of(t as int);
            assert(order[m] == t as int);
            assert(mem.the_cdrs@[t as int] == Object::Index(m as usize));
            assert(fwd == m);
        }
        Ok((retarget_object(v, fwd), free, Ghost(order)))
    } else {
        proof {
            assert(!order.contains(t as int));
        }
        if free >= mem.capacity() {
            proof {
                assert(free as int == cap);
            }
            return Err(MachineError::IndexOutOfBounds);
        }
        // copy the original car and cdr into the next free cell
        let carv = mem.the_cars[t].clone();
        let cdrv = mem.the_cdrs[t].clone();
        mem.new_cars.set(free, carv);
        mem.new_cdrs.set(free, cdrv);
        // leave the broken heart and the forwarding index behind
        mem.the_cars.set(t, Object::BrokenHeart);
        mem.the_cdrs.set(t, Object::Index(free));
        let ghost order2 = order.push(t as int);
        proof {
            assert(order2.drop_last() == order);
            assert(order2.last() == t as int);
            assert forall|i: int| 0 <= i < cap implies (order2.contains(i) <==> mem.the_cars@[i]
                == Object::BrokenHeart) by {
                if order2.contains(i) {
                    let m = choose|m: int| 0 <= m < order2.len() && order2[m] == i;
                    if m < order.len() {
                        assert(order.contains(i));
                    }
                }
                if order.contains(i) {
                    assert(order2.contains(i));
                }
                if i == t as int {
                    assert(order2[order2.len() - 1] == i);
                }
            }
            assert forall|m: int| 0 <= m < order2.len() implies mem.the_cdrs@[#[trigger] order2[m]]
                == Object::Index(m as usize) by {
                if m < order.len() {
                    assert(order2[m] == order[m]);
                    assert(order[m] != t as int) by {
                        if order[m] == t as int {
                            assert(order.contains(t as int));
                        }
                    }
                }
            }
            assert(order2.index_of(t as int) == order.len()) by {
                assert(order2[order.len() as int] == t as int);
                let m = order2.index_of(t as int);
                assert(order2[m] == t as int);
                if m < order.len() {
                    assert(order.contains(t as int));
                }
            }
        }
        Ok((retarget_object(v, free), free + 1, Ghost(order2)))
    }
}

/// The same pointer aimed at a new index; a non-pointer unchanged.
fn retarget_object(v: &Object, j: usize) -> (r: Object)
    ensures
        r == spec_retarget(*v, j as int),
{
    match v {
        Object::Index(_) => Object::Index(j),
        Object::Pair(_) => Object::Pair(j),
        _ => v.clone(),
    }
}

/// A value with its pointer retargeted through the copy order: a
/// pointer to cell `t` now points at `t`'s position in the order.
pub open spec fn spec_forwarded_order(v: Object, order: Seq<int>) -> Object {
    match spec_pointer_target(v) {
        Some(t) => spec_retarget(v, order.index_of(t)),
        None => v,
    }
}

/// A value with its pointer retargeted through the forwarding
/// addresses left in the discarded space.
pub open spec fn spec_forward_via(v: Object, fwd_cdrs: Seq<Object>) -> Object {
    match spec_pointer_target(v) {
        Some(t) => spec_retarget(v, fwd_cdrs[t]->Index_0 as int),
        None => v,
    }
}

/// In a duplicate-free sequence, `index_of` is the one position of a
/// contained element.
pub proof fn lemma_index_of_unique(order: Seq<int>, t: int)
    requires
        order.no_duplicates(),
        order.contains(t),
    ensures
        0 <= order.index_of(t) < order.len(),
        order[order.index_of(t)] == t,
        forall|m: int| 0 <= m < order.len() && order[m] == t ==> m == order.index_of(t),
{
    let i = order.index_of(t);
    assert(0 <= i < order.len() && order[i] == t);
}

/// A duplicate-free sequence of live cells, together with one more
/// live cell outside it, stays within the generation's cell count.
proof fn lemma_order_fits(
    cars0: Seq<Object>,
    cdrs0: Seq<Object>,
    rootv: Object,
    order: Seq<int>,
    t: int,
)
    requires
        order.no_duplicates(),
        forall|m: int|
            0 <= m < order.len() ==> live_set(cars0, cdrs0, rootv).contains(#[trigger] order[m]),
        live_set(cars0, cdrs0, rootv).contains(t),
        !order.contains(t),
    ensures
        order.len() < cars0.len(),
{
    let live = live_set(cars0, cdrs0, rootv);
    let cap = cars0.len() as int;
    let order2 = order.push(t);
    assert(order2.no_duplicates()) by {
        assert(order2.drop_last() == order);
        assert(order2.last() == t);
    }
    order2.unique_seq_to_set();
    assert(order2.to_set().subset_of(live)) by {
        assert forall|x: int| order2.to_set().contains(x) implies live.contains(x) by {
            assert(order2.contains(x));
            let m = choose|m: int| 0 <= m < order2.len() && order2[m] == x;
            if m < order.len() {
                assert(order[m] == x);
            }
        }
    }
    assert(live.subset_of(set_int_range(0, cap))) by {
        assert forall|x: int| live.contains(x) implies set_int_range(0, cap).contains(x) by {}
    }
    lemma_int_range(0, cap);
    lemma_len_subset(live, set_int_range(0, cap));
    lemma_len_subset(order2.to_set(), live);
}

/// A closed, root-containing copy order contains every reachable
/// cell.
proof fn lemma_order_covers(
    cars0: Seq<Object>,
    cdrs0: Seq<Object>,
    rt: int,
    order: Seq<int>,
    i: int,
    n: nat,
)
    requires
        order.contains(rt),
        forall|m: int|
            #[trigger] order.contains(m) ==> 0 <= m < cars0.len() && (match spec_pointer_target(
                cars0[m],
            ) {
                Some(t) => order.contains(t),
                None => true,
            }) && (match spec_pointer_target(cdrs0[m]) {
                Some(t) => order.contains(t),
                None => true,
            }),
        reach_n(cars0, cdrs0, rt, i, n),
    ensures
        order.contains(i),
    decreases n,
{
    if n == 0 {
    } else {
        if i != rt {
            let m = choose|m: int|
                0 <= m < cars0.len() && reach_n(cars0, cdrs0, rt, m, (n - 1) as nat)
                    && #[trigger] points_to(cars0, cdrs0, m, i);
            lemma_order_covers(cars0, cdrs0, rt, order, m, (n - 1) as nat);
        }
    }
}

impl Memory {
    /// Runs one full stop-and-copy collection with `root` as the only
    /// root value, then flips the generations.  On return the active
    /// generation holds one copy of every cell that was reachable
    /// from the root, in copy order; the discarded generation holds a
    /// broken heart with a forwarding index for exactly the reachable
    /// cells, those forwarding indices form a bijection onto the
    /// copied cells, every copied slot is the original value with its
    /// pointer sent through that bijection, and the returned cursor
    /// equals the count of reachable cells.  A well-formed heap always
    /// collects successfully.
    #[verifier::rlimit(100)]
    pub fn collect(&mut self, root: &Object) -> (res: Result<(Object, usize), MachineError>)
        requires
            old(self).wf(),
            heap_wf(old(self).the_cars@, old(self).the_cdrs@, old(self).spec_capacity()),
            cell_value_wf(*root, old(self).spec_capacity()),
        ensures
            final (self).wf(),
            final (self).spec_capacity() == old(self).spec_capacity(),
            ({
                let cars0 = old(self).the_cars@;
                let cdrs0 = old(self).the_cdrs@;
                let cap = old(self).spec_capacity();
                let live = live_set(cars0, cdrs0, *root);
                let fwd = final (self).new_cdrs@;
                match res {
                    Ok((newroot, freecnt)) => {
                        &&& freecnt == live.len()
                        &&& forall|i: int|
                            0 <= i < cap ==> (live.contains(i) <==> final (self).new_cars@[i]
                                == Object::BrokenHeart)
                        &&& forall|i: int|
                            #[trigger] live.contains(i) ==> (fwd[i] matches Object::Index(j) && (
                            j as int) < freecnt)
                        &&& forall|i1: int, i2: int|
                            live.contains(i1) && live.contains(i2) && i1 != i2 ==> fwd[i1]
                                != fwd[i2]
                        &&& forall|i: int|
                            #[trigger] live.contains(i) ==> final (self).the_cars@[fwd[i]->Index_0
                                as int] == spec_forward_via(cars0[i], fwd)
                                && final (self).the_cdrs@[fwd[i]->Index_0 as int]
                                == spec_forward_via(cdrs0[i], fwd)
                        &&& newroot == spec_forward_via(*root, fwd)
                        &&& spec_is_pointer(*root) == spec_is_pointer(newroot)
                        &&& forall|j: int|
                            freecnt <= j < cap ==> final (self).the_cars@[j]
                                == old(self).new_cars@[j] && final (self).the_cdrs@[j]
                                == old(self).new_cdrs@[j]
                    },
                    Err(_) => false,
                }
            }),
    {
        let ghost cars0 = self.the_cars@;
        let ghost cdrs0 = self.the_cdrs@;
        let ghost nc0 = self.new_cars@;
        let ghost nd0 = self.new_cdrs@;
        let ghost live = live_set(cars0, cdrs0, *root);
        let cap = self.capacity();
        let mut free: usize = 0;
        let mut scan: usize = 0;
        let ghost mut order: Seq<int> = Seq::empty();
        proof {
            assert(gc_inv(*self, cars0, cdrs0, order, 0));
        }
        // relocate the root value
        let rootv = match relocate_value(self, free, root, Ghost(cars0), Ghost(cdrs0), Ghost(order)) {
            Ok((r, f2, go2)) => {
                proof {
                    order = go2@;
                    match spec_pointer_target(*root) {
                        Some(rt) => {
                            assert(reach_n(cars0, cdrs0, rt, rt, 0));
                            assert(live.contains(rt));
                        },
                        None => {},
                    }
                }
                free = f2;
                r
            },
            Err(_) => {
                proof {
                    let t = spec_pointer_target(*root)->Some_0;
                    assert(reach_n(cars0, cdrs0, t, t, 0));
                    assert(live.contains(t));
                    lemma_order_fits(cars0, cdrs0, *root, order, t);
                    assert(false);
                }
                return Err(MachineError::IndexOutOfBounds);
            },
        };
        proof {
            assert(forall|m: int| 0 <= m < order.len() ==> live.contains(#[trigger] order[m]));
        }
        // scan the copied cells, relocating their car and cdr slots
        while scan < free
            invariant
                gc_inv(*self, cars0, cdrs0, order, free as int),
                live == live_set(cars0, cdrs0, *root),
                scan <= free,
                cell_value_wf(*root, cars0.len() as int),
                forall|m: int| 0 <= m < order.len() ==> live.contains(#[trigger] order[m]),
                forall|m: int|
                    0 <= m < scan ==> #[trigger] self.new_cars@[m] == spec_forwarded_order(
                        cars0[order[m]],
                        order,
                    ) && (match spec_pointer_target(cars0[order[m]]) {
                        Some(t) => order.contains(t),
                        None => true,
                    }),
                forall|m: int|
                    0 <= m < scan ==> #[trigger] self.new_cdrs@[m] == spec_forwarded_order(
                        cdrs0[order[m]],
                        order,
                    ) && (match spec_pointer_target(cdrs0[order[m]]) {
                        Some(t) => order.contains(t),
                        None => true,
                    }),
                forall|m: int|
                    scan <= m < free ==> #[trigger] self.new_cars@[m] == cars0[order[m]],
                forall|m: int|
                    scan <= m < free ==> #[trigger] self.new_cdrs@[m] == cdrs0[order[m]],
                forall|j: int|
                    free <= j < cars0.len() ==> #[trigger] self.new_cars@[j] == nc0[j],
                forall|j: int|
                    free <= j < cars0.len() ==> #[trigger] self.new_cdrs@[j] == nd0[j],
                match spec_pointer_target(*root) {
                    Some(rt) => order.contains(rt) && rootv == spec_retarget(
                        *root,
                        order.index_of(rt),
                    ),
                    None => rootv == *root,
                },
            decreases cars0.len() - scan,
        {
            let ghost ord_a = order;
            let ghost i_scan = order[scan as int];
            // the car slot of the cell at the scan cursor
            let carv = self.new_cars[scan].clone();
            proof {
                assert(carv == cars0[i_scan]);
                assert(0 <= i_scan < cars0.len());
                assert(cell_value_wf(cars0[i_scan], cars0.len() as int));
            }
            let nv = match relocate_value(
                self,
                free,
                &carv,
                Ghost(cars0),
                Ghost(cdrs0),
                Ghost(order),
            ) {
                Ok((nv, f2, go2)) => {
                    proof {
                        match spec_pointer_target(carv) {
                            Some(t) => {
                                assert(live.contains(i_scan));
                                assert(points_to(cars0, cdrs0, i_scan, t));
                                lemma_reach_step(
                                    cars0,
                                    cdrs0,
                                    spec_pointer_target(*root)->Some_0,
                                    i_scan,
                                    t,
                                );
                                assert(live.contains(t));
                            },
                            None => {},
                        }
                        order = go2@;
                    }
                    free = f2;
                    nv
                },
                Err(_) => {
                    proof {
                        let t = spec_pointer_target(carv)->Some_0;
                        assert(live.contains(i_scan));
                        assert(points_to(cars0, cdrs0, i_scan, t));
                        lemma_reach_step(
                            cars0,
                            cdrs0,
                            spec_pointer_target(*root)->Some_0,
                            i_scan,
                            t,
                        );
                        lemma_order_fits(cars0, cdrs0, *root, order, t);
                        assert(false);
                    }
                    return Err(MachineError::IndexOutOfBounds);
                },
            };
            self.new_cars.set(scan, nv);
            let ghost ord_b = order;
            proof {
                // earlier processed slots keep their meaning under the grown order
                assert forall|m: int| 0 <= m < scan implies #[trigger] self.new_cars@[m]
                    == spec_forwarded_order(cars0[ord_b[m]], ord_b) && (match spec_pointer_target(
                    cars0[ord_b[m]],
                ) {
                    Some(t) => ord_b.contains(t),
                    None => true,
                }) by {
                    assert(ord_b[m] == ord_a[m]);
                    lemma_forwarded_stable(cars0[ord_a[m]], ord_a, ord_b);
                    match spec_pointer_target(cars0[ord_a[m]]) {
                        Some(t) => {
                            assert(ord_a.contains(t));
                            assert(ord_b.contains(t));
                        },
                        None => {},
                    }
                }
                assert forall|m: int| 0 <= m < scan implies #[trigger] self.new_cdrs@[m]
                    == spec_forwarded_order(cdrs0[ord_b[m]], ord_b) && (match spec_pointer_target(
                    cdrs0[ord_b[m]],
                ) {
                    Some(t) => ord_b.contains(t),
                    None => true,
                }) by {
                    assert(ord_b[m] == ord_a[m]);
                    lemma_forwarded_stable(cdrs0[ord_a[m]], ord_a, ord_b);
                    match spec_pointer_target(cdrs0[ord_a[m]]) {
                        Some(t) => {
                            assert(ord_a.contains(t));
                            assert(ord_b.contains(t));
                        },
                        None => {},
                    }
                }
            }
            // the cdr slot of the cell at the scan cursor
            let cdrv = self.new_cdrs[scan].clone();
            proof {
                assert(cdrv == cdrs0[i_scan]);
                assert(cell_value_wf(cdrs0[i_scan], cars0.len() as int));
            }
            let nv2 = match relocate_value(
                self,
                free,
                &cdrv,
                Ghost(cars0),
                Ghost(cdrs0),
                Ghost(order),
            ) {
                Ok((nv2, f2, go2)) => {
                    proof {
                        match spec_pointer_target(cdrv) {
                            Some(t) => {
                                assert(live.contains(i_scan));
                                assert(points_to(cars0, cdrs0, i_scan, t));
                                lemma_reach_step(
                                    cars0,
                                    cdrs0,
                                    spec_pointer_target(*root)->Some_0,
                                    i_scan,
                                    t,
                                );
                                assert(live.contains(t));
                            },
                            None => {},
                        }
                        order = go2@;
                    }
                    free = f2;
                    nv2
                },
                Err(_) => {
                    proof {
                        let t = spec_pointer_target(cdrv)->Some_0;
                        assert(live.contains(i_scan));
                        assert(points_to(cars0, cdrs0, i_scan, t));
                        lemma_reach_step(
                            cars0,
                            cdrs0,
                            spec_pointer_target(*root)->Some_0,
                            i_scan,
                            t,
                        );
                        lemma_order_fits(cars0, cdrs0, *root, order, t);
                        assert(false);
                    }
                    return Err(MachineError::IndexOutOfBounds);
                },
            };
            self.new_cdrs.set(scan, nv2);
            let ghost ord_c = order;
            proof {
                assert forall|m: int| 0 <= m < scan implies #[trigger] self.new_cars@[m]
                    == spec_forwarded_order(cars0[ord_c[m]], ord_c) && (match spec_pointer_target(
                    cars0[ord_c[m]],
                ) {
                    Some(t) => ord_c.contains(t),
                    None => true,
                }) by {
                    assert(ord_c[m] == ord_b[m]);
                    lemma_forwarded_stable(cars0[ord_b[m]], ord_b, ord_c);
                    match spec_pointer_target(cars0[ord_b[m]]) {
                        Some(t) => {
                            assert(ord_b.contains(t));
                            assert(ord_c.contains(t));
                        },
                        None => {},
                    }
                }
                assert forall|m: int| 0 <= m < scan implies #[trigger] self.new_cdrs@[m]
                    == spec_forwarded_order(cdrs0[ord_c[m]], ord_c) && (match spec_pointer_target(
                    cdrs0[ord_c[m]],
                ) {
                    Some(t) => ord_c.contains(t),
                    None => true,
                }) by {
                    assert(ord_c[m] == ord_b[m]);
                    lemma_forwarded_stable(cdrs0[ord_b[m]], ord_b, ord_c);
                    match spec_pointer_target(cdrs0[ord_b[m]]) {
                        Some(t) => {
                            assert(ord_b.contains(t));
                            assert(ord_c.contains(t));
                        },
                        None => {},
                    }
                }
                // the slot at the cursor itself is now fully relocated
                assert(self.new_cars@[scan as int] == spec_forwarded_order(
                    cars0[i_scan],
                    ord_c,
                )) by {
                    match spec_pointer_target(cars0[i_scan]) {
                        Some(t) => {
                            lemma_forwarded_stable(cars0[i_scan], ord_b, ord_c);
                        },
                        None => {},
                    }
                }
                match spec_pointer_target(cars0[i_scan]) {
                    Some(t) => {
                        assert(ord_b.contains(t));
                        assert(ord_c.contains(t));
                    },
                    None => {},
                }
            }
            scan = scan + 1;
        }
        proof {
            // the copied cells are exactly the live ones
            assert(order.to_set() =~= live) by {
                match spec_pointer_target(*root) {
                    Some(rt) => {
                        assert forall|i: int| live.contains(i) implies order.to_set().contains(
                            i,
                        ) by {
                            let n = choose|n: nat| reach_n(cars0, cdrs0, rt, i, n);
                            assert forall|m: int| #[trigger] order.contains(m) implies 0 <= m
                                < cars0.len() && (match spec_pointer_target(cars0[m]) {
                                Some(t) => order.contains(t),
                                None => true,
                            }) && (match spec_pointer_target(cdrs0[m]) {
                                Some(t) => order.contains(t),
                                None => true,
                            }) by {
                                let k = choose|k: int| 0 <= k < order.len() && order[k] == m;
                                assert(self.new_cars@[k] == spec_forwarded_order(
                                    cars0[order[k]],
                                    order,
                                ));
                                assert(self.new_cdrs@[k] == spec_forwarded_order(
                                    cdrs0[order[k]],
                                    order,
                                ));
                            }
                            lemma_order_covers(cars0, cdrs0, rt, order, i, n);
                        }
                        assert forall|i: int| order.to_set().contains(i) implies live.contains(
                            i,
                        ) by {
                            let m = choose|m: int| 0 <= m < order.len() && order[m] == i;
                        }
                    },
                    None => {
                        assert(order.len() == 0) by {
                            if order.len() > 0 {
                                assert(live.contains(order[0]));
                            }
                        }
                        assert forall|i: int| order.to_set().contains(i) implies live.contains(
                            i,
                        ) by {
                            assert(order.contains(i));
                        }
                    },
                }
            }
            order.unique_seq_to_set();
        }
        let ghost pre = *self;
        self.flip();
        proof {
            let cap = cars0.len() as int;
            let fwd = self.new_cdrs@;
            // every live cell carries its broken heart and forwarding index
            assert forall|i: int| 0 <= i < cap implies (live.contains(i) <==> self.new_cars@[i]
                == Object::BrokenHeart) by {
                assert(order.contains(i) <==> live.contains(i));
            }
            assert forall|i: int| #[trigger] live.contains(i) implies (fwd[i] matches Object::Index(
                j,
            ) && (j as int) < free) by {
                assert(order.contains(i));
                lemma_index_of_unique(order, i);
                let m = order.index_of(i);
                assert(pre.the_cdrs@[order[m]] == Object::Index(m as usize));
            }
            // the forwarding indices are an injection
            assert forall|i1: int, i2: int|
                live.contains(i1) && live.contains(i2) && i1 != i2 implies fwd[i1] != fwd[i2] by {
                assert(order.contains(i1) && order.contains(i2));
                lemma_index_of_unique(order, i1);
                lemma_index_of_unique(order, i2);
                let m1 = order.index_of(i1);
                let m2 = order.index_of(i2);
                assert(pre.the_cdrs@[order[m1]] == Object::Index(m1 as usize));
                assert(pre.the_cdrs@[order[m2]] == Object::Index(m2 as usize));
                assert(m1 != m2);
            }
            // each copied slot holds the forwarded original value
            assert forall|i: int| #[trigger] live.contains(i) implies self.the_cars@[fwd[i]
                ->Index_0 as int] == spec_forward_via(cars0[i], fwd) && self.the_cdrs@[fwd[i]
                ->Index_0 as int] == spec_forward_via(cdrs0[i], fwd) by {
                assert(order.contains(i));
                lemma_index_of_unique(order, i);
                let m = order.index_of(i);
                assert(pre.the_cdrs@[order[m]] == Object::Index(m as usize));
                assert(fwd[i]->Index_0 as int == m);
                assert(pre.new_cars@[m] == spec_forwarded_order(cars0[order[m]], order));
                assert(pre.new_cdrs@[m] == spec_forwarded_order(cdrs0[order[m]], order));
                assert(spec_forwarded_order(cars0[i], order) == spec_forward_via(
                    cars0[i],
                    fwd,
                )) by {
                    match spec_pointer_target(cars0[i]) {
                        Some(t) => {
                            assert(order.contains(t));
                            lemma_index_of_unique(order, t);
                            let mt = order.index_of(t);
                            assert(pre.the_cdrs@[order[mt]] == Object::Index(mt as usize));
                            assert(fwd[t] == Object::Index(mt as usize));
                        },
                        None => {},
                    }
                }
                assert(spec_forwarded_order(cdrs0[i], order) == spec_forward_via(
                    cdrs0[i],
                    fwd,
                )) by {
                    match spec_pointer_target(cdrs0[i]) {
                        Some(t) => {
                            assert(order.contains(t));
                            lemma_index_of_unique(order, t);
                            let mt = order.index_of(t);
                            assert(pre.the_cdrs@[order[mt]] == Object::Index(mt as usize));
                            assert(fwd[t] == Object::Index(mt as usize));
                        },
                        None => {},
                    }
                }
            }
            // the returned root is the forwarded original root
            assert(rootv == spec_forward_via(*root, fwd)) by {
                match spec_pointer_target(*root) {
                    Some(rt) => {
                        assert(order.contains(rt));
                        lemma_index_of_unique(order, rt);
                        let mr = order.index_of(rt);
                        assert(pre.the_cdrs@[order[mr]] == Object::Index(mr as usize));
                        assert(fwd[rt] == Object::Index(mr as usize));
                    },
                    None => {},
                }
            }
        }
        Ok((rootv, free))
    }

}

/// Retargeting through a grown copy order is unchanged for a value
/// whose target was already in the shorter order.
proof fn lemma_forwarded_stable(v: Object, ord1: Seq<int>, ord2: Seq<int>)
    requires
        ord2.no_duplicates(),
        ord1.len() <= ord2.len(),
        forall|k: int| 0 <= k < ord1.len() ==> #[trigger] ord2[k] == ord1[k],
        match spec_pointer_target(v) {
            Some(t) => ord1.contains(t),
            None => true,
        },
    ensures
        spec_forwarded_order(v, ord2) == spec_forwarded_order(v, ord1),
        match spec_pointer_target(v) {
            Some(t) => ord2.contains(t) && ord2.index_of(t) == ord1.index_of(t),
            None => true,
        },
{
    match spec_pointer_target(v) {
        Some(t) => {
            let i1 = choose|k: int| 0 <= k < ord1.len() && ord1[k] == t;
            assert(ord2[i1] == t);
            assert(ord2.contains(t));
            lemma_index_of_unique(ord2, t);
            assert(ord2.index_of(t) == i1);
            let j1 = ord1.index_of(t);
            assert(0 <= j1 < ord1.len() && ord1[j1] == t);
            assert(ord2[j1] == t);
            assert(j1 == i1);
        },
        None => {},
    }
}

/// Runs a collection against the machine's `root` register: the
/// collector's reserved registers are reset, the heap is collected
/// with the register's value as the only root, and `root`, `free` and
/// `scan` are left describing the new generation (`free` and `scan`
/// both at the count of live cells, as the scan ends when the two
/// cursors meet).  Fatal when the heap or the root value is not
/// well-formed.
pub fn garbage_collector(
    machine: &mut crate::machine::BasicMachine,
    memory: &mut Memory,
) -> (res: Result<(), MachineError>)
    requires
        old(memory).wf(),
    ensures
        final (memory).wf(),
        final (memory).spec_capacity() == old(memory).spec_capacity(),
        match res {
            Ok(_) => {
                &&& heap_wf(
                    old(memory).the_cars@,
                    old(memory).the_cdrs@,
                    old(memory).spec_capacity(),
                )
                &&& crate::machine::spec_lookup(old(machine).registers@, "root"@) matches Some(rv)
                &&& cell_value_wf(
                    crate::machine::spec_lookup(old(machine).registers@, "root"@)->Some_0,
                    old(memory).spec_capacity(),
                )
                &&& ({
                    let rv = crate::machine::spec_lookup(old(machine).registers@, "root"@)->Some_0;
                    let cars0 = old(memory).the_cars@;
                    let cdrs0 = old(memory).the_cdrs@;
                    let cap = old(memory).spec_capacity();
                    let live = live_set(cars0, cdrs0, rv);
                    let fwd = final (memory).new_cdrs@;
                    &&& crate::machine::spec_lookup(final (machine).registers@, "free"@) == Some(
                        Object::Index(live.len() as usize),
                    )
                    &&& crate::machine::spec_lookup(final (machine).registers@, "scan"@) == Some(
                        Object::Index(live.len() as usize),
                    )
                    &&& crate::machine::spec_lookup(final (machine).registers@, "root"@) == Some(
                        spec_forward_via(rv, fwd),
                    )
                    // the whole collection theorem, carried up from
                    // the heap's own `collect`: exactly the live
                    // cells carry broken hearts, the forwarding
                    // indices are an injection below the live count,
                    // every copied slot is the forwarded original,
                    // and the rest of the new space is untouched
                    &&& forall|i: int|
                        0 <= i < cap ==> (live.contains(i) <==> final (memory).new_cars@[i]
                            == Object::BrokenHeart)
                    &&& forall|i: int|
                        #[trigger] live.contains(i) ==> (fwd[i] matches Object::Index(j) && (
                        j as int) < live.len())
                    &&& forall|i1: int, i2: int|
                        live.contains(i1) && live.contains(i2) && i1 != i2 ==> fwd[i1] != fwd[i2]
                    &&& forall|i: int|
                        #[trigger] live.contains(i) ==> final (memory).the_cars@[fwd[i]->Index_0
                            as int] == spec_forward_via(cars0[i], fwd)
                            && final (memory).the_cdrs@[fwd[i]->Index_0 as int]
                            == spec_forward_via(cdrs0[i], fwd)
                    &&& forall|j: int|
                        live.len() <= j < cap ==> final (memory).the_cars@[j]
                            == old(memory).new_cars@[j] && final (memory).the_cdrs@[j]
                            == old(memory).new_cdrs@[j]
                })
            },
            Err(e) => {
                &&& final (memory).the_cars@ == old(memory).the_cars@
                &&& final (memory).the_cdrs@ == old(memory).the_cdrs@
                &&& final (memory).new_cars@ == old(memory).new_cars@
                &&& final (memory).new_cdrs@ == old(memory).new_cdrs@
                &&& ({
                    let rv = crate::machine::spec_lookup(old(machine).registers@, "root"@);
                    if rv is None {
                        e == MachineError::UnknownRegister
                    } else if !heap_wf(
                        old(memory).the_cars@,
                        old(memory).the_cdrs@,
                        old(memory).spec_capacity(),
                    ) {
                        e == MachineError::BrokenHeart
                    } else {
                        !cell_value_wf(rv->Some_0, old(memory).spec_capacity()) && e
                            == MachineError::IndexOutOfBounds
                    }
                })
            },
        },
{
    // the collector's scratch registers start each collection clean;
    // `root` keeps the value the embedder set, being the input
    machine.declare_register("free");
    machine.declare_register("scan");
    machine.declare_register("old");
    machine.declare_register("oldcr");
    machine.declare_register("new");
    machine.declare_register("relocate_continue");
    proof {
        reveal_strlit("root");
        reveal_strlit("free");
        reveal_strlit("scan");
        reveal_strlit("old");
        reveal_strlit("oldcr");
        reveal_strlit("new");
        reveal_strlit("relocate_continue");
        assert("root"@ != "free"@ && "root"@ != "scan"@) by {
            assert("root"@[0] == 'r' && "free"@[0] == 'f' && "scan"@[0] == 's');
        }
        assert("root"@ != "old"@ && "root"@ != "new"@ && "root"@ != "oldcr"@ && "root"@
            != "relocate_continue"@) by {
            assert("root"@.len() == 4 && "old"@.len() == 3 && "new"@.len() == 3 && "oldcr"@.len()
                == 5 && "relocate_continue"@.len() == 17);
        }
    }
    let root_name = String::from_str("root");
    let rootv = match machine.get_register_contents(&root_name) {
        Some(v) => v,
        None => {
            return Err(MachineError::UnknownRegister);
        },
    };
    proof {
        assert(crate::machine::spec_lookup(old(machine).registers@, "root"@) == Some(rootv));
    }
    // the defensive well-formedness checks of the heap and the root
    if !heap_check(memory) {
        return Err(MachineError::BrokenHeart);
    }
    let cap = memory.capacity();
    let root_ok = match crate::representation::pointer_target(&rootv) {
        Some(t) => t < cap,
        None => !matches!(rootv, Object::BrokenHeart),
    };
    if !root_ok {
        return Err(MachineError::IndexOutOfBounds);
    }
    let (newroot, freecnt) = memory.collect(&rootv)?;
    let ghost regs1 = machine.registers@;
    let r1 = machine.set_register_contents(&root_name, newroot);
    proof {
        crate::machine::lemma_set_reg(regs1, "root"@, newroot);
        match r1 {
            Ok(_) => {},
            Err(_) => {
                assert(false);
            },
        }
    }
    machine.initilize_free_register(freecnt);
    let ghost regs2 = machine.registers@;
    let scan_name = String::from_str("scan");
    let r2 = machine.set_register_contents(&scan_name, Object::Index(freecnt));
    proof {
        crate::machine::lemma_set_reg(regs2, "scan"@, Object::Index(freecnt));
        match r2 {
            Ok(_) => {},
            Err(_) => {
                assert(false);
            },
        }
        reveal_strlit("root");
        reveal_strlit("free");
        reveal_strlit("scan");
        assert("root"@ != "free"@) by {
            assert("root"@[0] == 'r' && "free"@[0] == 'f');
        }
        assert("root"@ != "scan"@) by {
            assert("root"@[0] == 'r' && "scan"@[0] == 's');
        }
        assert("free"@ != "scan"@) by {
            assert("free"@[0] == 'f' && "scan"@[0] == 's');
        }
    }
    Ok(())
}

/// Checks every slot of the active generation: pointers must stay in
/// bounds and no slot may already hold the broken-heart marker.
fn heap_check(memory: &Memory) -> (r: bool)
    requires
        memory.wf(),
    ensures
        r == heap_wf(memory.the_cars@, memory.the_cdrs@, memory.spec_capacity()),
{
    let cap = memory.capacity();
    let mut i: usize = 0;
    while i < cap
        invariant
            0 <= i <= cap,
            memory.wf(),
            cap == memory.spec_capacity(),
            forall|j: int| 0 <= j < i ==> cell_value_wf(#[trigger] memory.the_cars@[j], cap as int),
            forall|j: int| 0 <= j < i ==> cell_value_wf(#[trigger] memory.the_cdrs@[j], cap as int),
        decreases cap - i,
    {
        let car_ok = match crate::representation::pointer_target(&memory.the_cars[i]) {
            Some(t) => t < cap,
            None => !matches!(&memory.the_cars[i], Object::BrokenHeart),
        };
        if !car_ok {
            return false;
        }
        let cdr_ok = match crate::representation::pointer_target(&memory.the_cdrs[i]) {
            Some(t) => t < cap,
            None => !matches!(&memory.the_cdrs[i], Object::BrokenHeart),
        };
        if !cdr_ok {
            return false;
        }
        i = i + 1;
    }
    true
}

/// The live set is closed under the heap's pointer edges.
pub proof fn lemma_live_closed(cars: Seq<Object>, cdrs: Seq<Object>, rootv: Object, i: int)
    requires
        live_set(cars, cdrs, rootv).contains(i),
    ensures
        match spec_pointer_target(cars[i]) {
            Some(t) => 0 <= t < cars.len() ==> live_set(cars, cdrs, rootv).contains(t),
            None => true,
        },
        match spec_pointer_target(cdrs[i]) {
            Some(t) => 0 <= t < cars.len() ==> live_set(cars, cdrs, rootv).contains(t),
            None => true,
        },
{
    let r = spec_pointer_target(rootv)->Some_0;
    match spec_pointer_target(cars[i]) {
        Some(t) => {
            if 0 <= t < cars.len() {
                lemma_reach_step(cars, cdrs, r, i, t);
            }
        },
        None => {},
    }
    match spec_pointer_target(cdrs[i]) {
        Some(t) => {
            if 0 <= t < cars.len() {
                lemma_reach_step(cars, cdrs, r, i, t);
            }
        },
        None => {},
    }
}

/// Reading the same logical structure through the forwarded root
/// yields an equal external representation: for every rendering
/// budget, a live cell renders in the collected heap, at its
/// forwarding index, exactly as it rendered in the original heap.
/// (`L` is any set of cells closed under pointer edges whose copies
/// satisfy the collector's postcondition — the live set after
/// `collect`.)
pub proof fn lemma_render_preserved(
    cars0: Seq<Object>,
    cdrs0: Seq<Object>,
    cars1: Seq<Object>,
    cdrs1: Seq<Object>,
    fwd: Seq<Object>,
    live: Set<int>,
    i: int,
    fuel: nat,
)
    requires
        cdrs0.len() == cars0.len(),
        cars1.len() == cars0.len(),
        cdrs1.len() == cars0.len(),
        fwd.len() == cars0.len(),
        forall|k: int| #[trigger] live.contains(k) ==> 0 <= k < cars0.len(),
        forall|k: int|
            #[trigger] live.contains(k) ==> (fwd[k] matches Object::Index(j) && (j as int)
                < cars0.len()),
        forall|k: int|
            #[trigger] live.contains(k) ==> cars1[fwd[k]->Index_0 as int] == spec_forward_via(
                cars0[k],
                fwd,
            ) && cdrs1[fwd[k]->Index_0 as int] == spec_forward_via(cdrs0[k], fwd),
        forall|k: int|
            #[trigger] live.contains(k) ==> (match spec_pointer_target(cars0[k]) {
                Some(t) => live.contains(t),
                None => true,
            }) && (match spec_pointer_target(cdrs0[k]) {
                Some(t) => live.contains(t),
                None => true,
            }),
        live.contains(i),
    ensures
        spec_cell_render(cars1, cdrs1, fwd[i]->Index_0 as int, fuel) == spec_cell_render(
            cars0,
            cdrs0,
            i,
            fuel,
        ),
    decreases fuel,
{
    if fuel == 0 {
    } else {
        let j = fwd[i]->Index_0 as int;
        assert(cars1[j] == spec_forward_via(cars0[i], fwd));
        assert(cdrs1[j] == spec_forward_via(cdrs0[i], fwd));
        match cars0[i] {
            Object::Pair(x) => {
                assert(live.contains(x as int));
                lemma_render_preserved(
                    cars0,
                    cdrs0,
                    cars1,
                    cdrs1,
                    fwd,
                    live,
                    x as int,
                    (fuel - 1) as nat,
                );
                assert(cars1[j] == Object::Pair(fwd[x as int]->Index_0));
                assert(spec_list_render(
                    cars1,
                    cdrs1,
                    fwd[x as int]->Index_0 as int,
                    (fuel - 1) as nat,
                ) == spec_list_render(cars0, cdrs0, x as int, (fuel - 1) as nat));
            },
            Object::Index(x) => {
                assert(cars1[j] == Object::Index(fwd[x as int]->Index_0));
            },
            _ => {
                assert(cars1[j] == cars0[i]);
            },
        }
        match cdrs0[i] {
            Object::Pair(x) => {
                assert(live.contains(x as int));
                lemma_render_preserved(
                    cars0,
                    cdrs0,
                    cars1,
                    cdrs1,
                    fwd,
                    live,
                    x as int,
                    (fuel - 1) as nat,
                );
                assert(cdrs1[j] == Object::Pair(fwd[x as int]->Index_0));
                assert(spec_cell_render(
                    cars1,
                    cdrs1,
                    fwd[x as int]->Index_0 as int,
                    (fuel - 1) as nat,
                ) == spec_cell_render(cars0, cdrs0, x as int, (fuel - 1) as nat));
            },
            Object::Index(x) => {
                assert(cdrs1[j] == Object::Index(fwd[x as int]->Index_0));
            },
            _ => {
                assert(cdrs1[j] == cdrs0[i]);
            },
        }
        assert(0 <= i < cars0.len());
        assert(0 <= j < cars1.len());
        let car_part0 = match cars0[i] {
            Object::Pair(x) => spec_list_render(cars0, cdrs0, x as int, (fuel - 1) as nat),
            other => crate::register::spec_atom_render(other),
        };
        let car_part1 = match cars1[j] {
            Object::Pair(x) => spec_list_render(cars1, cdrs1, x as int, (fuel - 1) as nat),
            other => crate::register::spec_atom_render(other),
        };
        assert(car_part1 == car_part0);
    }
}

} // verus!
