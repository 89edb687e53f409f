//! The assembler: one pass over the symbolic program separates label
//! declarations from instructions (`extract_labels`), then each
//! instruction form compiles into an executable instruction
//! (`make_execution_procedure`).  Everything assembly-time-constant
//! is resolved eagerly — a label reference becomes its integer
//! offset here, never at run time — while register reads, operation
//! calls and flag checks stay for run time.

use vstd::prelude::*;

use crate::errors::MachineError;
use crate::machine::{
    spec_label_lookup, AssignSource, BasicMachine, CompiledInstruction, LabelEntry, OperationCall,
    PrimitiveSource,
};
use crate::parser::str_is;
use crate::parserfordev::{spec_read_exp, str_to_exp};
use crate::primitives::{cadr, cddr};
use crate::tpfordev::{
    car, cdr, elems_of, exp_view, lemma_pair_views_elems, pair_elems, views_of_exps, Exp, ExpV,
    Pair,
};

verus! {

/// The label table of a symbolic program: every top-level symbol
/// binds to the offset its following instruction will occupy, the
/// count of non-label entries before it.
pub open spec fn spec_extract_labels(items: Seq<Exp>, off: int) -> Seq<LabelEntry>
    decreases items.len(),
{
    if items.len() == 0 {
        Seq::empty()
    } else {
        match items[0] {
            Exp::Symbol(s) => seq![LabelEntry { name: s, offset: off as usize }].add(
                spec_extract_labels(items.drop_first(), off),
            ),
            _ => spec_extract_labels(items.drop_first(), off + 1),
        }
    }
}

/// The clean instruction list of a symbolic program: the non-label
/// entries, in order.
pub open spec fn spec_extract_insts(items: Seq<Exp>) -> Seq<Exp>
    decreases items.len(),
{
    if items.len() == 0 {
        Seq::empty()
    } else {
        match items[0] {
            Exp::Symbol(_) => spec_extract_insts(items.drop_first()),
            _ => seq![items[0]].add(spec_extract_insts(items.drop_first())),
        }
    }
}

/// How many non-label entries stand before position `k`.
pub open spec fn count_non_labels(items: Seq<Exp>, k: int) -> int
    decreases k,
{
    if k <= 0 {
        0
    } else {
        count_non_labels(items, k - 1) + (match items[k - 1] {
            Exp::Symbol(_) => 0int,
            _ => 1int,
        })
    }
}

/// How many label declarations stand before position `k`.
pub open spec fn count_labels(items: Seq<Exp>, k: int) -> int
    decreases k,
{
    if k <= 0 {
        0
    } else {
        count_labels(items, k - 1) + (match items[k - 1] {
            Exp::Symbol(_) => 1int,
            _ => 0int,
        })
    }
}

/// The name-and-offset content of a label table.
pub open spec fn label_entry_views(ls: Seq<LabelEntry>) -> Seq<(Seq<char>, int)> {
    Seq::new(ls.len(), |i: int| (ls[i].name@, ls[i].offset as int))
}

/// Extraction is determined by the program's shape: programs with
/// equal shapes extract to label tables with equal names and offsets
/// and to instruction lists with equal shapes.  With `extract_labels`
/// tying its output to the text's one parse shape, two runs over
/// equal text therefore produce identical tables.
pub proof fn lemma_extraction_respects_views(items1: Seq<Exp>, items2: Seq<Exp>, off: int)
    requires
        views_of_exps(items1) == views_of_exps(items2),
    ensures
        label_entry_views(spec_extract_labels(items1, off)) == label_entry_views(
            spec_extract_labels(items2, off),
        ),
        views_of_exps(spec_extract_insts(items1)) == views_of_exps(spec_extract_insts(items2)),
    decreases items1.len(),
{
    if items1.len() == 0 {
        assert(items2.len() == 0) by {
            assert(views_of_exps(items1).len() == items1.len());
            assert(views_of_exps(items2).len() == items2.len());
        }
        assert(label_entry_views(spec_extract_labels(items1, off)) =~= label_entry_views(
            spec_extract_labels(items2, off),
        ));
        assert(views_of_exps(spec_extract_insts(items1)) =~= views_of_exps(
            spec_extract_insts(items2),
        ));
    } else {
        assert(items2.len() == items1.len()) by {
            assert(views_of_exps(items1).len() == items1.len());
            assert(views_of_exps(items2).len() == items2.len());
        }
        assert(exp_view(items1[0]) == exp_view(items2[0])) by {
            assert(views_of_exps(items1)[0] == exp_view(items1[0]));
            assert(views_of_exps(items2)[0] == exp_view(items2[0]));
        }
        assert(views_of_exps(items1.drop_first()) =~= views_of_exps(items2.drop_first())) by {
            assert(forall|i: int|
                0 <= i < items1.len() - 1 ==> #[trigger] views_of_exps(items1.drop_first())[i]
                    == views_of_exps(items1)[i + 1]);
            assert(forall|i: int|
                0 <= i < items2.len() - 1 ==> #[trigger] views_of_exps(items2.drop_first())[i]
                    == views_of_exps(items2)[i + 1]);
        }
        match (items1[0], items2[0]) {
            (Exp::Symbol(s1), Exp::Symbol(s2)) => {
                assert(s1@ == s2@);
                lemma_extraction_respects_views(items1.drop_first(), items2.drop_first(), off);
                let t1 = spec_extract_labels(items1, off);
                let t2 = spec_extract_labels(items2, off);
                let l1 = spec_extract_labels(items1.drop_first(), off);
                let l2 = spec_extract_labels(items2.drop_first(), off);
                assert(label_entry_views(t1) =~= label_entry_views(t2)) by {
                    assert(t1 == seq![LabelEntry { name: s1, offset: off as usize }].add(l1));
                    assert(t2 == seq![LabelEntry { name: s2, offset: off as usize }].add(l2));
                    assert(l1.len() == l2.len()) by {
                        assert(label_entry_views(l1).len() == l1.len());
                        assert(label_entry_views(l2).len() == l2.len());
                    }
                    assert forall|i: int| 0 <= i < t1.len() implies #[trigger] label_entry_views(
                        t1,
                    )[i] == label_entry_views(t2)[i] by {
                        if i == 0 {
                            assert(t1[0].name@ == t2[0].name@);
                        } else {
                            assert(t1[i] == l1[i - 1]);
                            assert(t2[i] == l2[i - 1]);
                            assert(label_entry_views(l1)[i - 1] == label_entry_views(l2)[i - 1]);
                        }
                    }
                }
            },
            (Exp::Symbol(_), _) => {
                assert(false);
            },
            (_, Exp::Symbol(_)) => {
                assert(false);
            },
            _ => {
                lemma_extraction_respects_views(
                    items1.drop_first(),
                    items2.drop_first(),
                    off + 1,
                );
                let t1 = spec_extract_insts(items1);
                let t2 = spec_extract_insts(items2);
                let i1 = spec_extract_insts(items1.drop_first());
                let i2 = spec_extract_insts(items2.drop_first());
                assert(views_of_exps(t1) =~= views_of_exps(t2)) by {
                    assert(t1 == seq![items1[0]].add(i1));
                    assert(t2 == seq![items2[0]].add(i2));
                    assert(i1.len() == i2.len()) by {
                        assert(views_of_exps(i1).len() == i1.len());
                        assert(views_of_exps(i2).len() == i2.len());
                    }
                    assert forall|i: int| 0 <= i < t1.len() implies #[trigger] views_of_exps(
                        t1,
                    )[i] == views_of_exps(t2)[i] by {
                        if i == 0 {
                            assert(exp_view(t1[0]) == exp_view(t2[0]));
                        } else {
                            assert(t1[i] == i1[i - 1]);
                            assert(t2[i] == i2[i - 1]);
                            assert(views_of_exps(i1)[i - 1] == views_of_exps(i2)[i - 1]);
                        }
                    }
                }
            },
        }
    }
}

/// Label extraction is deterministic: the label table and clean
/// instruction list are functions of the symbolic program, so two
/// runs over equal programs produce identical results.
pub proof fn lemma_extract_labels_deterministic(
    items: Seq<Exp>,
    l1: Seq<LabelEntry>,
    l2: Seq<LabelEntry>,
    i1: Seq<Exp>,
    i2: Seq<Exp>,
)
    requires
        l1 == spec_extract_labels(items, 0),
        l2 == spec_extract_labels(items, 0),
        i1 == spec_extract_insts(items),
        i2 == spec_extract_insts(items),
    ensures
        l1 == l2,
        i1 == i2,
{
}

/// The two counts are non-negative and partition the positions.
proof fn lemma_counts_nonneg(items: Seq<Exp>, k: int)
    requires
        k >= 0,
    ensures
        count_labels(items, k) >= 0,
        count_non_labels(items, k) >= 0,
        count_labels(items, k) + count_non_labels(items, k) == k,
    decreases k,
{
    if k > 0 {
        lemma_counts_nonneg(items, k - 1);
    }
}

/// The counting helpers shift by one position when the program's
/// first entry is dropped.
proof fn lemma_count_shift(items: Seq<Exp>, k: int)
    requires
        1 <= k <= items.len(),
    ensures
        count_labels(items, k) == count_labels(items.drop_first(), k - 1) + (match items[0] {
            Exp::Symbol(_) => 1int,
            _ => 0int,
        }),
        count_non_labels(items, k) == count_non_labels(items.drop_first(), k - 1) + (
        match items[0] {
            Exp::Symbol(_) => 0int,
            _ => 1int,
        }),
    decreases k,
{
    if k == 1 {
        assert(count_labels(items, 0) == 0);
        assert(count_non_labels(items, 0) == 0);
        assert(count_labels(items.drop_first(), 0) == 0);
        assert(count_non_labels(items.drop_first(), 0) == 0);
    } else {
        lemma_count_shift(items, k - 1);
        assert(items.drop_first()[k - 2] == items[k - 1]);
        assert(count_labels(items, k) == count_labels(items, k - 1) + (match items[k - 1] {
            Exp::Symbol(_) => 1int,
            _ => 0int,
        }));
        assert(count_labels(items.drop_first(), k - 1) == count_labels(items.drop_first(), k - 2)
            + (match items.drop_first()[k - 2] {
            Exp::Symbol(_) => 1int,
            _ => 0int,
        }));
        assert(count_non_labels(items, k) == count_non_labels(items, k - 1) + (
        match items[k - 1] {
            Exp::Symbol(_) => 0int,
            _ => 1int,
        }));
        assert(count_non_labels(items.drop_first(), k - 1) == count_non_labels(
            items.drop_first(),
            k - 2,
        ) + (match items.drop_first()[k - 2] {
            Exp::Symbol(_) => 0int,
            _ => 1int,
        }));
    }
}

/// Every label's offset equals the count of non-label entries before
/// its declaration (the position of its following instruction among
/// the instructions); labels appear in the table in declaration
/// order, later declarations after earlier ones.
pub proof fn lemma_label_offsets(items: Seq<Exp>, off: int, k: int)
    requires
        0 <= k < items.len(),
        items[k] matches Exp::Symbol(_),
        off >= 0,
        off + items.len() <= usize::MAX,
    ensures
        spec_extract_labels(items, off).len() > count_labels(items, k),
        spec_extract_labels(items, off)[count_labels(items, k)] == (LabelEntry {
            name: items[k]->Symbol_0,
            offset: (off + count_non_labels(items, k)) as usize,
        }),
    decreases items.len(),
{
    let rest = items.drop_first();
    let table = spec_extract_labels(items, off);
    if k == 0 {
        assert(count_labels(items, 0) == 0);
        assert(count_non_labels(items, 0) == 0);
        assert(table == seq![LabelEntry { name: items[0]->Symbol_0, offset: off as usize }].add(
            spec_extract_labels(rest, off),
        ));
        assert(table[0] == LabelEntry { name: items[0]->Symbol_0, offset: off as usize });
    } else {
        match items[0] {
            Exp::Symbol(s) => {
                lemma_label_offsets(rest, off, k - 1);
                lemma_count_shift(items, k);
                lemma_counts_nonneg(rest, k - 1);
                assert(rest[k - 1] == items[k]);
                assert(table == seq![LabelEntry { name: s, offset: off as usize }].add(
                    spec_extract_labels(rest, off),
                ));
                assert(count_labels(items, k) == 1 + count_labels(rest, k - 1));
                assert(table[count_labels(items, k)] == spec_extract_labels(rest, off)[count_labels(
                    rest,
                    k - 1,
                )]);
            },
            _ => {
                lemma_label_offsets(rest, off + 1, k - 1);
                lemma_count_shift(items, k);
                assert(rest[k - 1] == items[k]);
                assert(table == spec_extract_labels(rest, off + 1));
                assert(count_labels(items, k) == count_labels(rest, k - 1));
                assert(off + count_non_labels(items, k) == (off + 1) + count_non_labels(
                    rest,
                    k - 1,
                ));
            },
        }
    }
}

/// The label table holds one entry per label declaration.
proof fn lemma_labels_len(items: Seq<Exp>, off: int)
    ensures
        spec_extract_labels(items, off).len() == count_labels(items, items.len() as int),
    decreases items.len(),
{
    if items.len() > 0 {
        match items[0] {
            Exp::Symbol(_) => {
                lemma_labels_len(items.drop_first(), off);
            },
            _ => {
                lemma_labels_len(items.drop_first(), off + 1);
            },
        }
        lemma_count_shift(items, items.len() as int);
    }
}

/// Copies a list's elements into a vector.
fn list_elements(e: &Exp) -> (r: Result<Vec<Exp>, MachineError>)
    ensures
        match r {
            Ok(v) => (*e matches Exp::List(_)) && v@ == elems_of(*e),
            Err(er) => er == MachineError::SyntaxError && !(*e matches Exp::List(_)),
        },
{
    match e {
        Exp::List(p) => {
            let mut out: Vec<Exp> = Vec::new();
            push_elements(p, &mut out);
            proof {
                assert(out@ =~= elems_of(*e));
            }
            Ok(out)
        },
        _ => Err(MachineError::SyntaxError),
    }
}

/// Appends a spine's elements to a vector.
fn push_elements(p: &Pair, out: &mut Vec<Exp>)
    ensures
        final (out)@ == old(out)@.add(pair_elems(*p)),
    decreases p,
{
    match p {
        Pair::Nil => {
            proof {
                assert(out@ =~= old(out)@.add(pair_elems(*p)));
            }
        },
        Pair::Cons(x, y) => {
            let ghost o0 = out@;
            out.push((**x).clone());
            push_elements(y, out);
            proof {
                assert(out@ =~= o0.add(pair_elems(*p)));
            }
        },
    }
}

/// Separates a symbolic program (already read into its entries) into
/// its label table and its clean instruction list: each top-level
/// symbol declares a label at the offset of the next instruction;
/// everything else is kept, in order.  The two outputs are exactly
/// `spec_extract_labels` and `spec_extract_insts` of the entries.
pub fn extract_labels_from(items: &Vec<Exp>) -> (r: (Vec<LabelEntry>, Vec<Exp>))
    ensures
        r.0@ == spec_extract_labels(items@, 0),
        r.1@ == spec_extract_insts(items@),
{
    let ghost items_v = items@;
    let mut labels: Vec<LabelEntry> = Vec::new();
    let mut insts: Vec<Exp> = Vec::new();
    let mut offset: usize = 0;
    let mut k: usize = 0;
    proof {
        assert(items_v.skip(0) =~= items_v);
    }
    while k < items.len()
        invariant
            0 <= k <= items_v.len(),
            items@ == items_v,
            offset <= k,
            spec_extract_labels(items_v, 0) == labels@.add(
                spec_extract_labels(items_v.skip(k as int), offset as int),
            ),
            spec_extract_insts(items_v) == insts@.add(spec_extract_insts(items_v.skip(k as int))),
        decreases items_v.len() - k,
    {
        let ghost tail = items_v.skip(k as int);
        proof {
            assert(tail[0] == items_v[k as int]);
            assert(tail.drop_first() =~= items_v.skip(k + 1));
        }
        let item = &items[k];
        match item {
            Exp::Symbol(_) => {
                let name = match item.clone() {
                    Exp::Symbol(s) => s,
                    _ => {
                        proof {
                            assert(false);
                        }
                        String::new()
                    },
                };
                let ghost l0 = labels@;
                labels.push(LabelEntry { name, offset });
                proof {
                    assert(labels@ =~= l0.push(
                        LabelEntry { name: items_v[k as int]->Symbol_0, offset: offset },
                    ));
                    assert(l0.push(LabelEntry { name: items_v[k as int]->Symbol_0, offset: offset })
                        .add(spec_extract_labels(items_v.skip(k + 1), offset as int)) =~= l0.add(
                        seq![LabelEntry { name: items_v[k as int]->Symbol_0, offset: offset }].add(
                            spec_extract_labels(items_v.skip(k + 1), offset as int),
                        ),
                    ));
                }
            },
            _ => {
                let ghost i0 = insts@;
                insts.push(item.clone());
                offset = offset + 1;
                proof {
                    assert(insts@ =~= i0.push(items_v[k as int]));
                    assert(i0.push(items_v[k as int]).add(
                        spec_extract_insts(items_v.skip(k + 1)),
                    ) =~= i0.add(
                        seq![items_v[k as int]].add(spec_extract_insts(items_v.skip(k + 1))),
                    ));
                }
            },
        }
        k = k + 1;
    }
    proof {
        assert(items_v.skip(items_v.len() as int) =~= Seq::<Exp>::empty());
        assert(labels@.add(Seq::<LabelEntry>::empty()) =~= labels@);
        assert(insts@.add(Seq::<Exp>::empty()) =~= insts@);
    }
    (labels, insts)
}

/// Reads a controller text and separates it: `extract_labels_from`
/// applied to the program the reader yields.  The outputs are tied
/// to the text: they are the extraction of a program whose shape is
/// exactly what the text reads as.  Fatal exactly when the text is
/// unreadable or reads as something other than a list.
pub fn extract_labels(text: String) -> (r: Result<(Vec<LabelEntry>, Vec<Exp>), MachineError>)
    ensures
        match r {
            Ok((labels, insts)) => (spec_read_exp(text@) matches Some(ev) && (ev matches
                ExpV::List(itemsv) && exists|items: Seq<Exp>|
                    views_of_exps(items) == itemsv && labels@ == #[trigger] spec_extract_labels(
                        items,
                        0,
                    ) && insts@ == spec_extract_insts(items))),
            Err(e) => e == MachineError::SyntaxError && (spec_read_exp(text@) is None || !(
            spec_read_exp(text@)->Some_0 matches ExpV::List(_))),
        },
{
    let parsed = match str_to_exp(text) {
        Ok(p) => p,
        Err(e) => {
            return Err(e);
        },
    };
    let items = match list_elements(&parsed) {
        Ok(v) => v,
        Err(e) => {
            proof {
                match &parsed {
                    Exp::List(_) => {
                        assert(false);
                    },
                    _ => {
                        assert(!(exp_view(parsed) matches ExpV::List(_)));
                    },
                }
            }
            return Err(e);
        },
    };
    proof {
        match &parsed {
            Exp::List(p) => {
                lemma_pair_views_elems(*p);
            },
            _ => {
                assert(false);
            },
        }
    }
    let (labels, insts) = extract_labels_from(&items);
    Ok((labels, insts))
}

/// Looks a label up in the machine's table; a re-declared name keeps
/// its last binding.
pub fn lookup_label(machine: &BasicMachine, label_name: &String) -> (r: Option<usize>)
    ensures
        match r {
            Some(off) => spec_label_lookup(machine.labels@, label_name@) == Some(off as int),
            None => spec_label_lookup(machine.labels@, label_name@) is None,
        },
{
    let mut k = machine.labels.len();
    proof {
        assert(machine.labels@.take(machine.labels@.len() as int) =~= machine.labels@);
    }
    while k > 0
        invariant
            k <= machine.labels@.len(),
            spec_label_lookup(machine.labels@, label_name@) == spec_label_lookup(
                machine.labels@.take(k as int),
                label_name@,
            ),
        decreases k,
    {
        k = k - 1;
        let ghost pre = machine.labels@.take(k + 1);
        proof {
            assert(pre.last() == machine.labels@[k as int]);
            assert(pre.drop_last() =~= machine.labels@.take(k as int));
        }
        if str_is(&machine.labels[k].name, label_name.as_str()) {
            return Some(machine.labels[k].offset);
        }
    }
    proof {
        assert(machine.labels@.take(0) =~= Seq::<LabelEntry>::empty());
    }
    None
}

/// Whether a form is tagged `reg`.
fn is_register_exp(exp: &Exp) -> (r: bool)
    ensures
        r == spec_is_tag(*exp, "reg"@),
{
    is_tag(exp, "reg")
}

/// Whether a form is tagged `const`.
fn is_constant_exp(exp: &Exp) -> (r: bool)
    ensures
        r == spec_is_tag(*exp, "const"@),
{
    is_tag(exp, "const")
}

/// Whether a form is tagged `label`.
fn is_label_exp(exp: &Exp) -> (r: bool)
    ensures
        r == spec_is_tag(*exp, "label"@),
{
    is_tag(exp, "label")
}

/// A non-empty list whose head is the symbol `tag`.
pub open spec fn spec_is_tag(e: Exp, tag: Seq<char>) -> bool {
    e.spec_is_pair() && (elems_of(e)[0] matches Exp::Symbol(s) && s@ == tag)
}

/// Decides `spec_is_tag`.
fn is_tag(exp: &Exp, tag: &str) -> (r: bool)
    ensures
        r == spec_is_tag(*exp, tag@),
{
    match exp {
        Exp::List(Pair::Cons(x, _y)) => match &**x {
            Exp::Symbol(s) => str_is(s, tag),
            _ => false,
        },
        _ => false,
    }
}

/// Whether a form is an operation form: a non-empty list whose first
/// element is tagged `op`.
pub fn is_operation_exp(exp: &Exp) -> (r: bool)
    ensures
        r == spec_is_operation(*exp),
{
    match exp {
        Exp::List(Pair::Cons(x, _y)) => is_tag(x, "op"),
        _ => false,
    }
}

/// An operation form: `((op name) operand ...)`.
pub open spec fn spec_is_operation(e: Exp) -> bool {
    e.spec_is_pair() && spec_is_tag(elems_of(e)[0], "op"@)
}

/// The operation name of an operation form.
pub fn operation_exp_op(operation_exp: &Exp) -> (r: Result<Exp, MachineError>)
    ensures
        match r {
            Ok(out) => operation_exp.spec_is_pair() && elems_of(
                elems_of(*operation_exp)[0],
            ).len() >= 2 && out == elems_of(elems_of(*operation_exp)[0])[1],
            Err(e) => e == MachineError::MalformedInstruction && (!operation_exp.spec_is_pair()
                || elems_of(elems_of(*operation_exp)[0]).len() < 2 || !(elems_of(
                *operation_exp,
            )[0] matches Exp::List(_))),
        },
{
    let temp = match car(operation_exp) {
        Ok(t) => t,
        Err(_) => {
            return Err(MachineError::MalformedInstruction);
        },
    };
    match cadr(&temp) {
        Ok(out) => Ok(out),
        Err(_) => Err(MachineError::MalformedInstruction),
    }
}

/// The operand list of an operation form.
pub fn operation_exp_oprands(operation_exp: &Exp) -> (r: Result<Exp, MachineError>)
    ensures
        match r {
            Ok(out) => elems_of(*operation_exp).len() >= 1 && (out matches Exp::List(_))
                && elems_of(out) == elems_of(*operation_exp).drop_first(),
            Err(_) => !operation_exp.spec_is_pair(),
        },
{
    match cdr(operation_exp) {
        Ok(out) => Ok(out),
        Err(_) => Err(MachineError::MalformedInstruction),
    }
}

/// How a compiled operand relates to its form: a `const` keeps its
/// constant, a `label` is already resolved to its offset, a `reg`
/// keeps the register's name for run time.
pub open spec fn spec_compiled_primitive(
    e: Exp,
    labels: Seq<LabelEntry>,
    p: PrimitiveSource,
) -> bool {
    if spec_is_tag(e, "const"@) {
        elems_of(e).len() >= 2 && p == PrimitiveSource::Constant(elems_of(e)[1])
    } else if spec_is_tag(e, "label"@) {
        elems_of(e).len() >= 2 && (elems_of(e)[1] matches Exp::Symbol(s) && spec_label_lookup(
            labels,
            s@,
        ) matches Some(off) && p == PrimitiveSource::LabelOffset(off as usize))
    } else if spec_is_tag(e, "reg"@) {
        elems_of(e).len() >= 2 && (elems_of(e)[1] matches Exp::Symbol(s) && p
            == PrimitiveSource::RegisterName(s))
    } else {
        false
    }
}

/// A well-formed primitive operand: `(const c)`, `(label l)` with a
/// declared label symbol, or `(reg r)` with a register symbol.
pub open spec fn spec_primitive_form_ok(e: Exp, labels: Seq<LabelEntry>) -> bool {
    if spec_is_tag(e, "const"@) {
        elems_of(e).len() >= 2
    } else if spec_is_tag(e, "label"@) {
        elems_of(e).len() >= 2 && (elems_of(e)[1] matches Exp::Symbol(s) && spec_label_lookup(
            labels,
            s@,
        ) is Some)
    } else if spec_is_tag(e, "reg"@) {
        elems_of(e).len() >= 2 && (elems_of(e)[1] matches Exp::Symbol(_))
    } else {
        false
    }
}

/// The error an ill-formed primitive operand draws: an undeclared
/// label where only the declaration is missing, a bad primitive
/// otherwise.
pub open spec fn spec_primitive_error(e: Exp, labels: Seq<LabelEntry>) -> MachineError {
    if spec_is_tag(e, "label"@) && elems_of(e).len() >= 2 && (elems_of(e)[1] matches Exp::Symbol(
        _,
    )) {
        MachineError::UndeclaredLabel
    } else {
        MachineError::BadPrimitive
    }
}

/// Compiles a primitive operand: `(const c)`, `(label l)` (resolved
/// now, against the finished label table) or `(reg r)`.  Succeeds on
/// exactly the well-formed operand forms; any other form, or a label
/// that was never declared, is fatal with the operand's error.
pub fn make_primitive_exp(exp: &Exp, machine: &BasicMachine) -> (r: Result<
    PrimitiveSource,
    MachineError,
>)
    ensures
        match r {
            Ok(p) => spec_primitive_form_ok(*exp, machine.labels@) && spec_compiled_primitive(
                *exp,
                machine.labels@,
                p,
            ),
            Err(e) => !spec_primitive_form_ok(*exp, machine.labels@) && e == spec_primitive_error(
                *exp,
                machine.labels@,
            ),
        },
{
    proof {
        reveal_strlit("const");
        reveal_strlit("label");
        reveal_strlit("reg");
        assert("const"@ != "label"@) by {
            assert("const"@[0] == 'c' && "label"@[0] == 'l');
        }
        assert("const"@ != "reg"@ && "label"@ != "reg"@) by {
            assert("const"@.len() == 5 && "label"@.len() == 5 && "reg"@.len() == 3);
        }
    }
    if is_constant_exp(exp) {
        match cadr(exp) {
            Ok(c) => Ok(PrimitiveSource::Constant(c)),
            Err(_) => Err(MachineError::BadPrimitive),
        }
    } else if is_label_exp(exp) {
        let label = match cadr(exp) {
            Ok(l) => l,
            Err(_) => {
                return Err(MachineError::BadPrimitive);
            },
        };
        match label {
            Exp::Symbol(name) => match lookup_label(machine, &name) {
                Some(off) => Ok(PrimitiveSource::LabelOffset(off)),
                None => Err(MachineError::UndeclaredLabel),
            },
            _ => Err(MachineError::BadPrimitive),
        }
    } else if is_register_exp(exp) {
        match cadr(exp) {
            Ok(Exp::Symbol(name)) => Ok(PrimitiveSource::RegisterName(name)),
            _ => Err(MachineError::BadPrimitive),
        }
    } else {
        Err(MachineError::BadPrimitive)
    }
}

/// A well-formed operation form, seen as its parts: `(op name)` with
/// a symbol name, then well-formed operands.
pub open spec fn spec_call_form_ok(parts: Seq<Exp>, labels: Seq<LabelEntry>) -> bool {
    &&& parts.len() >= 1
    &&& spec_is_tag(parts[0], "op"@)
    &&& elems_of(parts[0]).len() >= 2
    &&& (elems_of(parts[0])[1] matches Exp::Symbol(_))
    &&& forall|j: int| 1 <= j < parts.len() ==> spec_primitive_form_ok(#[trigger] parts[j], labels)
}

/// The compiled form of an operation call: the name, and one
/// compiled operand per source operand, in order.
pub open spec fn spec_compiled_call(
    parts: Seq<Exp>,
    labels: Seq<LabelEntry>,
    call: OperationCall,
) -> bool {
    &&& call.name == elems_of(parts[0])[1]->Symbol_0
    &&& call.operands@.len() == parts.len() - 1
    &&& forall|j: int|
        0 <= j < call.operands@.len() ==> spec_compiled_primitive(
            parts[j + 1],
            labels,
            #[trigger] call.operands@[j],
        )
}

/// The position of the first ill-formed operand at or after `j`, or
/// the part count when all are well-formed.
pub open spec fn spec_first_bad_operand(parts: Seq<Exp>, labels: Seq<LabelEntry>, j: int) -> int
    decreases parts.len() - j,
{
    if j < 1 || j >= parts.len() {
        parts.len() as int
    } else if !spec_primitive_form_ok(parts[j], labels) {
        j
    } else {
        spec_first_bad_operand(parts, labels, j + 1)
    }
}

/// With a well-formed prefix and an ill-formed operand at `j`, the
/// first ill-formed operand is `j`.
proof fn lemma_first_bad_at(parts: Seq<Exp>, labels: Seq<LabelEntry>, lo: int, j: int)
    requires
        1 <= lo <= j < parts.len(),
        !spec_primitive_form_ok(parts[j], labels),
        forall|q: int| lo <= q < j ==> spec_primitive_form_ok(#[trigger] parts[q], labels),
    ensures
        spec_first_bad_operand(parts, labels, lo) == j,
    decreases j - lo,
{
    if lo < j {
        lemma_first_bad_at(parts, labels, lo + 1, j);
    }
}

/// The error an ill-formed operation form draws: a malformed form,
/// or the first ill-formed operand's own error.
pub open spec fn spec_call_error(parts: Seq<Exp>, labels: Seq<LabelEntry>) -> MachineError {
    if !(parts.len() >= 1 && spec_is_tag(parts[0], "op"@) && elems_of(parts[0]).len() >= 2 && (
    elems_of(parts[0])[1] matches Exp::Symbol(_))) {
        MachineError::MalformedInstruction
    } else {
        spec_primitive_error(parts[spec_first_bad_operand(parts, labels, 1)], labels)
    }
}

/// Compiles an operation form into its name and its compiled
/// operands, kept in source order for the engine's left-to-right
/// evaluation.  Succeeds exactly on well-formed operation forms.
pub fn make_operation_exp(exp: &Exp, machine: &BasicMachine) -> (r: Result<
    OperationCall,
    MachineError,
>)
    ensures
        match r {
            Ok(call) => spec_call_form_ok(elems_of(*exp), machine.labels@) && spec_compiled_call(
                elems_of(*exp),
                machine.labels@,
                call,
            ),
            Err(e) => !spec_call_form_ok(elems_of(*exp), machine.labels@) && e == spec_call_error(
                elems_of(*exp),
                machine.labels@,
            ),
        },
{
    let ghost parts = elems_of(*exp);
    if !is_operation_exp(exp) {
        return Err(MachineError::MalformedInstruction);
    }
    let op_name = match operation_exp_op(exp) {
        Ok(Exp::Symbol(s)) => s,
        _ => {
            return Err(MachineError::MalformedInstruction);
        },
    };
    let operands_exp = match operation_exp_oprands(exp) {
        Ok(o) => o,
        Err(e) => {
            proof {
                assert(false);
            }
            return Err(e);
        },
    };
    let operand_items = match list_elements(&operands_exp) {
        Ok(v) => v,
        Err(e) => {
            proof {
                assert(false);
            }
            return Err(e);
        },
    };
    proof {
        assert(operand_items@ == parts.drop_first());
        assert(forall|q: int|
            0 <= q < operand_items@.len() ==> #[trigger] operand_items@[q] == parts[q + 1]);
    }
    let mut operands: Vec<PrimitiveSource> = Vec::new();
    let mut j: usize = 0;
    while j < operand_items.len()
        invariant
            0 <= j <= operand_items@.len(),
            parts == elems_of(*exp),
            parts.len() >= 1,
            operand_items@ == parts.drop_first(),
            operand_items@.len() == parts.len() - 1,
            spec_is_tag(parts[0], "op"@),
            elems_of(parts[0]).len() >= 2,
            elems_of(parts[0])[1] matches Exp::Symbol(_),
            op_name == elems_of(parts[0])[1]->Symbol_0,
            operands@.len() == j,
            forall|q: int|
                0 <= q < operand_items@.len() ==> #[trigger] operand_items@[q] == parts[q + 1],
            forall|q: int|
                1 <= q < j + 1 ==> spec_primitive_form_ok(#[trigger] parts[q], machine.labels@),
            forall|q: int|
                0 <= q < j ==> spec_compiled_primitive(
                    parts[q + 1],
                    machine.labels@,
                    #[trigger] operands@[q],
                ),
        decreases operand_items@.len() - j,
    {
        let p = match make_primitive_exp(&operand_items[j], machine) {
            Ok(p) => p,
            Err(e) => {
                proof {
                    lemma_first_bad_at(parts, machine.labels@, 1, j + 1);
                }
                return Err(e);
            },
        };
        operands.push(p);
        j = j + 1;
    }
    Ok(OperationCall { name: op_name, operands })
}

/// The register operand of a stack instruction: `(save r)` or
/// `(restore r)`.
pub fn stack_inst_reg_name(stack_instruction: &Exp) -> (r: Result<Exp, MachineError>)
    ensures
        match r {
            Ok(out) => elems_of(*stack_instruction).len() >= 2 && out == elems_of(
                *stack_instruction,
            )[1],
            Err(_) => elems_of(*stack_instruction).len() < 2 || !(*stack_instruction
                matches Exp::List(_)),
        },
{
    match cadr(stack_instruction) {
        Ok(out) => Ok(out),
        Err(_) => Err(MachineError::MalformedInstruction),
    }
}

/// The destination operand of a `goto`.
pub fn goto_dest(goto_instruction: &Exp) -> (r: Result<Exp, MachineError>)
    ensures
        match r {
            Ok(out) => elems_of(*goto_instruction).len() >= 2 && out == elems_of(
                *goto_instruction,
            )[1],
            Err(_) => elems_of(*goto_instruction).len() < 2 || !(*goto_instruction
                matches Exp::List(_)),
        },
{
    match cadr(goto_instruction) {
        Ok(out) => Ok(out),
        Err(_) => Err(MachineError::BadGoto),
    }
}

/// The destination operand of a `branch`.
pub fn branch_dest(branch_instruction: &Exp) -> (r: Result<Exp, MachineError>)
    ensures
        match r {
            Ok(out) => elems_of(*branch_instruction).len() >= 2 && out == elems_of(
                *branch_instruction,
            )[1],
            Err(_) => elems_of(*branch_instruction).len() < 2 || !(*branch_instruction
                matches Exp::List(_)),
        },
{
    match cadr(branch_instruction) {
        Ok(out) => Ok(out),
        Err(_) => Err(MachineError::BadBranch),
    }
}

/// The condition of a `test`: everything after the head.
pub fn test_condition(test_instruction: &Exp) -> (r: Result<Exp, MachineError>)
    ensures
        match r {
            Ok(out) => test_instruction.spec_is_pair() && (out matches Exp::List(_)) && elems_of(
                out,
            ) == elems_of(*test_instruction).drop_first(),
            Err(_) => !test_instruction.spec_is_pair(),
        },
{
    match cdr(test_instruction) {
        Ok(out) => Ok(out),
        Err(_) => Err(MachineError::BadTest),
    }
}

/// The action of a `perform`: everything after the head.
pub fn perform_action(inst: &Exp) -> (r: Result<Exp, MachineError>)
    ensures
        match r {
            Ok(out) => inst.spec_is_pair() && (out matches Exp::List(_)) && elems_of(out)
                == elems_of(*inst).drop_first(),
            Err(_) => !inst.spec_is_pair(),
        },
{
    match cdr(inst) {
        Ok(out) => Ok(out),
        Err(_) => Err(MachineError::BadPerform),
    }
}

/// The target register of an `assign`.
pub fn assign_reg_name(assign_instruction: &Exp) -> (r: Result<Exp, MachineError>)
    ensures
        match r {
            Ok(out) => elems_of(*assign_instruction).len() >= 2 && out == elems_of(
                *assign_instruction,
            )[1],
            Err(_) => elems_of(*assign_instruction).len() < 2 || !(*assign_instruction
                matches Exp::List(_)),
        },
{
    match cadr(assign_instruction) {
        Ok(out) => Ok(out),
        Err(_) => Err(MachineError::MalformedInstruction),
    }
}

/// The value source of an `assign`: everything after the register.
pub fn assign_value_exp(assign_instruction: &Exp) -> (r: Result<Exp, MachineError>)
    ensures
        match r {
            Ok(out) => elems_of(*assign_instruction).len() >= 2 && (out matches Exp::List(_))
                && elems_of(out) == elems_of(*assign_instruction).skip(2),
            Err(_) => elems_of(*assign_instruction).len() < 2 || !(*assign_instruction
                matches Exp::List(_)),
        },
{
    match cddr(assign_instruction) {
        Ok(out) => Ok(out),
        Err(_) => Err(MachineError::MalformedInstruction),
    }
}

/// The full compile contract of `(save r)`: the register symbol on
/// success; a malformed instruction exactly otherwise.
pub open spec fn spec_save_compiles(inst: Exp, r: Result<CompiledInstruction, MachineError>) -> bool {
    match r {
        Ok(c) => elems_of(inst).len() >= 2 && (elems_of(inst)[1] matches Exp::Symbol(s) && c
            == CompiledInstruction::Save(s)),
        Err(e) => (elems_of(inst).len() < 2 || !(elems_of(inst)[1] matches Exp::Symbol(_))) && e
            == MachineError::MalformedInstruction,
    }
}

/// Compiles `(save reg)`: the register name is fixed now, the push
/// happens at run time.
pub fn make_save(inst: &Exp) -> (r: Result<CompiledInstruction, MachineError>)
    ensures
        spec_save_compiles(*inst, r),
{
    match cadr(inst) {
        Ok(Exp::Symbol(name)) => Ok(CompiledInstruction::Save(name)),
        _ => Err(MachineError::MalformedInstruction),
    }
}

/// The full compile contract of `(restore r)`, mirror of the save
/// form.
pub open spec fn spec_restore_compiles(
    inst: Exp,
    r: Result<CompiledInstruction, MachineError>,
) -> bool {
    match r {
        Ok(c) => elems_of(inst).len() >= 2 && (elems_of(inst)[1] matches Exp::Symbol(s) && c
            == CompiledInstruction::Restore(s)),
        Err(e) => (elems_of(inst).len() < 2 || !(elems_of(inst)[1] matches Exp::Symbol(_))) && e
            == MachineError::MalformedInstruction,
    }
}

/// Compiles `(restore reg)`: the register name is fixed now, the pop
/// happens at run time.
pub fn make_restore(inst: &Exp) -> (r: Result<CompiledInstruction, MachineError>)
    ensures
        spec_restore_compiles(*inst, r),
{
    match cadr(inst) {
        Ok(Exp::Symbol(name)) => Ok(CompiledInstruction::Restore(name)),
        _ => Err(MachineError::MalformedInstruction),
    }
}

/// A well-formed branch: `(branch (label l))` with `l` declared.
pub open spec fn spec_branch_form_ok(inst: Exp, labels: Seq<LabelEntry>) -> bool {
    &&& elems_of(inst).len() >= 2
    &&& spec_is_tag(elems_of(inst)[1], "label"@)
    &&& elems_of(elems_of(inst)[1]).len() >= 2
    &&& (elems_of(elems_of(inst)[1])[1] matches Exp::Symbol(s) && spec_label_lookup(labels, s@)
        is Some)
}

/// The error an ill-formed branch draws: an undeclared label when
/// only the declaration is missing, a bad branch otherwise.
pub open spec fn spec_branch_error(inst: Exp, labels: Seq<LabelEntry>) -> MachineError {
    if elems_of(inst).len() >= 2 && spec_is_tag(elems_of(inst)[1], "label"@) && elems_of(
        elems_of(inst)[1],
    ).len() >= 2 && (elems_of(elems_of(inst)[1])[1] matches Exp::Symbol(_)) {
        MachineError::UndeclaredLabel
    } else {
        MachineError::BadBranch
    }
}

/// The full compile contract of a branch.
pub open spec fn spec_branch_compiles(
    inst: Exp,
    labels: Seq<LabelEntry>,
    r: Result<CompiledInstruction, MachineError>,
) -> bool {
    match r {
        Ok(c) => spec_branch_form_ok(inst, labels) && (elems_of(elems_of(inst)[1])[1] matches
            Exp::Symbol(s) && spec_label_lookup(labels, s@) matches Some(off) && c
            == CompiledInstruction::Branch(off as usize)),
        Err(e) => !spec_branch_form_ok(inst, labels) && e == spec_branch_error(inst, labels),
    }
}

/// Compiles `(branch (label l))`: the destination label resolves to
/// its offset now; the flag check happens at run time.  Succeeds on
/// exactly the well-formed branch forms.
pub fn make_branch(inst: &Exp, machine: &BasicMachine) -> (r: Result<
    CompiledInstruction,
    MachineError,
>)
    ensures
        spec_branch_compiles(*inst, machine.labels@, r),
{
    let dest = match cadr(inst) {
        Ok(d) => d,
        Err(_) => {
            return Err(MachineError::BadBranch);
        },
    };
    if is_label_exp(&dest) {
        let label = match cadr(&dest) {
            Ok(Exp::Symbol(name)) => name,
            _ => {
                return Err(MachineError::BadBranch);
            },
        };
        match lookup_label(machine, &label) {
            Some(off) => Ok(CompiledInstruction::Branch(off)),
            None => Err(MachineError::UndeclaredLabel),
        }
    } else {
        Err(MachineError::BadBranch)
    }
}

/// A well-formed goto: `(goto (label l))` with `l` declared, or
/// `(goto (reg r))`.
pub open spec fn spec_goto_form_ok(inst: Exp, labels: Seq<LabelEntry>) -> bool {
    elems_of(inst).len() >= 2 && {
        let d = elems_of(inst)[1];
        if spec_is_tag(d, "label"@) {
            elems_of(d).len() >= 2 && (elems_of(d)[1] matches Exp::Symbol(s) && spec_label_lookup(
                labels,
                s@,
            ) is Some)
        } else if spec_is_tag(d, "reg"@) {
            elems_of(d).len() >= 2 && (elems_of(d)[1] matches Exp::Symbol(_))
        } else {
            false
        }
    }
}

/// The error an ill-formed goto draws.
pub open spec fn spec_goto_error(inst: Exp, labels: Seq<LabelEntry>) -> MachineError {
    if elems_of(inst).len() >= 2 && spec_is_tag(elems_of(inst)[1], "label"@) && elems_of(
        elems_of(inst)[1],
    ).len() >= 2 && (elems_of(elems_of(inst)[1])[1] matches Exp::Symbol(_)) {
        MachineError::UndeclaredLabel
    } else {
        MachineError::BadGoto
    }
}

/// The full compile contract of a goto.
pub open spec fn spec_goto_compiles(
    inst: Exp,
    labels: Seq<LabelEntry>,
    r: Result<CompiledInstruction, MachineError>,
) -> bool {
    match r {
        Ok(c) => spec_goto_form_ok(inst, labels) && match c {
            CompiledInstruction::GotoLabel(off) => spec_is_tag(elems_of(inst)[1], "label"@) && (
            elems_of(elems_of(inst)[1])[1] matches Exp::Symbol(s) && spec_label_lookup(labels, s@)
                == Some(off as int)),
            CompiledInstruction::GotoRegister(name) => spec_is_tag(elems_of(inst)[1], "reg"@)
                && elems_of(elems_of(inst)[1])[1] == Exp::Symbol(name),
            _ => false,
        },
        Err(e) => !spec_goto_form_ok(inst, labels) && e == spec_goto_error(inst, labels),
    }
}

/// Compiles `(goto (label l))` or `(goto (reg r))`: a label
/// destination resolves to its offset now; a register destination is
/// read at run time.  Succeeds on exactly the well-formed goto forms.
pub fn make_goto(inst: &Exp, machine: &BasicMachine) -> (r: Result<
    CompiledInstruction,
    MachineError,
>)
    ensures
        spec_goto_compiles(*inst, machine.labels@, r),
{
    proof {
        reveal_strlit("label");
        reveal_strlit("reg");
        assert("label"@ != "reg"@) by {
            assert("label"@.len() == 5 && "reg"@.len() == 3);
        }
    }
    let dest = match cadr(inst) {
        Ok(d) => d,
        Err(_) => {
            return Err(MachineError::BadGoto);
        },
    };
    if is_label_exp(&dest) {
        let label = match cadr(&dest) {
            Ok(Exp::Symbol(name)) => name,
            _ => {
                return Err(MachineError::BadGoto);
            },
        };
        match lookup_label(machine, &label) {
            Some(off) => Ok(CompiledInstruction::GotoLabel(off)),
            None => Err(MachineError::UndeclaredLabel),
        }
    } else if is_register_exp(&dest) {
        match cadr(&dest) {
            Ok(Exp::Symbol(name)) => Ok(CompiledInstruction::GotoRegister(name)),
            _ => Err(MachineError::BadGoto),
        }
    } else {
        Err(MachineError::BadGoto)
    }
}

/// The full compile contract of a test: the condition (everything
/// after the head) must be a well-formed operation form, and the
/// compiled call carries its name and operands.
pub open spec fn spec_test_compiles(
    inst: Exp,
    labels: Seq<LabelEntry>,
    r: Result<CompiledInstruction, MachineError>,
) -> bool {
    let cond = elems_of(inst).drop_first();
    match r {
        Ok(c) => inst.spec_is_pair() && spec_call_form_ok(cond, labels) && (c matches
            CompiledInstruction::Test(call) && spec_compiled_call(cond, labels, call)),
        Err(e) => !(inst.spec_is_pair() && spec_call_form_ok(cond, labels)) && e == (
        if !inst.spec_is_pair() || !(cond.len() >= 1 && spec_is_tag(cond[0], "op"@)) {
            MachineError::BadTest
        } else {
            spec_call_error(cond, labels)
        }),
    }
}

/// Compiles `(test (op name) operand ...)`: the condition must be an
/// operation form; its result goes to the flag at run time.
pub fn make_test(inst: &Exp, machine: &BasicMachine) -> (r: Result<
    CompiledInstruction,
    MachineError,
>)
    ensures
        spec_test_compiles(*inst, machine.labels@, r),
{
    let condition = match cdr(inst) {
        Ok(c) => c,
        Err(_) => {
            return Err(MachineError::BadTest);
        },
    };
    if is_operation_exp(&condition) {
        let call = make_operation_exp(&condition, machine)?;
        Ok(CompiledInstruction::Test(call))
    } else {
        Err(MachineError::BadTest)
    }
}

/// A well-formed assign value: an operation form, or a single
/// primitive operand.
pub open spec fn spec_assign_value_ok(vp: Seq<Exp>, labels: Seq<LabelEntry>) -> bool {
    if vp.len() >= 1 && spec_is_tag(vp[0], "op"@) {
        spec_call_form_ok(vp, labels)
    } else {
        vp.len() >= 1 && spec_primitive_form_ok(vp[0], labels)
    }
}

/// A well-formed assign: a register symbol, then a well-formed
/// value.
pub open spec fn spec_assign_form_ok(inst: Exp, labels: Seq<LabelEntry>) -> bool {
    elems_of(inst).len() >= 2 && (elems_of(inst)[1] matches Exp::Symbol(_))
        && spec_assign_value_ok(elems_of(inst).skip(2), labels)
}

/// The error an ill-formed assign draws.
pub open spec fn spec_assign_error(inst: Exp, labels: Seq<LabelEntry>) -> MachineError {
    let vp = elems_of(inst).skip(2);
    if !(elems_of(inst).len() >= 2 && (elems_of(inst)[1] matches Exp::Symbol(_))) {
        MachineError::MalformedInstruction
    } else if vp.len() >= 1 && spec_is_tag(vp[0], "op"@) {
        spec_call_error(vp, labels)
    } else if vp.len() == 0 {
        MachineError::MalformedInstruction
    } else {
        spec_primitive_error(vp[0], labels)
    }
}

/// The full compile contract of an assign: the target register name
/// and the compiled value source, operation or primitive.
pub open spec fn spec_assign_compiles(
    inst: Exp,
    labels: Seq<LabelEntry>,
    r: Result<CompiledInstruction, MachineError>,
) -> bool {
    let vp = elems_of(inst).skip(2);
    match r {
        Ok(c) => spec_assign_form_ok(inst, labels) && (c matches CompiledInstruction::Assign(
            name,
            src,
        ) && name == elems_of(inst)[1]->Symbol_0 && (if vp.len() >= 1 && spec_is_tag(
            vp[0],
            "op"@,
        ) {
            src matches AssignSource::Operation(call) && spec_compiled_call(vp, labels, call)
        } else {
            src matches AssignSource::Primitive(p) && spec_compiled_primitive(vp[0], labels, p)
        })),
        Err(e) => !spec_assign_form_ok(inst, labels) && e == spec_assign_error(inst, labels),
    }
}

/// Compiles `(assign reg value)`: the target register name is fixed
/// now; the value source is an operation form or a single primitive
/// operand.  Succeeds on exactly the well-formed assign forms.
pub fn make_assign(inst: &Exp, machine: &BasicMachine) -> (r: Result<
    CompiledInstruction,
    MachineError,
>)
    ensures
        spec_assign_compiles(*inst, machine.labels@, r),
{
    let reg_name = match cadr(inst) {
        Ok(Exp::Symbol(name)) => name,
        _ => {
            return Err(MachineError::MalformedInstruction);
        },
    };
    let value_exp = match cddr(inst) {
        Ok(v) => v,
        Err(_) => {
            proof {
                assert(false);
            }
            return Err(MachineError::MalformedInstruction);
        },
    };
    if is_operation_exp(&value_exp) {
        let call = make_operation_exp(&value_exp, machine)?;
        Ok(CompiledInstruction::Assign(reg_name, AssignSource::Operation(call)))
    } else {
        let first = match car(&value_exp) {
            Ok(f) => f,
            Err(_) => {
                return Err(MachineError::MalformedInstruction);
            },
        };
        let p = make_primitive_exp(&first, machine)?;
        Ok(CompiledInstruction::Assign(reg_name, AssignSource::Primitive(p)))
    }
}

/// The routing entry for an operation name: the first pair whose
/// name matches gives the designated register; none means the result
/// is not routed.
pub open spec fn spec_route(routing: Seq<(String, String)>, name: Seq<char>) -> Option<String>
    decreases routing.len(),
{
    if routing.len() == 0 {
        None
    } else if routing[0].0@ == name {
        Some(routing[0].1)
    } else {
        spec_route(routing.drop_first(), name)
    }
}

/// A match at `k` with no earlier match is the routing entry found.
proof fn lemma_route_at(routing: Seq<(String, String)>, name: Seq<char>, k: int)
    requires
        0 <= k < routing.len(),
        routing[k].0@ == name,
        forall|q: int| 0 <= q < k ==> (#[trigger] routing[q].0)@ != name,
    ensures
        spec_route(routing, name) == Some(routing[k].1),
    decreases routing.len(),
{
    if k > 0 {
        assert(forall|q: int|
            1 <= q < routing.len() ==> #[trigger] routing[q] == routing.drop_first()[q - 1]);
        lemma_route_at(routing.drop_first(), name, k - 1);
    }
}

/// No matching entry anywhere means no routing.
proof fn lemma_route_none(routing: Seq<(String, String)>, name: Seq<char>)
    requires
        forall|q: int| 0 <= q < routing.len() ==> (#[trigger] routing[q].0)@ != name,
    ensures
        spec_route(routing, name) is None,
    decreases routing.len(),
{
    if routing.len() > 0 {
        assert(forall|q: int|
            1 <= q < routing.len() ==> #[trigger] routing[q] == routing.drop_first()[q - 1]);
        lemma_route_none(routing.drop_first(), name);
    }
}

/// The full compile contract of a perform: the action (everything
/// after the head) must be a well-formed operation form; the route
/// is the embedder's first matching metadata entry.
pub open spec fn spec_perform_compiles(
    inst: Exp,
    labels: Seq<LabelEntry>,
    routing: Seq<(String, String)>,
    r: Result<CompiledInstruction, MachineError>,
) -> bool {
    let ap = elems_of(inst).drop_first();
    match r {
        Ok(c) => inst.spec_is_pair() && spec_call_form_ok(ap, labels) && (c matches
            CompiledInstruction::Perform(call, route) && spec_compiled_call(ap, labels, call)
            && route == spec_route(routing, elems_of(ap[0])[1]->Symbol_0@)),
        Err(e) => !(inst.spec_is_pair() && spec_call_form_ok(ap, labels)) && e == (
        if !inst.spec_is_pair() || !(ap.len() >= 1 && spec_is_tag(ap[0], "op"@)) {
            MachineError::BadPerform
        } else {
            spec_call_error(ap, labels)
        }),
    }
}

/// Compiles `(perform (op name) operand ...)`: the action must be an
/// operation form.  Whether its result routes back into a register
/// is the embedder's per-operation metadata, not a property of the
/// name the core would hardcode.
pub fn make_perform(inst: &Exp, machine: &BasicMachine, routing: &Vec<(String, String)>) -> (r:
    Result<CompiledInstruction, MachineError>)
    ensures
        spec_perform_compiles(*inst, machine.labels@, routing@, r),
{
    let action = match cdr(inst) {
        Ok(a) => a,
        Err(_) => {
            return Err(MachineError::BadPerform);
        },
    };
    if !is_operation_exp(&action) {
        return Err(MachineError::BadPerform);
    }
    let call = make_operation_exp(&action, machine)?;
    let mut route: Option<String> = None;
    let mut k: usize = 0;
    let ghost name_v = call.name@;
    while k < routing.len() && route.is_none()
        invariant
            k <= routing@.len(),
            name_v == call.name@,
            match route {
                None => forall|q: int| 0 <= q < k ==> (#[trigger] routing@[q].0)@ != name_v,
                Some(rt) => spec_route(routing@, name_v) == Some(rt),
            },
        decreases routing@.len() - k, 1int - (if route is Some { 1int } else { 0int }),
    {
        if str_is(&routing[k].0, call.name.as_str()) {
            proof {
                lemma_route_at(routing@, name_v, k as int);
            }
            route = Some(routing[k].1.clone());
        } else {
            k = k + 1;
        }
    }
    proof {
        if route is None {
            lemma_route_none(routing@, name_v);
        }
    }
    Ok(CompiledInstruction::Perform(call, route))
}

/// The full compile contract of one instruction form: the matching
/// builder's contract for a known head symbol, a fatal unknown
/// instruction otherwise.
pub open spec fn spec_compiles_to(
    inst: Exp,
    labels: Seq<LabelEntry>,
    routing: Seq<(String, String)>,
    r: Result<CompiledInstruction, MachineError>,
) -> bool {
    if !(inst.spec_is_pair() && elems_of(inst)[0] matches Exp::Symbol(_)) {
        r matches Err(e) && e == MachineError::UnknownInstruction
    } else {
        let s = elems_of(inst)[0]->Symbol_0@;
        if s == "assign"@ {
            spec_assign_compiles(inst, labels, r)
        } else if s == "test"@ {
            spec_test_compiles(inst, labels, r)
        } else if s == "branch"@ {
            spec_branch_compiles(inst, labels, r)
        } else if s == "goto"@ {
            spec_goto_compiles(inst, labels, r)
        } else if s == "save"@ {
            spec_save_compiles(inst, r)
        } else if s == "restore"@ {
            spec_restore_compiles(inst, r)
        } else if s == "perform"@ {
            spec_perform_compiles(inst, labels, routing, r)
        } else {
            r matches Err(e) && e == MachineError::UnknownInstruction
        }
    }
}

/// Compiles one instruction form, dispatching on its head symbol:
/// the result is exactly what the matching builder's contract says,
/// and an unknown head is fatal at assembly time.
pub fn make_execution_procedure(
    inst: &Exp,
    machine: &BasicMachine,
    routing: &Vec<(String, String)>,
) -> (r: Result<CompiledInstruction, MachineError>)
    ensures
        spec_compiles_to(*inst, machine.labels@, routing@, r),
{
    proof {
        reveal_strlit("assign");
        reveal_strlit("test");
        reveal_strlit("branch");
        reveal_strlit("goto");
        reveal_strlit("save");
        reveal_strlit("restore");
        reveal_strlit("perform");
        assert("assign"@ != "branch"@) by {
            assert("assign"@[0] == 'a' && "branch"@[0] == 'b');
        }
        assert("test"@ != "goto"@ && "test"@ != "save"@ && "goto"@ != "save"@) by {
            assert("test"@[0] == 't' && "goto"@[0] == 'g' && "save"@[0] == 's');
        }
        assert("restore"@ != "perform"@) by {
            assert("restore"@[0] == 'r' && "perform"@[0] == 'p');
        }
        assert("assign"@.len() == 6 && "test"@.len() == 4 && "branch"@.len() == 6 && "goto"@.len()
            == 4 && "save"@.len() == 4 && "restore"@.len() == 7 && "perform"@.len() == 7);
    }
    let head = match car(inst) {
        Ok(h) => h,
        Err(_) => {
            return Err(MachineError::UnknownInstruction);
        },
    };
    let symbol = match head {
        Exp::Symbol(s) => s,
        _ => {
            return Err(MachineError::UnknownInstruction);
        },
    };
    if str_is(&symbol, "assign") {
        make_assign(inst, machine)
    } else if str_is(&symbol, "test") {
        make_test(inst, machine)
    } else if str_is(&symbol, "branch") {
        make_branch(inst, machine)
    } else if str_is(&symbol, "goto") {
        make_goto(inst, machine)
    } else if str_is(&symbol, "save") {
        make_save(inst)
    } else if str_is(&symbol, "restore") {
        make_restore(inst)
    } else if str_is(&symbol, "perform") {
        make_perform(inst, machine, routing)
    } else {
        Err(MachineError::UnknownInstruction)
    }
}

/// Reads the controller text and fills the machine's label table,
/// returning the clean instruction forms — both tied to the text
/// exactly as `extract_labels` ties them.  The label table is
/// complete before any instruction compiles, so forward references
/// resolve at assembly time.
pub fn extract_labels_alternative(text: String, machine: &mut BasicMachine) -> (r: Result<
    Vec<Exp>,
    MachineError,
>)
    ensures
        final (machine).registers == old(machine).registers,
        final (machine).stack == old(machine).stack,
        final (machine).instruction_sequence == old(machine).instruction_sequence,
        match r {
            Ok(insts) => (spec_read_exp(text@) matches Some(ev) && (ev matches ExpV::List(itemsv)
                && exists|items: Seq<Exp>|
                    views_of_exps(items) == itemsv && final (machine).labels@
                        == #[trigger] spec_extract_labels(items, 0) && insts@
                        == spec_extract_insts(items))),
            Err(e) => e == MachineError::SyntaxError && (spec_read_exp(text@) is None || !(
            spec_read_exp(text@)->Some_0 matches ExpV::List(_))) && final (machine).labels == old(
                machine,
            ).labels,
        },
{
    let (labels, insts) = match extract_labels(text) {
        Ok(p) => p,
        Err(e) => {
            return Err(e);
        },
    };
    machine.labels = labels;
    Ok(insts)
}

/// Compiles a symbolic program (already separated from its labels)
/// into the machine's instruction vector: one compiled instruction
/// per form, each exactly what `spec_compiles_to` says against the
/// machine's label table.  Success is owed when every form compiles;
/// otherwise the first failing form's error is reported, with the
/// well-formed prefix installed.
pub fn assemble_program(
    insts: &Vec<Exp>,
    machine: &mut BasicMachine,
    routing: &Vec<(String, String)>,
) -> (r: Result<(), MachineError>)
    ensures
        final (machine).registers == old(machine).registers,
        final (machine).stack == old(machine).stack,
        final (machine).labels == old(machine).labels,
        match r {
            Ok(_) => final (machine).instruction_sequence@.len() == insts@.len() && forall|q: int|
                0 <= q < insts@.len() ==> spec_compiles_to(
                    insts@[q],
                    old(machine).labels@,
                    routing@,
                    Result::Ok(#[trigger] final (machine).instruction_sequence@[q]),
                ),
            Err(e) => exists|q: int|
                0 <= q < insts@.len() && final (machine).instruction_sequence@.len() == q
                    && #[trigger] spec_compiles_to(
                    insts@[q],
                    old(machine).labels@,
                    routing@,
                    Result::Err(e),
                ) && forall|p: int|
                    0 <= p < q ==> spec_compiles_to(
                        insts@[p],
                        old(machine).labels@,
                        routing@,
                        Result::Ok(#[trigger] final (machine).instruction_sequence@[p]),
                    ),
        },
{
    machine.instruction_sequence = Vec::new();
    let mut k: usize = 0;
    while k < insts.len()
        invariant
            k <= insts@.len(),
            machine.registers == old(machine).registers,
            machine.stack == old(machine).stack,
            machine.labels == old(machine).labels,
            machine.instruction_sequence@.len() == k,
            forall|q: int|
                0 <= q < k ==> spec_compiles_to(
                    insts@[q],
                    old(machine).labels@,
                    routing@,
                    Result::Ok(#[trigger] machine.instruction_sequence@[q]),
                ),
        decreases insts@.len() - k,
    {
        match make_execution_procedure(&insts[k], machine, routing) {
            Ok(compiled) => {
                machine.instruction_sequence.push(compiled);
            },
            Err(e) => {
                return Err(e);
            },
        }
        k = k + 1;
    }
    Ok(())
}

/// Assembles a controller text into the machine: extracts the label
/// table, then compiles the clean instruction list against it with
/// `assemble_program` — label resolution happens wholly at assembly
/// time, so forward references work.  The reader in front is the
/// external collaborator the machine's interface posits; past it,
/// every compiled instruction is tied to its form exactly.
pub fn assemble(
    controller_text: String,
    machine: &mut BasicMachine,
    routing: &Vec<(String, String)>,
) -> (r: Result<(), MachineError>)
    ensures
        final (machine).registers == old(machine).registers,
        final (machine).stack == old(machine).stack,
        match r {
            Ok(_) => (spec_read_exp(controller_text@) matches Some(ev) && (ev matches
                ExpV::List(itemsv) && exists|items: Seq<Exp>|
                    {
                        &&& #[trigger] views_of_exps(items) == itemsv
                        &&& final (machine).labels@ == spec_extract_labels(items, 0)
                        &&& final (machine).instruction_sequence@.len() == spec_extract_insts(
                            items,
                        ).len()
                        &&& forall|q: int|
                            0 <= q < spec_extract_insts(items).len() ==> spec_compiles_to(
                                spec_extract_insts(items)[q],
                                final (machine).labels@,
                                routing@,
                                Result::Ok(#[trigger] final (machine).instruction_sequence@[q]),
                            )
                    })),
            Err(e) => {
                // either the text does not read as a list, or its
                // first ill-formed instruction's error is reported,
                // with the well-formed prefix installed
                if spec_read_exp(controller_text@) is None || !(spec_read_exp(
                    controller_text@,
                )->Some_0 matches ExpV::List(_)) {
                    e == MachineError::SyntaxError
                } else {
                    exists|items: Seq<Exp>|
                        {
                            &&& #[trigger] views_of_exps(items) == spec_read_exp(
                                controller_text@,
                            )->Some_0->List_0
                            &&& final (machine).labels@ == spec_extract_labels(items, 0)
                            &&& exists|q: int|
                                0 <= q < spec_extract_insts(items).len()
                                    && final (machine).instruction_sequence@.len() == q
                                    && #[trigger] spec_compiles_to(
                                    spec_extract_insts(items)[q],
                                    final (machine).labels@,
                                    routing@,
                                    Result::Err(e),
                                ) && forall|w: int|
                                    0 <= w < q ==> spec_compiles_to(
                                        spec_extract_insts(items)[w],
                                        final (machine).labels@,
                                        routing@,
                                        Result::Ok(
                                            #[trigger] final (machine).instruction_sequence@[w],
                                        ),
                                    )
                        }
                }
            },
        },
{
    let insts = extract_labels_alternative(controller_text, machine)?;
    let ghost items = choose|items: Seq<Exp>|
        #![trigger spec_extract_labels(items, 0)]
        views_of_exps(items) == spec_read_exp(controller_text@)->Some_0->List_0 && machine.labels@
            == spec_extract_labels(items, 0) && insts@ == spec_extract_insts(items);
    let res = assemble_program(&insts, machine, routing);
    match res {
        Ok(_) => Ok(()),
        Err(e) => Err(e),
    }
}

} // verus!