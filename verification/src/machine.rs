//! The machine: a flat file of named registers, the bounded stack,
//! the label table and the assembled instruction vector, together
//! with the fetch-dispatch engine.  Native operations live outside
//! the core: the machine only dispatches to them by name through the
//! embedder-supplied `OperationTable`.

use vstd::prelude::*;

use crate::errors::MachineError;
use crate::memory::Memory;
use crate::parser::str_is;
use crate::register::Register;
use crate::representation::Object;
use crate::stack::Stack;
use crate::tpfordev::{elems_of, Exp, Pair};

verus! {

/// The position of the first register of this name, scanning from
/// the front.
pub open spec fn find_reg(regs: Seq<Register>, name: Seq<char>) -> Option<int>
    decreases regs.len(),
{
    if regs.len() == 0 {
        None
    } else if regs[0].name@ == name {
        Some(0)
    } else {
        match find_reg(regs.drop_first(), name) {
            Some(k) => Some(k + 1),
            None => None,
        }
    }
}

/// What `find_reg` finds: the first position holding the name, or
/// nothing anywhere.
pub proof fn lemma_find_reg(regs: Seq<Register>, name: Seq<char>)
    ensures
        match find_reg(regs, name) {
            Some(k) => 0 <= k < regs.len() && regs[k].name@ == name && forall|j: int|
                0 <= j < k ==> (#[trigger] regs[j].name)@ != name,
            None => forall|j: int| 0 <= j < regs.len() ==> (#[trigger] regs[j].name)@ != name,
        },
    decreases regs.len(),
{
    if regs.len() > 0 && regs[0].name@ != name {
        lemma_find_reg(regs.drop_first(), name);
        assert(forall|j: int| 1 <= j < regs.len() ==> #[trigger] regs[j] == regs.drop_first()[j - 1]);
    }
}

/// Conversely, a position with the name and none before it is the
/// one `find_reg` finds.
pub proof fn lemma_find_reg_at(regs: Seq<Register>, name: Seq<char>, i: int)
    requires
        0 <= i < regs.len(),
        regs[i].name@ == name,
        forall|j: int| 0 <= j < i ==> (#[trigger] regs[j].name)@ != name,
    ensures
        find_reg(regs, name) == Some(i),
    decreases regs.len(),
{
    if i > 0 {
        assert(forall|j: int| 1 <= j < regs.len() ==> #[trigger] regs[j] == regs.drop_first()[j - 1]);
        lemma_find_reg_at(regs.drop_first(), name, i - 1);
    }
}

/// The value of the named register, if it is declared.
pub open spec fn spec_lookup(regs: Seq<Register>, name: Seq<char>) -> Option<Object> {
    match find_reg(regs, name) {
        Some(k) => Some(regs[k].contents),
        None => None,
    }
}

/// The register file with the named register overwritten (unchanged
/// when the name is not declared).
pub open spec fn spec_set_reg(regs: Seq<Register>, name: Seq<char>, v: Object) -> Seq<Register> {
    match find_reg(regs, name) {
        Some(k) => regs.update(k, Register { name: regs[k].name, contents: v }),
        None => regs,
    }
}

/// Overwriting one register leaves every other name's value alone
/// and gives the written name the new value.
pub proof fn lemma_set_reg(regs: Seq<Register>, name: Seq<char>, v: Object)
    ensures
        forall|n2: Seq<char>|
            #[trigger] spec_lookup(spec_set_reg(regs, name, v), n2) == (if n2 == name
                && find_reg(regs, name) is Some {
                Some(v)
            } else {
                spec_lookup(regs, n2)
            }),
{
    assert forall|n2: Seq<char>|
        #[trigger] spec_lookup(spec_set_reg(regs, name, v), n2) == (if n2 == name && find_reg(
            regs,
            name,
        ) is Some {
            Some(v)
        } else {
            spec_lookup(regs, n2)
        }) by {
        lemma_find_reg(regs, name);
        match find_reg(regs, name) {
            None => {},
            Some(k) => {
                let regs2 = spec_set_reg(regs, name, v);
                lemma_find_reg(regs, n2);
                match find_reg(regs, n2) {
                    Some(k2) => {
                        lemma_find_reg_at(regs2, n2, k2);
                    },
                    None => {
                        lemma_find_reg(regs2, n2);
                        if find_reg(regs2, n2) is Some {
                            let k3 = find_reg(regs2, n2)->Some_0;
                            assert(regs2[k3].name@ == regs[k3].name@);
                        }
                    },
                }
            },
        }
    }
}

/// An entry of the label table: a label name bound to an instruction
/// offset.
#[derive(Debug, PartialEq)]
pub struct LabelEntry {
    pub name: String,
    pub offset: usize,
}

/// The offset bound to a label name, if the label is declared; a
/// re-declared name keeps its last binding.
pub open spec fn spec_label_lookup(labels: Seq<LabelEntry>, name: Seq<char>) -> Option<int>
    decreases labels.len(),
{
    if labels.len() == 0 {
        None
    } else if labels.last().name@ == name {
        Some(labels.last().offset as int)
    } else {
        spec_label_lookup(labels.drop_last(), name)
    }
}

/// An operand of an operation form, resolved at assembly time: a
/// constant expression, a label already turned into its offset, or a
/// register to be read at run time.
#[derive(Debug, PartialEq)]
pub enum PrimitiveSource {
    Constant(Exp),
    LabelOffset(usize),
    RegisterName(String),
}

/// A compiled operation form: the operation's name and its resolved
/// operands, applied left to right at run time.
#[derive(Debug, PartialEq)]
pub struct OperationCall {
    pub name: String,
    pub operands: Vec<PrimitiveSource>,
}

/// The value source of a compiled `assign`.
#[derive(Debug, PartialEq)]
pub enum AssignSource {
    Operation(OperationCall),
    Primitive(PrimitiveSource),
}

/// One executable instruction, bound to a fixed offset of the
/// instruction vector.  Everything assembly-time-constant (label
/// offsets, operand shapes) is already resolved; register reads,
/// operation calls and flag checks happen at run time.
#[derive(Debug, PartialEq)]
pub enum CompiledInstruction {
    Assign(String, AssignSource),
    Test(OperationCall),
    Branch(usize),
    GotoLabel(usize),
    GotoRegister(String),
    Save(String),
    Restore(String),
    Perform(OperationCall, Option<String>),
}

impl Clone for PrimitiveSource {
    /// A deep copy that is equal to the original.
    fn clone(&self) -> (res: Self)
        ensures
            res == *self,
    {
        match self {
            PrimitiveSource::Constant(e) => PrimitiveSource::Constant(e.clone()),
            PrimitiveSource::LabelOffset(n) => PrimitiveSource::LabelOffset(*n),
            PrimitiveSource::RegisterName(s) => PrimitiveSource::RegisterName(s.clone()),
        }
    }
}

/// Two operation calls with the same name and the same operand
/// sequence mean the same thing to the engine.
pub open spec fn call_equiv(a: OperationCall, b: OperationCall) -> bool {
    a.name == b.name && a.operands@ == b.operands@
}

/// Two assign sources that mean the same thing to the engine.
pub open spec fn assign_src_equiv(a: AssignSource, b: AssignSource) -> bool {
    match (a, b) {
        (AssignSource::Operation(x), AssignSource::Operation(y)) => call_equiv(x, y),
        (AssignSource::Primitive(p), AssignSource::Primitive(q)) => p == q,
        _ => false,
    }
}

/// Two instructions that mean the same thing to the engine.
pub open spec fn inst_equiv(a: CompiledInstruction, b: CompiledInstruction) -> bool {
    match (a, b) {
        (CompiledInstruction::Assign(n1, s1), CompiledInstruction::Assign(n2, s2)) => n1 == n2
            && assign_src_equiv(s1, s2),
        (CompiledInstruction::Test(c1), CompiledInstruction::Test(c2)) => call_equiv(c1, c2),
        (CompiledInstruction::Branch(n1), CompiledInstruction::Branch(n2)) => n1 == n2,
        (CompiledInstruction::GotoLabel(n1), CompiledInstruction::GotoLabel(n2)) => n1 == n2,
        (CompiledInstruction::GotoRegister(s1), CompiledInstruction::GotoRegister(s2)) => s1 == s2,
        (CompiledInstruction::Save(s1), CompiledInstruction::Save(s2)) => s1 == s2,
        (CompiledInstruction::Restore(s1), CompiledInstruction::Restore(s2)) => s1 == s2,
        (CompiledInstruction::Perform(c1, t1), CompiledInstruction::Perform(c2, t2)) => call_equiv(
            c1,
            c2,
        ) && t1 == t2,
        _ => false,
    }
}

impl Clone for OperationCall {
    /// A deep copy that means the same thing as the original.
    fn clone(&self) -> (res: Self)
        ensures
            call_equiv(res, *self),
    {
        let mut operands: Vec<PrimitiveSource> = Vec::new();
        let mut k: usize = 0;
        while k < self.operands.len()
            invariant
                k <= self.operands@.len(),
                operands@ == self.operands@.take(k as int),
            decreases self.operands@.len() - k,
        {
            operands.push(self.operands[k].clone());
            proof {
                assert(operands@ =~= self.operands@.take(k + 1));
            }
            k = k + 1;
        }
        proof {
            assert(self.operands@.take(self.operands@.len() as int) =~= self.operands@);
        }
        OperationCall { name: self.name.clone(), operands }
    }
}

impl Clone for AssignSource {
    /// A deep copy that means the same thing as the original.
    fn clone(&self) -> (res: Self)
        ensures
            assign_src_equiv(res, *self),
    {
        match self {
            AssignSource::Operation(c) => AssignSource::Operation(c.clone()),
            AssignSource::Primitive(p) => AssignSource::Primitive(p.clone()),
        }
    }
}

impl Clone for CompiledInstruction {
    /// A deep copy that means the same thing as the original.
    fn clone(&self) -> (res: Self)
        ensures
            inst_equiv(res, *self),
    {
        match self {
            CompiledInstruction::Assign(n, s) => CompiledInstruction::Assign(n.clone(), s.clone()),
            CompiledInstruction::Test(c) => CompiledInstruction::Test(c.clone()),
            CompiledInstruction::Branch(n) => CompiledInstruction::Branch(*n),
            CompiledInstruction::GotoLabel(n) => CompiledInstruction::GotoLabel(*n),
            CompiledInstruction::GotoRegister(s) => CompiledInstruction::GotoRegister(s.clone()),
            CompiledInstruction::Save(s) => CompiledInstruction::Save(s.clone()),
            CompiledInstruction::Restore(s) => CompiledInstruction::Restore(s.clone()),
            CompiledInstruction::Perform(c, t) => CompiledInstruction::Perform(
                c.clone(),
                match t {
                    Some(s) => Some(s.clone()),
                    None => None,
                },
            ),
        }
    }
}

/// The table of native operations, supplied entirely by the
/// embedder.  The machine dispatches by name and takes the returned
/// value as it comes; `None` means the name is not registered, which
/// the engine treats as fatal.
pub trait OperationTable {
    fn call_op(&mut self, name: &String, argv: &Exp) -> Option<Exp>;
}

/// The machine: registers, stack, label table and the assembled
/// instruction vector.
pub struct BasicMachine {
    pub registers: Vec<Register>,
    pub stack: Stack,
    pub labels: Vec<LabelEntry>,
    pub instruction_sequence: Vec<CompiledInstruction>,
}

impl BasicMachine {
    /// The value of the named register.
    pub open spec fn spec_reg(&self, name: Seq<char>) -> Option<Object> {
        spec_lookup(self.registers@, name)
    }

    /// A machine with no registers, an empty stack, no labels and no
    /// instructions.
    pub fn new() -> (r: Self)
        ensures
            r.registers@.len() == 0,
            r.stack@.len() == 0,
            r.stack.spec_capacity() == 1000,
            r.labels@.len() == 0,
            r.instruction_sequence@.len() == 0,
    {
        BasicMachine {
            registers: Vec::new(),
            stack: Stack::new(),
            labels: Vec::new(),
            instruction_sequence: Vec::new(),
        }
    }

    /// The position of the named register in the file.
    fn find_register_index(&self, name: &str) -> (r: Option<usize>)
        ensures
            match r {
                Some(k) => find_reg(self.registers@, name@) == Some(k as int),
                None => find_reg(self.registers@, name@) is None,
            },
    {
        let mut k: usize = 0;
        while k < self.registers.len()
            invariant
                k <= self.registers@.len(),
                forall|j: int|
                    0 <= j < k ==> (#[trigger] self.registers@[j].name)@ != name@,
            decreases self.registers@.len() - k,
        {
            let m = self.registers[k].name.to_owned();
            if str_is(&m, name) {
                proof {
                    lemma_find_reg_at(self.registers@, name@, k as int);
                }
                return Some(k);
            }
            k = k + 1;
        }
        proof {
            lemma_find_reg(self.registers@, name@);
            if find_reg(self.registers@, name@) is Some {
                let i = find_reg(self.registers@, name@)->Some_0;
                assert(self.registers@[i].name@ == name@);
            }
        }
        None
    }

    /// A borrow of the named register, if it is declared.
    pub fn get_register(&self, name: &String) -> (r: Option<&Register>)
        ensures
            match r {
                Some(reg) => find_reg(self.registers@, name@) matches Some(k) && *reg
                    == self.registers@[k],
                None => find_reg(self.registers@, name@) is None,
            },
    {
        match self.find_register_index(name.as_str()) {
            Some(k) => {
                proof {
                    lemma_find_reg(self.registers@, name@);
                }
                Some(&self.registers[k])
            },
            None => None,
        }
    }

    /// A borrow of the named register's value, if it is declared.
    pub fn get_register_contents_ref(&self, name: String) -> (r: Option<&Object>)
        ensures
            match r {
                Some(o) => self.spec_reg(name@) == Some(*o),
                None => self.spec_reg(name@) is None,
            },
    {
        match self.find_register_index(name.as_str()) {
            Some(k) => {
                proof {
                    lemma_find_reg(self.registers@, name@);
                }
                Some(&self.registers[k].contents)
            },
            None => None,
        }
    }

    /// A copy of the named register's value, if it is declared.
    pub fn get_register_contents(&self, name: &String) -> (r: Option<Object>)
        ensures
            match r {
                Some(o) => self.spec_reg(name@) == Some(o),
                None => self.spec_reg(name@) is None,
            },
    {
        match self.find_register_index(name.as_str()) {
            Some(k) => {
                proof {
                    lemma_find_reg(self.registers@, name@);
                }
                Some(self.registers[k].contents.clone())
            },
            None => None,
        }
    }

    /// Overwrites the named register; fatal when the name was never
    /// declared.
    pub fn set_register_contents(&mut self, name: &String, item: Object) -> (r: Result<
        (),
        MachineError,
    >)
        ensures
            final (self).stack == old(self).stack,
            final (self).labels == old(self).labels,
            final (self).instruction_sequence == old(self).instruction_sequence,
            match r {
                Ok(_) => find_reg(old(self).registers@, name@) is Some && final (self).registers@
                    == spec_set_reg(old(self).registers@, name@, item),
                Err(e) => find_reg(old(self).registers@, name@) is None && e
                    == MachineError::UnknownRegister && final (self).registers@ == old(
                    self,
                ).registers@,
            },
    {
        match self.find_register_index(name.as_str()) {
            Some(k) => {
                let ghost regs0 = self.registers@;
                proof {
                    lemma_find_reg(regs0, name@);
                }
                let slot = &mut self.registers[k];
                slot.set(item);
                proof {
                    assert(self.registers@ =~= spec_set_reg(regs0, name@, item));
                }
                Ok(())
            },
            None => Err(MachineError::UnknownRegister),
        }
    }

    /// Resets the named register to the unassigned marker, declaring
    /// it if needed.
    pub fn declare_register(&mut self, name: &'static str)
        ensures
            final (self).stack == old(self).stack,
            final (self).labels == old(self).labels,
            final (self).instruction_sequence == old(self).instruction_sequence,
            forall|n2: Seq<char>|
                n2 != name@ ==> #[trigger] spec_lookup(final (self).registers@, n2) == spec_lookup(
                    old(self).registers@,
                    n2,
                ),
            forall|n2: Seq<char>|
                #[trigger] spec_lookup(old(self).registers@, n2) is Some ==> spec_lookup(
                    final (self).registers@,
                    n2,
                ) is Some,
            spec_lookup(final (self).registers@, name@) matches Some(o) && (o matches
                Object::Quote(q)) && (spec_lookup(final (self).registers@, name@)->Some_0
                ->Quote_0)@ == "unsigned"@,
    {
        let ghost regs0 = self.registers@;
        match self.find_register_index(name) {
            Some(k) => {
                proof {
                    lemma_find_reg(regs0, name@);
                }
                let slot = &mut self.registers[k];
                slot.set(Object::Quote(String::from_str("unsigned")));
                proof {
                    let item = self.registers@[k as int].contents;
                    assert(self.registers@ =~= spec_set_reg(regs0, name@, item));
                    lemma_set_reg(regs0, name@, item);
                }
            },
            None => {
                self.registers.push(Register::new(name));
                proof {
                    lemma_find_reg(regs0, name@);
                    let regs1 = self.registers@;
                    assert forall|n2: Seq<char>|
                        n2 != name@ implies #[trigger] spec_lookup(regs1, n2) == spec_lookup(
                        regs0,
                        n2,
                    ) by {
                        lemma_find_reg(regs0, n2);
                        match find_reg(regs0, n2) {
                            Some(k2) => {
                                lemma_find_reg_at(regs1, n2, k2);
                            },
                            None => {
                                lemma_find_reg(regs1, n2);
                                if find_reg(regs1, n2) is Some {
                                    let k3 = find_reg(regs1, n2)->Some_0;
                                    if k3 < regs0.len() {
                                        assert(regs1[k3].name@ == regs0[k3].name@);
                                    }
                                }
                            },
                        }
                    }
                    lemma_find_reg(regs0, name@);
                    match find_reg(regs0, name@) {
                        Some(_) => {
                            assert(false);
                        },
                        None => {
                            lemma_find_reg_at(regs1, name@, regs0.len() as int);
                        },
                    }
                }
            },
        }
    }

    /// Declares (or resets) the machine's own registers: `pc` and
    /// `flag`, the collector's reserved set, and the conventional
    /// evaluator registers; `free` starts at index zero.  Registers
    /// the embedder declared beyond these keep their values.
    pub fn initilize_registers(&mut self)
        ensures
            final (self).stack == old(self).stack,
            final (self).labels == old(self).labels,
            final (self).instruction_sequence == old(self).instruction_sequence,
            spec_lookup(final (self).registers@, "free"@) == Some(Object::Index(0usize)),
            forall|n: Seq<char>|
                (n == "pc"@ || n == "flag"@ || n == "root"@ || n == "scan"@ || n == "old"@ || n
                    == "oldcr"@ || n == "new"@ || n == "exp"@ || n == "env"@ || n == "unev"@ || n
                    == "continue"@ || n == "val"@ || n == "argl"@ || n == "proc"@ || n
                    == "relocate_continue"@) ==> #[trigger] spec_lookup(
                    final (self).registers@,
                    n,
                ) is Some,
            forall|n2: Seq<char>|
                #[trigger] spec_lookup(old(self).registers@, n2) is Some ==> spec_lookup(
                    final (self).registers@,
                    n2,
                ) is Some,
    {
        self.declare_register("pc");
        self.declare_register("flag");
        self.declare_register("root");
        self.declare_register("free");
        self.declare_register("scan");
        self.declare_register("old");
        self.declare_register("oldcr");
        self.declare_register("new");
        self.declare_register("exp");
        self.declare_register("env");
        self.declare_register("unev");
        self.declare_register("continue");
        self.declare_register("val");
        self.declare_register("argl");
        self.declare_register("proc");
        self.declare_register("relocate_continue");
        let ghost regsb = self.registers@;
        let free = String::from_str("free");
        let res = self.set_register_contents(&free, Object::Index(0));
        proof {
            lemma_set_reg(regsb, "free"@, Object::Index(0usize));
        }
        match res {
            Ok(_) => {},
            Err(_) => {
                proof {
                    assert(false);
                }
            },
        }
    }

    /// Copies one register's value into another; fatal when either
    /// name was never declared.
    pub fn assign_from_one_register_to_another(&mut self, to: &String, from: &String) -> (r:
        Result<(), MachineError>)
        ensures
            final (self).stack == old(self).stack,
            final (self).labels == old(self).labels,
            final (self).instruction_sequence == old(self).instruction_sequence,
            match r {
                Ok(_) => spec_lookup(old(self).registers@, from@) matches Some(v) && find_reg(
                    old(self).registers@,
                    to@,
                ) is Some && final (self).registers@ == spec_set_reg(
                    old(self).registers@,
                    to@,
                    spec_lookup(old(self).registers@, from@)->Some_0,
                ),
                Err(e) => final (self).registers@ == old(self).registers@ && e
                    == MachineError::UnknownRegister && (spec_lookup(old(self).registers@, from@)
                    is None || find_reg(old(self).registers@, to@) is None),
            },
    {
        match self.get_register_contents(from) {
            Some(x) => self.set_register_contents(to, x),
            None => Err(MachineError::UnknownRegister),
        }
    }

    /// Adds one to the index a register holds; fatal when the
    /// register is missing, holds no index, or holds the largest
    /// index.
    pub fn register_increment_by_one(&mut self, name: &String) -> (r: Result<(), MachineError>)
        ensures
            final (self).stack == old(self).stack,
            final (self).labels == old(self).labels,
            final (self).instruction_sequence == old(self).instruction_sequence,
            match r {
                Ok(_) => {
                    &&& spec_lookup(old(self).registers@, name@) matches Some(o)
                    &&& o matches Object::Index(i)
                    &&& i < usize::MAX
                    &&& final (self).registers@ == spec_set_reg(
                        old(self).registers@,
                        name@,
                        Object::Index((spec_lookup(old(self).registers@, name@)->Some_0->Index_0
                            + 1) as usize),
                    )
                },
                Err(e) => {
                    &&& final (self).registers@ == old(self).registers@
                    &&& match spec_lookup(old(self).registers@, name@) {
                        None => e == MachineError::UnknownRegister,
                        Some(o) => match o {
                            Object::Index(i) => i == usize::MAX && e
                                == MachineError::IndexOutOfBounds,
                            _ => e == MachineError::NotAnIndex,
                        },
                    }
                },
            },
    {
        match self.get_register_contents(name) {
            Some(Object::Index(i)) => {
                if i < usize::MAX {
                    self.set_register_contents(name, Object::Index(i + 1))
                } else {
                    Err(MachineError::IndexOutOfBounds)
                }
            },
            Some(_) => Err(MachineError::NotAnIndex),
            None => Err(MachineError::UnknownRegister),
        }
    }

    /// Points the `free` register at the next unused heap cell,
    /// declaring the register if needed.
    pub fn initilize_free_register(&mut self, next_free: usize)
        ensures
            final (self).stack == old(self).stack,
            final (self).labels == old(self).labels,
            final (self).instruction_sequence == old(self).instruction_sequence,
            spec_lookup(final (self).registers@, "free"@) == Some(Object::Index(next_free)),
            forall|n2: Seq<char>|
                n2 != "free"@ ==> #[trigger] spec_lookup(final (self).registers@, n2) == spec_lookup(
                    old(self).registers@,
                    n2,
                ),
    {
        self.declare_register("free");
        let ghost regsb = self.registers@;
        let name = String::from_str("free");
        let res = self.set_register_contents(&name, Object::Index(next_free));
        proof {
            lemma_set_reg(regsb, "free"@, Object::Index(next_free));
        }
        match res {
            Ok(_) => {},
            Err(_) => {
                proof {
                    assert(false);
                }
            },
        }
    }

    /// Advances the program counter by one.
    pub fn advance_pc(&mut self) -> (r: Result<(), MachineError>)
        ensures
            final (self).stack == old(self).stack,
            final (self).labels == old(self).labels,
            final (self).instruction_sequence == old(self).instruction_sequence,
            match r {
                Ok(_) => spec_lookup(old(self).registers@, "pc"@) matches Some(o) && (o matches
                    Object::Index(i) && i < usize::MAX) && final (self).registers@ == spec_set_reg(
                    old(self).registers@,
                    "pc"@,
                    Object::Index((spec_lookup(old(self).registers@, "pc"@)->Some_0->Index_0
                        + 1) as usize),
                ),
                Err(e) => final (self).registers@ == old(self).registers@ && match spec_lookup(
                    old(self).registers@,
                    "pc"@,
                ) {
                    None => e == MachineError::UnknownRegister,
                    Some(o) => match o {
                        Object::Index(i) => i == usize::MAX && e == MachineError::IndexOutOfBounds,
                        _ => e == MachineError::NotAnIndex,
                    },
                },
            },
    {
        let name = String::from_str("pc");
        self.register_increment_by_one(&name)
    }

    /// Advances the allocation cursor by one.
    pub fn advance_free(&mut self) -> (r: Result<(), MachineError>)
        ensures
            final (self).stack == old(self).stack,
            final (self).labels == old(self).labels,
            final (self).instruction_sequence == old(self).instruction_sequence,
            match r {
                Ok(_) => spec_lookup(old(self).registers@, "free"@) matches Some(o) && (o matches
                    Object::Index(i) && i < usize::MAX) && final (self).registers@ == spec_set_reg(
                    old(self).registers@,
                    "free"@,
                    Object::Index((spec_lookup(old(self).registers@, "free"@)->Some_0->Index_0
                        + 1) as usize),
                ),
                Err(e) => final (self).registers@ == old(self).registers@ && match spec_lookup(
                    old(self).registers@,
                    "free"@,
                ) {
                    None => e == MachineError::UnknownRegister,
                    Some(o) => match o {
                        Object::Index(i) => i == usize::MAX && e == MachineError::IndexOutOfBounds,
                        _ => e == MachineError::NotAnIndex,
                    },
                },
            },
    {
        let name = String::from_str("free");
        self.register_increment_by_one(&name)
    }

    /// Advances the scan cursor by one.
    pub fn advance_scan(&mut self) -> (r: Result<(), MachineError>)
        ensures
            final (self).stack == old(self).stack,
            final (self).labels == old(self).labels,
            final (self).instruction_sequence == old(self).instruction_sequence,
            match r {
                Ok(_) => spec_lookup(old(self).registers@, "scan"@) matches Some(o) && (o matches
                    Object::Index(i) && i < usize::MAX) && final (self).registers@ == spec_set_reg(
                    old(self).registers@,
                    "scan"@,
                    Object::Index((spec_lookup(old(self).registers@, "scan"@)->Some_0->Index_0
                        + 1) as usize),
                ),
                Err(e) => final (self).registers@ == old(self).registers@ && match spec_lookup(
                    old(self).registers@,
                    "scan"@,
                ) {
                    None => e == MachineError::UnknownRegister,
                    Some(o) => match o {
                        Object::Index(i) => i == usize::MAX && e == MachineError::IndexOutOfBounds,
                        _ => e == MachineError::NotAnIndex,
                    },
                },
            },
    {
        let name = String::from_str("scan");
        self.register_increment_by_one(&name)
    }
}

/// The full run-time contract of storing an operation's result into
/// the flag register and advancing the counter (a `test`'s commit):
/// exactly when each fatal condition arises, and the exact register
/// file on success.
pub open spec fn spec_commit_test_post(
    m0: BasicMachine,
    m1: BasicMachine,
    value: Exp,
    r: Result<(), MachineError>,
) -> bool {
    match r {
        Ok(_) => {
            &&& !(value matches Exp::List(_))
            &&& find_reg(m0.registers@, "flag"@) is Some
            &&& ({
                let regs1 = spec_set_reg(m0.registers@, "flag"@, value.spec_to_object());
                &&& spec_advance_ok(spec_lookup(regs1, "pc"@))
                &&& m1.registers@ == spec_set_reg(
                    regs1,
                    "pc"@,
                    Object::Index((spec_lookup(regs1, "pc"@)->Some_0->Index_0 + 1) as usize),
                )
            })
        },
        Err(e) => {
            let regs1 = spec_set_reg(m0.registers@, "flag"@, value.spec_to_object());
            if value matches Exp::List(_) {
                e == MachineError::SyntaxError && m1.registers@ == m0.registers@
            } else if find_reg(m0.registers@, "flag"@) is None {
                e == MachineError::UnknownRegister && m1.registers@ == m0.registers@
            } else {
                // the flag is already set when advancing the counter
                // fails
                m1.registers@ == regs1 && !spec_advance_ok(spec_lookup(regs1, "pc"@)) && e
                    == spec_advance_error(spec_lookup(regs1, "pc"@))
            }
        },
    }
}

/// How a register value holding a heap index reads back: the
/// structure renders to text, and that text re-reads; the result's
/// shape is the re-reading.  `None` when either step fails.
pub open spec fn spec_structure_reads_back(
    cars: Seq<Object>,
    cdrs: Seq<Object>,
    i: int,
) -> Option<crate::tpfordev::ExpV> {
    if !(0 <= i < cars.len()) {
        None
    } else {
        match crate::register::spec_list_render(cars, cdrs, i, cars.len() as nat) {
            None => None,
            Some(text) => crate::parserfordev::spec_read_exp(text),
        }
    }
}

/// How a scalar machine value reads back as an expression (the
/// relation `object_to_exp` decides).
pub open spec fn scalar_reads_back(v: Object, out: Exp) -> bool {
    match v {
        Object::Number(x) => out == Exp::FloatNumber(x),
        Object::Integer(x) => out == Exp::Integer(x),
        Object::Symbol(x) => out == Exp::Symbol(x),
        Object::Quote(x) => out == Exp::Quote(x),
        Object::LispString(x) => out == Exp::SchemeString(x),
        Object::Bool(x) => out == Exp::Bool(x),
        _ => false,
    }
}

/// Whether a scalar machine value has a symbolic reading at all.
pub open spec fn scalar_convertible(v: Object) -> bool {
    match v {
        Object::Number(_) | Object::Integer(_) | Object::Symbol(_) | Object::Quote(_)
            | Object::LispString(_) | Object::Bool(_) => true,
        _ => false,
    }
}

/// Whether a counter value can be advanced: a declared register
/// holding an index below the largest one.
pub open spec fn spec_advance_ok(o: Option<Object>) -> bool {
    o matches Some(v) && (v matches Object::Index(p) && p < usize::MAX)
}

/// The error an unadvanceable counter draws.
pub open spec fn spec_advance_error(o: Option<Object>) -> MachineError {
    match o {
        None => MachineError::UnknownRegister,
        Some(v) => match v {
            Object::Index(_) => MachineError::IndexOutOfBounds,
            _ => MachineError::NotAnIndex,
        },
    }
}

/// The counter an assign must advance afterwards: the value being
/// stored when the target is `pc` itself, the current counter
/// otherwise.
pub open spec fn spec_assign_pc_source(
    regs: Seq<Register>,
    name: Seq<char>,
    stored: Object,
) -> Option<Object> {
    if name == "pc"@ {
        Some(stored)
    } else {
        spec_lookup(regs, "pc"@)
    }
}

/// The full run-time contract of storing `value` into the register
/// `name` and advancing the counter (an `assign`'s commit, also a
/// routed `perform`'s): exactly when each fatal condition arises,
/// and the exact machine and heap state on success.
pub open spec fn spec_commit_assign_post(
    m0: BasicMachine,
    mem0: Memory,
    m1: BasicMachine,
    mem1: Memory,
    name: Seq<char>,
    value: Exp,
    r: Result<(), MachineError>,
) -> bool {
    match value {
        Exp::List(spine) => match spine {
            Pair::Nil => (r matches Err(e) && e == MachineError::SyntaxError) && m1.registers@
                == m0.registers@ && mem1.the_cars@ == mem0.the_cars@ && mem1.the_cdrs@
                == mem0.the_cdrs@,
            _ => {
                let sz = crate::memory::spec_size_pair(spine);
                let free0 = spec_lookup(m0.registers@, "free"@);
                if find_reg(m0.registers@, name) is None {
                    (r matches Err(e) && e == MachineError::UnknownRegister) && m1.registers@
                        == m0.registers@ && mem1.the_cars@ == mem0.the_cars@ && mem1.the_cdrs@
                        == mem0.the_cdrs@
                } else if !(free0 matches Some(o) && o matches Object::Index(_)) {
                    (r matches Err(e) && e == (if free0 is None {
                        MachineError::UnknownRegister
                    } else {
                        MachineError::NotAnIndex
                    })) && m1.registers@ == m0.registers@ && mem1.the_cars@ == mem0.the_cars@
                        && mem1.the_cdrs@ == mem0.the_cdrs@
                } else {
                    // the structure is loaded at the allocation
                    // cursor, and the cursor is the counter to
                    // advance when `pc` itself is the target
                    let b = free0->Some_0->Index_0;
                    let pc_src = spec_assign_pc_source(m0.registers@, name, Object::Index(b));
                    if !spec_advance_ok(pc_src) {
                        (r matches Err(e) && e == spec_advance_error(pc_src)) && m1.registers@
                            == m0.registers@ && mem1.the_cars@ == mem0.the_cars@
                            && mem1.the_cdrs@ == mem0.the_cdrs@
                    } else if b + sz > mem0.spec_capacity() {
                        // the structure outgrew the generation: a
                        // prefix of it is written, the registers
                        // untouched
                        (r matches Err(e) && e == MachineError::IndexOutOfBounds) && m1.registers@
                            == m0.registers@
                    } else {
                        &&& r matches Ok(_)
                        &&& crate::memory::spec_list_cells(
                            mem1.the_cars@,
                            mem1.the_cdrs@,
                            spine,
                            b as int,
                        )
                        &&& forall|n2: Seq<char>|
                            n2 != name && n2 != "pc"@ && n2 != "free"@ ==> #[trigger] spec_lookup(
                                m1.registers@,
                                n2,
                            ) == spec_lookup(m0.registers@, n2)
                        &&& (name != "pc"@ && name != "free"@ ==> spec_lookup(m1.registers@, name)
                            == Some(Object::Index(b)))
                        &&& (name != "free"@ ==> spec_lookup(m1.registers@, "free"@) == Some(
                            Object::Index((b + sz) as usize),
                        ))
                        &&& spec_lookup(m1.registers@, "pc"@) == Some(
                            Object::Index((pc_src->Some_0->Index_0 + 1) as usize),
                        )
                    }
                }
            },
        },
        _ => {
            let stored = value.spec_to_object();
            let pc_src = spec_assign_pc_source(m0.registers@, name, stored);
            if find_reg(m0.registers@, name) is None {
                (r matches Err(e) && e == MachineError::UnknownRegister) && m1.registers@
                    == m0.registers@ && mem1.the_cars@ == mem0.the_cars@ && mem1.the_cdrs@
                    == mem0.the_cdrs@
            } else if !spec_advance_ok(pc_src) {
                (r matches Err(e) && e == spec_advance_error(pc_src)) && m1.registers@
                    == m0.registers@ && mem1.the_cars@ == mem0.the_cars@ && mem1.the_cdrs@
                    == mem0.the_cdrs@
            } else {
                &&& r matches Ok(_)
                &&& mem1.the_cars@ == mem0.the_cars@
                &&& mem1.the_cdrs@ == mem0.the_cdrs@
                &&& m1.registers@ == spec_set_reg(
                    spec_set_reg(m0.registers@, name, stored),
                    "pc"@,
                    Object::Index((pc_src->Some_0->Index_0 + 1) as usize),
                )
            }
        },
    }
}

/// The full run-time contract of routing a `perform`'s result: with
/// no routing the counter just advances; with a designated register
/// a non-empty-list result commits exactly as an `assign` commits
/// one, and anything else is a bad perform, all exactly.
pub open spec fn spec_commit_perform_post(
    m0: BasicMachine,
    mem0: Memory,
    m1: BasicMachine,
    mem1: Memory,
    route: Option<String>,
    value: Exp,
    r: Result<(), MachineError>,
) -> bool {
    match route {
        None => {
            &&& mem1.the_cars@ == mem0.the_cars@
            &&& mem1.the_cdrs@ == mem0.the_cdrs@
            &&& match r {
                Ok(_) => spec_advance_ok(spec_lookup(m0.registers@, "pc"@)) && m1.registers@
                    == spec_set_reg(
                    m0.registers@,
                    "pc"@,
                    Object::Index((spec_lookup(m0.registers@, "pc"@)->Some_0->Index_0
                        + 1) as usize),
                ),
                Err(e) => !spec_advance_ok(spec_lookup(m0.registers@, "pc"@)) && e
                    == spec_advance_error(spec_lookup(m0.registers@, "pc"@)) && m1.registers@
                    == m0.registers@,
            }
        },
        Some(target) => if !value.spec_is_pair() {
            (r matches Err(e) && e == MachineError::BadPerform) && m1.registers@ == m0.registers@
                && mem1.the_cars@ == mem0.the_cars@ && mem1.the_cdrs@ == mem0.the_cdrs@
        } else {
            spec_commit_assign_post(m0, mem0, m1, mem1, target@, value, r)
        },
    }
}

/// The full run-time contract of `save r` (mirrors `step_save`).
pub open spec fn spec_step_save_post(
    m0: BasicMachine,
    m1: BasicMachine,
    name: Seq<char>,
    r: Result<(), MachineError>,
) -> bool {
    match r {
        Ok(_) => {
            &&& spec_lookup(m0.registers@, name) matches Some(v)
            &&& spec_advance_ok(spec_lookup(m0.registers@, "pc"@))
            &&& m0.stack@.len() < m0.stack.spec_capacity()
            &&& m1.stack@ == m0.stack@.push(spec_lookup(m0.registers@, name)->Some_0)
            &&& m1.registers@ == spec_set_reg(
                m0.registers@,
                "pc"@,
                Object::Index((spec_lookup(m0.registers@, "pc"@)->Some_0->Index_0 + 1) as usize),
            )
        },
        Err(e) => {
            &&& m1.registers@ == m0.registers@
            &&& m1.stack@ == m0.stack@
            &&& (if spec_lookup(m0.registers@, name) is None {
                e == MachineError::UnknownRegister
            } else if !spec_advance_ok(spec_lookup(m0.registers@, "pc"@)) {
                e == spec_advance_error(spec_lookup(m0.registers@, "pc"@))
            } else {
                m0.stack@.len() >= m0.stack.spec_capacity() && e == MachineError::StackOverflow
            })
        },
    }
}

/// The full run-time contract of `restore r` (mirrors
/// `step_restore`).
pub open spec fn spec_step_restore_post(
    m0: BasicMachine,
    m1: BasicMachine,
    name: Seq<char>,
    r: Result<(), MachineError>,
) -> bool {
    let regs15 = spec_set_reg(m0.registers@, name, m0.stack@.last());
    match r {
        Ok(_) => {
            &&& find_reg(m0.registers@, name) is Some
            &&& m0.stack@.len() > 0
            &&& spec_advance_ok(spec_lookup(regs15, "pc"@))
            &&& m1.stack@ == m0.stack@.drop_last()
            &&& m1.registers@ == spec_set_reg(
                regs15,
                "pc"@,
                Object::Index((spec_lookup(regs15, "pc"@)->Some_0->Index_0 + 1) as usize),
            )
        },
        Err(e) => {
            &&& m1.registers@ == m0.registers@
            &&& m1.stack@ == m0.stack@
            &&& (if find_reg(m0.registers@, name) is None {
                e == MachineError::UnknownRegister
            } else if m0.stack@.len() == 0 {
                e == MachineError::StackUnderflow
            } else {
                !spec_advance_ok(spec_lookup(regs15, "pc"@)) && e == spec_advance_error(
                    spec_lookup(regs15, "pc"@),
                )
            })
        },
    }
}

/// The full run-time contract of `branch l` (mirrors `step_branch`).
pub open spec fn spec_step_branch_post(
    m0: BasicMachine,
    m1: BasicMachine,
    offset: usize,
    r: Result<(), MachineError>,
) -> bool {
    match r {
        Ok(_) => {
            &&& spec_lookup(m0.registers@, "flag"@) is Some
            &&& (if spec_lookup(m0.registers@, "flag"@) == Some(Object::Bool(true)) {
                m1.registers@ == spec_set_reg(m0.registers@, "pc"@, Object::Index(offset))
                    && find_reg(m0.registers@, "pc"@) is Some
            } else {
                spec_advance_ok(spec_lookup(m0.registers@, "pc"@)) && m1.registers@
                    == spec_set_reg(
                    m0.registers@,
                    "pc"@,
                    Object::Index((spec_lookup(m0.registers@, "pc"@)->Some_0->Index_0
                        + 1) as usize),
                )
            })
        },
        Err(e) => {
            &&& m1.registers@ == m0.registers@
            &&& (if spec_lookup(m0.registers@, "flag"@) is None {
                e == MachineError::UnknownRegister
            } else if spec_lookup(m0.registers@, "flag"@) == Some(Object::Bool(true)) {
                find_reg(m0.registers@, "pc"@) is None && e == MachineError::UnknownRegister
            } else {
                !spec_advance_ok(spec_lookup(m0.registers@, "pc"@)) && e == spec_advance_error(
                    spec_lookup(m0.registers@, "pc"@),
                )
            })
        },
    }
}

/// The full run-time contract of `goto (label l)` (mirrors
/// `step_goto_label`).
pub open spec fn spec_step_goto_label_post(
    m0: BasicMachine,
    m1: BasicMachine,
    offset: usize,
    r: Result<(), MachineError>,
) -> bool {
    match r {
        Ok(_) => find_reg(m0.registers@, "pc"@) is Some && m1.registers@ == spec_set_reg(
            m0.registers@,
            "pc"@,
            Object::Index(offset),
        ),
        Err(e) => m1.registers@ == m0.registers@ && e == MachineError::UnknownRegister && find_reg(
            m0.registers@,
            "pc"@,
        ) is None,
    }
}

/// The full run-time contract of `goto (reg r)`: the counter takes
/// the register's value, whatever it holds (a non-index value then
/// stops the next fetch).
pub open spec fn spec_step_goto_register_post(
    m0: BasicMachine,
    m1: BasicMachine,
    name: Seq<char>,
    r: Result<(), MachineError>,
) -> bool {
    match r {
        Ok(_) => spec_lookup(m0.registers@, name) matches Some(v) && find_reg(
            m0.registers@,
            "pc"@,
        ) is Some && m1.registers@ == spec_set_reg(
            m0.registers@,
            "pc"@,
            spec_lookup(m0.registers@, name)->Some_0,
        ),
        Err(e) => m1.registers@ == m0.registers@ && e == MachineError::UnknownRegister && (
        spec_lookup(m0.registers@, name) is None || find_reg(m0.registers@, "pc"@) is None),
    }
}

/// Builds the list whose elements are the vector's, in order.
pub fn list_from_vec(v: Vec<Exp>) -> (r: Exp)
    ensures
        r matches Exp::List(_),
        elems_of(r) == v@,
{
    let mut spine = Exp::List(Pair::Nil);
    let mut k = v.len();
    let mut v = v;
    proof {
        assert(elems_of(spine) =~= v@.skip(v@.len() as int));
    }
    while k > 0
        invariant
            k <= v@.len(),
            spine matches Exp::List(_),
            elems_of(spine) == v@.skip(k as int),
        decreases k,
    {
        k = k - 1;
        let ghost pre = elems_of(spine);
        let item = v[k].clone();
        spine = crate::tpfordev::scheme_cons(item, spine);
        proof {
            assert(elems_of(spine) =~= v@.skip(k as int));
        }
    }
    proof {
        assert(v@.skip(0) =~= v@);
    }
    spine
}

impl BasicMachine {
    /// Renders the list structure behind the named register's index
    /// as text.
    pub fn get_register_contents_as_in_memory(&self, name: &String, memory: &Memory) -> (r: Result<
        String,
        MachineError,
    >)
        requires
            memory.wf(),
        ensures
            match r {
                Ok(s) => find_reg(self.registers@, name@) matches Some(k) && (
                self.registers@[k].contents matches Object::Index(i) && i < memory.the_cars@.len()
                    && Some(s@) == crate::register::spec_list_render(
                    memory.the_cars@,
                    memory.the_cdrs@,
                    i as int,
                    memory.the_cars@.len() as nat,
                )),
                Err(e) => match find_reg(self.registers@, name@) {
                    None => e == MachineError::UnknownRegister,
                    Some(k) => {
                        let contents = self.registers@[k].contents;
                        &&& (!(contents matches Object::Index(_)) || contents->Index_0
                            >= memory.the_cars@.len() || crate::register::spec_list_render(
                            memory.the_cars@,
                            memory.the_cdrs@,
                            contents->Index_0 as int,
                            memory.the_cars@.len() as nat,
                        ) is None)
                        &&& (e == MachineError::NotAnIndex || e == MachineError::IndexOutOfBounds
                            || e == MachineError::SyntaxError || e
                            == MachineError::StructureTooDeep)
                    },
                },
            },
    {
        match self.get_register(name) {
            Some(reg) => reg.get_list_frome_memory_as_str(memory),
            None => Err(MachineError::UnknownRegister),
        }
    }

    /// Reads a list literal from text, writes it into memory starting
    /// at the allocation cursor, and points the named register at the
    /// root — the index where the cursor stood.
    pub fn set_register_contents_as_in_memory(
        &mut self,
        name: &String,
        object: String,
        memory: &mut Memory,
    ) -> (r: Result<(), MachineError>)
        requires
            old(memory).wf(),
        ensures
            final (memory).wf(),
            final (memory).spec_capacity() == old(memory).spec_capacity(),
            final (self).stack == old(self).stack,
            final (self).labels == old(self).labels,
            final (self).instruction_sequence == old(self).instruction_sequence,
            match r {
                Ok(_) => {
                    &&& (spec_lookup(old(self).registers@, "free"@) matches Some(o) && (o matches
                        Object::Index(b) && spec_lookup(final (self).registers@, name@) == Some(
                        Object::Index(b),
                    )))
                    &&& (crate::parserfordev::spec_read_tokens(
                        crate::parser::spec_tokens(object@),
                    ) matches Some(ev) && ev matches crate::tpfordev::ExpV::List(_))
                },
                Err(e) => match crate::parserfordev::spec_read_tokens(
                    crate::parser::spec_tokens(object@),
                ) {
                    None => e == MachineError::SyntaxError,
                    Some(ev) => if !(ev matches crate::tpfordev::ExpV::List(_)) {
                        e == MachineError::SyntaxError
                    } else {
                        match spec_lookup(old(self).registers@, "free"@) {
                            None => e == MachineError::UnknownRegister,
                            Some(o) => match o {
                                Object::Index(_) => e == MachineError::IndexOutOfBounds || (e
                                    == MachineError::UnknownRegister && find_reg(
                                    old(self).registers@,
                                    name@,
                                ) is None),
                                _ => e == MachineError::NotAnIndex,
                            },
                        }
                    },
                },
            },
    {
        let ghost regs0 = self.registers@;
        let mut tokens = crate::parser::tokenizer(object);
        proof {
            assert(crate::parser::views_of(tokens@) == crate::parser::spec_tokens(object@));
        }
        let root = match crate::parser::build_syntax_tree_into_memeory(&mut tokens, memory, self) {
            Ok(root) => root,
            Err(e) => {
                return Err(e);
            },
        };
        let ghost regs1 = self.registers@;
        let res = self.set_register_contents(name, Object::Index(root));
        proof {
            lemma_set_reg(regs1, name@, Object::Index(root));
        }
        match res {
            Ok(_) => Ok(()),
            Err(e) => {
                proof {
                    // the loader touched only the `free` register,
                    // so the missing target was missing before it
                    assert(find_reg(regs1, name@) is None);
                    if name@ == "free"@ {
                        assert(spec_lookup(regs1, "free"@) is Some);
                        assert(false);
                    } else {
                        assert(spec_lookup(regs1, name@) == spec_lookup(regs0, name@));
                    }
                }
                Err(e)
            },
        }
    }

    /// Evaluates one compiled operand: a constant is itself, a label
    /// offset becomes an index value, a register read yields the
    /// register's scalar reading or, for a register holding a heap
    /// index, the list structure read back from memory (rendered to
    /// text and re-read, as the original store went the other way).
    /// Constants and label offsets always succeed; a register read
    /// fails exactly on an undeclared name, an unconvertible machine
    /// value, or a heap structure that does not render and re-read.
    pub fn eval_primitive(&self, memory: &Memory, p: &PrimitiveSource) -> (r: Result<
        Exp,
        MachineError,
    >)
        requires
            memory.wf(),
        ensures
            r matches Err(e) ==> e != MachineError::OutOfSteps,
            match p {
                PrimitiveSource::Constant(e) => r matches Ok(out) && out == *e,
                PrimitiveSource::LabelOffset(n) => r matches Ok(out) && out == Exp::Index(*n),
                PrimitiveSource::RegisterName(n) => match spec_lookup(self.registers@, n@) {
                    None => r matches Err(e) && e == MachineError::UnknownRegister,
                    Some(v) => match v {
                        Object::Index(i) => match spec_structure_reads_back(
                            memory.the_cars@,
                            memory.the_cdrs@,
                            i as int,
                        ) {
                            Some(ev) => r matches Ok(out) && crate::tpfordev::exp_view(out) == ev,
                            None => r matches Err(_),
                        },
                        _ => if scalar_convertible(v) {
                            r matches Ok(out) && scalar_reads_back(v, out)
                        } else {
                            r matches Err(e) && e == MachineError::SyntaxError
                        },
                    },
                },
            },
    {
        match p {
            PrimitiveSource::Constant(e) => Ok(e.clone()),
            PrimitiveSource::LabelOffset(n) => Ok(Exp::Index(*n)),
            PrimitiveSource::RegisterName(n) => {
                let content = match self.get_register_contents(n) {
                    Some(c) => c,
                    None => {
                        return Err(MachineError::UnknownRegister);
                    },
                };
                match content {
                    Object::Index(_) => {
                        let text = self.get_register_contents_as_in_memory(n, memory)?;
                        crate::parserfordev::str_to_exp(text)
                    },
                    other => crate::representation::object_to_exp(other),
                }
            },
        }
    }

    /// Evaluates an operation's operands left to right into the
    /// argument list handed to the native operation, each by the
    /// primitive-operand rules of `eval_primitive`.  Only a register
    /// operand can fail: one that is undeclared, holds an
    /// unconvertible machine value, or holds a heap structure that
    /// does not read back; with none of those present, success is
    /// owed.
    pub fn eval_operands(&self, memory: &Memory, operands: &Vec<PrimitiveSource>) -> (r: Result<
        Exp,
        MachineError,
    >)
        requires
            memory.wf(),
        ensures
            r matches Err(e) ==> e != MachineError::OutOfSteps,
            match r {
                Ok(out) => (out matches Exp::List(_)) && elems_of(out).len() == operands@.len()
                    && forall|k: int|
                    0 <= k < operands@.len() ==> match #[trigger] operands@[k] {
                        PrimitiveSource::Constant(e) => elems_of(out)[k] == e,
                        PrimitiveSource::LabelOffset(n) => elems_of(out)[k] == Exp::Index(n),
                        PrimitiveSource::RegisterName(n) => match spec_lookup(
                            self.registers@,
                            n@,
                        ) {
                            Some(v) => match v {
                                Object::Index(i) => spec_structure_reads_back(
                                    memory.the_cars@,
                                    memory.the_cdrs@,
                                    i as int,
                                ) == Some(crate::tpfordev::exp_view(elems_of(out)[k])),
                                _ => scalar_convertible(v) && scalar_reads_back(
                                    v,
                                    elems_of(out)[k],
                                ),
                            },
                            None => false,
                        },
                    },
                Err(_) => exists|k: int|
                    0 <= k < operands@.len() && (#[trigger] operands@[k] matches
                    PrimitiveSource::RegisterName(n) && match spec_lookup(self.registers@, n@) {
                        None => true,
                        Some(v) => match v {
                            Object::Index(i) => spec_structure_reads_back(
                                memory.the_cars@,
                                memory.the_cdrs@,
                                i as int,
                            ) is None,
                            _ => !scalar_convertible(v),
                        },
                    }),
            },
    {
        let mut values: Vec<Exp> = Vec::new();
        let mut k: usize = 0;
        while k < operands.len()
            invariant
                memory.wf(),
                k <= operands@.len(),
                values@.len() == k,
                forall|q: int|
                    0 <= q < k ==> match #[trigger] operands@[q] {
                        PrimitiveSource::Constant(e) => values@[q] == e,
                        PrimitiveSource::LabelOffset(n) => values@[q] == Exp::Index(n),
                        PrimitiveSource::RegisterName(n) => match spec_lookup(
                            self.registers@,
                            n@,
                        ) {
                            Some(v) => match v {
                                Object::Index(i) => spec_structure_reads_back(
                                    memory.the_cars@,
                                    memory.the_cdrs@,
                                    i as int,
                                ) == Some(crate::tpfordev::exp_view(values@[q])),
                                _ => scalar_convertible(v) && scalar_reads_back(v, values@[q]),
                            },
                            None => false,
                        },
                    },
            decreases operands@.len() - k,
        {
            let value = self.eval_primitive(memory, &operands[k])?;
            values.push(value);
            k = k + 1;
        }
        Ok(list_from_vec(values))
    }

    /// Dispatches one native operation by name; an unregistered name
    /// is fatal.
    pub fn call_op<T: OperationTable>(
        &self,
        ops: &mut T,
        fn_name: &String,
        argv: &Exp,
    ) -> (r: Result<Exp, MachineError>)
        ensures
            r matches Err(e) ==> e == MachineError::UnknownOperation,
    {
        match ops.call_op(fn_name, argv) {
            Some(v) => Ok(v),
            None => Err(MachineError::UnknownOperation),
        }
    }
}

impl BasicMachine {
    /// `save r` at run time: pushes the register's value and advances
    /// the program counter by exactly one.  Fatal (leaving the
    /// machine unchanged) when the register or `pc` is missing, the
    /// stack is full, or `pc` holds no advanceable index.
    pub fn step_save(&mut self, name: &String) -> (r: Result<(), MachineError>)
        ensures
            final (self).labels == old(self).labels,
            final (self).instruction_sequence == old(self).instruction_sequence,
            final (self).stack.spec_capacity() == old(self).stack.spec_capacity(),
            spec_step_save_post(*old(self), *final (self), name@, r),
    {
        let contents = match self.get_register_contents(name) {
            Some(c) => c,
            None => {
                return Err(MachineError::UnknownRegister);
            },
        };
        let pc_name = String::from_str("pc");
        match self.get_register_contents(&pc_name) {
            Some(Object::Index(p)) => {
                if p == usize::MAX {
                    return Err(MachineError::IndexOutOfBounds);
                }
            },
            Some(_) => {
                return Err(MachineError::NotAnIndex);
            },
            None => {
                return Err(MachineError::UnknownRegister);
            },
        }
        self.stack.push(contents)?;
        let res = self.advance_pc();
        match res {
            Ok(_) => Ok(()),
            Err(_) => {
                proof {
                    assert(false);
                }
                Err(MachineError::NotAnIndex)
            },
        }
    }

    /// `restore r` at run time: pops the newest stack value into the
    /// register and advances the program counter by exactly one
    /// (restoring into `pc` itself advances the restored value).
    /// Fatal (leaving the machine unchanged) when the register is
    /// missing, the stack is empty, or the counter to advance holds
    /// no advanceable index.
    pub fn step_restore(&mut self, name: &String) -> (r: Result<(), MachineError>)
        ensures
            final (self).labels == old(self).labels,
            final (self).instruction_sequence == old(self).instruction_sequence,
            final (self).stack.spec_capacity() == old(self).stack.spec_capacity(),
            spec_step_restore_post(*old(self), *final (self), name@, r),
    {
        match self.get_register_contents(name) {
            Some(_) => {},
            None => {
                return Err(MachineError::UnknownRegister);
            },
        }
        let top = match self.stack.peek() {
            Some(c) => c.clone(),
            None => {
                return Err(MachineError::StackUnderflow);
            },
        };
        let ghost regs0 = self.registers@;
        let ghost regs15 = spec_set_reg(regs0, name@, self.stack@.last());
        proof {
            lemma_set_reg(regs0, name@, self.stack@.last());
            reveal_strlit("pc");
        }
        let restoring_pc = str_is(name, "pc");
        if restoring_pc {
            match &top {
                Object::Index(q) => {
                    if *q == usize::MAX {
                        return Err(MachineError::IndexOutOfBounds);
                    }
                },
                _ => {
                    return Err(MachineError::NotAnIndex);
                },
            }
        } else {
            let pc_name = String::from_str("pc");
            match self.get_register_contents(&pc_name) {
                Some(Object::Index(p)) => {
                    if p == usize::MAX {
                        return Err(MachineError::IndexOutOfBounds);
                    }
                },
                Some(_) => {
                    return Err(MachineError::NotAnIndex);
                },
                None => {
                    return Err(MachineError::UnknownRegister);
                },
            }
        }
        let contents = match self.stack.pop() {
            Some(c) => c,
            None => {
                proof {
                    assert(false);
                }
                return Err(MachineError::StackUnderflow);
            },
        };
        let res = self.set_register_contents(name, contents);
        match res {
            Ok(_) => {},
            Err(_) => {
                proof {
                    assert(false);
                }
                return Err(MachineError::UnknownRegister);
            },
        }
        proof {
            assert(self.registers@ == regs15);
        }
        let res2 = self.advance_pc();
        match res2 {
            Ok(_) => Ok(()),
            Err(_) => {
                proof {
                    assert(false);
                }
                Err(MachineError::NotAnIndex)
            },
        }
    }

    /// `branch l` at run time: jumps to the label's offset when the
    /// flag holds true, otherwise advances the program counter by
    /// one.  Only the boolean true takes the jump.
    pub fn step_branch(&mut self, offset: usize) -> (r: Result<(), MachineError>)
        ensures
            final (self).labels == old(self).labels,
            final (self).instruction_sequence == old(self).instruction_sequence,
            final (self).stack == old(self).stack,
            spec_step_branch_post(*old(self), *final (self), offset, r),
    {
        let flag_name = String::from_str("flag");
        let flagv = match self.get_register_contents(&flag_name) {
            Some(f) => f,
            None => {
                return Err(MachineError::UnknownRegister);
            },
        };
        let taken = matches!(flagv, Object::Bool(true));
        if taken {
            let pc_name = String::from_str("pc");
            self.set_register_contents(&pc_name, Object::Index(offset))
        } else {
            self.advance_pc()
        }
    }

    /// `goto (label l)` at run time: the program counter takes the
    /// offset the assembler resolved.
    pub fn step_goto_label(&mut self, offset: usize) -> (r: Result<(), MachineError>)
        ensures
            final (self).labels == old(self).labels,
            final (self).instruction_sequence == old(self).instruction_sequence,
            final (self).stack == old(self).stack,
            spec_step_goto_label_post(*old(self), *final (self), offset, r),
    {
        let pc_name = String::from_str("pc");
        self.set_register_contents(&pc_name, Object::Index(offset))
    }
}

/// `save r; restore r` returns the register to its value and the
/// stack to its depth, and each of the two instructions advances the
/// program counter by exactly one.  (`pc` itself is the one register
/// the round trip does not hold for: restoring it replaces the very
/// counter being advanced.)
pub proof fn lemma_save_restore_symmetry(
    regs: Seq<Register>,
    stack: Seq<Object>,
    name: Seq<char>,
    v: Object,
    p: usize,
)
    requires
        name != "pc"@,
        spec_lookup(regs, name) == Some(v),
        spec_lookup(regs, "pc"@) == Some(Object::Index(p)),
        p + 2 <= usize::MAX,
    ensures
        ({
            // the machine state after `save name`
            let stack1 = stack.push(v);
            let regs1 = spec_set_reg(regs, "pc"@, Object::Index((p + 1) as usize));
            // the machine state after the following `restore name`
            let stack2 = stack1.drop_last();
            let regs2 = spec_set_reg(
                spec_set_reg(regs1, name, stack1.last()),
                "pc"@,
                Object::Index((p + 2) as usize),
            );
            &&& spec_lookup(regs1, "pc"@) == Some(Object::Index((p + 1) as usize))
            &&& spec_lookup(regs2, "pc"@) == Some(Object::Index((p + 2) as usize))
            &&& spec_lookup(regs2, name) == Some(v)
            &&& stack2 == stack
            &&& forall|n2: Seq<char>|
                n2 != "pc"@ ==> #[trigger] spec_lookup(regs2, n2) == spec_lookup(regs, n2)
        }),
{
    let stack1 = stack.push(v);
    let regs1 = spec_set_reg(regs, "pc"@, Object::Index((p + 1) as usize));
    let regs15 = spec_set_reg(regs1, name, stack1.last());
    let regs2 = spec_set_reg(regs15, "pc"@, Object::Index((p + 2) as usize));
    lemma_set_reg(regs, "pc"@, Object::Index((p + 1) as usize));
    lemma_set_reg(regs1, name, stack1.last());
    lemma_set_reg(regs15, "pc"@, Object::Index((p + 2) as usize));
    assert(stack1.last() == v);
    assert(stack1.drop_last() =~= stack);
}

impl BasicMachine {
    /// Stores an operation's result into the flag register and
    /// advances the program counter: the run-time rest of a `test`.
    /// Exact for every value the operation may have returned.
    pub fn commit_test(&mut self, value: &Exp) -> (r: Result<(), MachineError>)
        ensures
            final (self).labels == old(self).labels,
            final (self).instruction_sequence == old(self).instruction_sequence,
            final (self).stack == old(self).stack,
            spec_commit_test_post(*old(self), *final (self), *value, r),
    {
        let obj = value.exp_to_object()?;
        let flag_name = String::from_str("flag");
        let ghost regs0 = self.registers@;
        self.set_register_contents(&flag_name, obj)?;
        proof {
            assert(self.registers@ == spec_set_reg(regs0, "flag"@, value.spec_to_object()));
        }
        self.advance_pc()
    }

    /// Stores a value into a register and advances the program
    /// counter: the run-time rest of an `assign` — see
    /// `spec_commit_assign_post` for the exact contract, success and
    /// failure alike.  A scalar value is stored in place; a non-empty
    /// list is written into memory through the literal loader's
    /// rules, at the allocation cursor, and the register takes the
    /// root index — the duality between a scalar in a register and a
    /// structure in the heap.
    pub fn commit_assign(&mut self, name: &String, value: Exp, memory: &mut Memory) -> (r: Result<
        (),
        MachineError,
    >)
        requires
            old(memory).wf(),
        ensures
            final (memory).wf(),
            final (memory).spec_capacity() == old(memory).spec_capacity(),
            final (memory).new_cars@ == old(memory).new_cars@,
            final (memory).new_cdrs@ == old(memory).new_cdrs@,
            final (self).labels == old(self).labels,
            final (self).instruction_sequence == old(self).instruction_sequence,
            final (self).stack == old(self).stack,
            spec_commit_assign_post(*old(self), *old(memory), *final (self), *final (memory), name@, value, r),
    {
        proof {
            reveal_strlit("pc");
            reveal_strlit("free");
            assert("pc"@ != "free"@) by {
                assert("pc"@.len() == 2 && "free"@.len() == 4);
            }
        }
        match value {
            Exp::List(spine) => {
                match spine {
                    Pair::Nil => Err(MachineError::SyntaxError),
                    _ => {
                        match self.get_register_contents(name) {
                            Some(_) => {},
                            None => {
                                return Err(MachineError::UnknownRegister);
                            },
                        }
                        // the structure loads at the allocation
                        // cursor
                        let free_name = String::from_str("free");
                        let base = match self.get_register_contents(&free_name) {
                            Some(Object::Index(b)) => b,
                            Some(_) => {
                                return Err(MachineError::NotAnIndex);
                            },
                            None => {
                                return Err(MachineError::UnknownRegister);
                            },
                        };
                        // the counter to advance afterwards: the
                        // fresh root index when assigning to `pc`
                        // itself, the current counter otherwise
                        if str_is(name, "pc") {
                            if base == usize::MAX {
                                return Err(MachineError::IndexOutOfBounds);
                            }
                        } else {
                            let pc_name = String::from_str("pc");
                            match self.get_register_contents(&pc_name) {
                                Some(Object::Index(p)) => {
                                    if p == usize::MAX {
                                        return Err(MachineError::IndexOutOfBounds);
                                    }
                                },
                                Some(_) => {
                                    return Err(MachineError::NotAnIndex);
                                },
                                None => {
                                    return Err(MachineError::UnknownRegister);
                                },
                            }
                        }
                        if base > memory.capacity() {
                            proof {
                                crate::memory::lemma_size_pair_nonneg(spine);
                            }
                            return Err(MachineError::IndexOutOfBounds);
                        }
                        let mut free: usize = base;
                        match memory.write_list(&spine, &mut free) {
                            Ok(_) => {},
                            Err(e) => {
                                return Err(e);
                            },
                        }
                        self.initilize_free_register(free);
                        let ghost regs1 = self.registers@;
                        proof {
                            if name@ == "free"@ {
                                assert(spec_lookup(regs1, name@) is Some);
                            } else {
                                assert(spec_lookup(regs1, name@) == spec_lookup(
                                    old(self).registers@,
                                    name@,
                                ));
                            }
                        }
                        let set_res = self.set_register_contents(name, Object::Index(base));
                        proof {
                            lemma_set_reg(regs1, name@, Object::Index(base));
                        }
                        match set_res {
                            Ok(_) => {},
                            Err(_) => {
                                proof {
                                    assert(false);
                                }
                                return Err(MachineError::UnknownRegister);
                            },
                        }
                        let ghost regs2 = self.registers@;
                        let res = self.advance_pc();
                        proof {
                            match spec_lookup(regs2, "pc"@) {
                                Some(o) => {
                                    lemma_set_reg(
                                        regs2,
                                        "pc"@,
                                        Object::Index((o->Index_0 + 1) as usize),
                                    );
                                },
                                None => {},
                            }
                        }
                        match res {
                            Ok(_) => Ok(()),
                            Err(_) => {
                                proof {
                                    assert(false);
                                }
                                Err(MachineError::NotAnIndex)
                            },
                        }
                    },
                }
            },
            other => {
                let obj = match other.exp_to_object() {
                    Ok(o) => o,
                    Err(_) => {
                        proof {
                            assert(false);
                        }
                        return Err(MachineError::SyntaxError);
                    },
                };
                match self.get_register_contents(name) {
                    Some(_) => {},
                    None => {
                        return Err(MachineError::UnknownRegister);
                    },
                }
                if str_is(name, "pc") {
                    match &obj {
                        Object::Index(p) => {
                            if *p == usize::MAX {
                                return Err(MachineError::IndexOutOfBounds);
                            }
                        },
                        _ => {
                            return Err(MachineError::NotAnIndex);
                        },
                    }
                } else {
                    let pc_name = String::from_str("pc");
                    match self.get_register_contents(&pc_name) {
                        Some(Object::Index(p)) => {
                            if p == usize::MAX {
                                return Err(MachineError::IndexOutOfBounds);
                            }
                        },
                        Some(_) => {
                            return Err(MachineError::NotAnIndex);
                        },
                        None => {
                            return Err(MachineError::UnknownRegister);
                        },
                    }
                }
                let ghost regs0 = self.registers@;
                let set_res = self.set_register_contents(name, obj);
                proof {
                    lemma_set_reg(regs0, name@, other.spec_to_object());
                }
                match set_res {
                    Ok(_) => {},
                    Err(_) => {
                        proof {
                            assert(false);
                        }
                        return Err(MachineError::UnknownRegister);
                    },
                }
                let res = self.advance_pc();
                match res {
                    Ok(_) => Ok(()),
                    Err(_) => {
                        proof {
                            assert(false);
                        }
                        Err(MachineError::NotAnIndex)
                    },
                }
            },
        }
    }

    /// Routes a `perform`'s result: with no routing the counter just
    /// advances; with a designated register the result must be a
    /// non-empty list, which is then committed exactly as an `assign`
    /// commits one.
    pub fn commit_perform(
        &mut self,
        route: &Option<String>,
        value: Exp,
        memory: &mut Memory,
    ) -> (r: Result<(), MachineError>)
        requires
            old(memory).wf(),
        ensures
            final (memory).wf(),
            final (memory).spec_capacity() == old(memory).spec_capacity(),
            final (memory).new_cars@ == old(memory).new_cars@,
            final (memory).new_cdrs@ == old(memory).new_cdrs@,
            final (self).labels == old(self).labels,
            final (self).instruction_sequence == old(self).instruction_sequence,
            final (self).stack == old(self).stack,
            spec_commit_perform_post(
                *old(self),
                *old(memory),
                *final (self),
                *final (memory),
                *route,
                value,
                r,
            ),
    {
        match route {
            None => self.advance_pc(),
            Some(target) => {
                if value.is_pair() {
                    self.commit_assign(target, value, memory)
                } else {
                    Err(MachineError::BadPerform)
                }
            },
        }
    }

    /// Executes one compiled instruction: reads and writes registers,
    /// stack and heap, calls out to the operation table, and leaves
    /// the program counter at the next offset to fetch.
    pub fn execute_instruction<T: OperationTable>(
        &mut self,
        memory: &mut Memory,
        ops: &mut T,
        inst: &CompiledInstruction,
    ) -> (r: Result<(), MachineError>)
        requires
            old(memory).wf(),
        ensures
            final (memory).wf(),
            final (memory).spec_capacity() == old(memory).spec_capacity(),
            final (self).labels == old(self).labels,
            final (self).instruction_sequence == old(self).instruction_sequence,
            r matches Err(e) ==> e != MachineError::OutOfSteps,
            // the control instructions act exactly as their step
            // functions say, success and failure alike; the
            // operation-calling instructions commit some value — the
            // evaluated operand or the operation's return — by the
            // exact commit contracts
            match inst {
                CompiledInstruction::Assign(name, _src) => r matches Ok(_) ==> exists|v: Exp|
                    #[trigger] spec_commit_assign_post(
                        *old(self),
                        *old(memory),
                        *final (self),
                        *final (memory),
                        name@,
                        v,
                        r,
                    ),
                CompiledInstruction::Test(_call) => r matches Ok(_) ==> exists|v: Exp|
                    #[trigger] spec_commit_test_post(*old(self), *final (self), v, r),
                CompiledInstruction::Perform(_call, route) => r matches Ok(_) ==> exists|v: Exp|
                    #[trigger] spec_commit_perform_post(
                        *old(self),
                        *old(memory),
                        *final (self),
                        *final (memory),
                        *route,
                        v,
                        r,
                    ),
                CompiledInstruction::Save(name) => spec_step_save_post(
                    *old(self),
                    *final (self),
                    name@,
                    r,
                ),
                CompiledInstruction::Restore(name) => spec_step_restore_post(
                    *old(self),
                    *final (self),
                    name@,
                    r,
                ),
                CompiledInstruction::Branch(offset) => final (self).stack == old(self).stack
                    && spec_step_branch_post(*old(self), *final (self), *offset, r),
                CompiledInstruction::GotoLabel(offset) => final (self).stack == old(self).stack
                    && spec_step_goto_label_post(*old(self), *final (self), *offset, r),
                CompiledInstruction::GotoRegister(name) => final (self).stack == old(self).stack
                    && spec_step_goto_register_post(*old(self), *final (self), name@, r),
            },
    {
        match inst {
            CompiledInstruction::Assign(name, source) => {
                let value = match source {
                    AssignSource::Operation(call) => {
                        let args = self.eval_operands(memory, &call.operands)?;
                        self.call_op(ops, &call.name, &args)?
                    },
                    AssignSource::Primitive(p) => self.eval_primitive(memory, p)?,
                };
                self.commit_assign(name, value, memory)
            },
            CompiledInstruction::Test(call) => {
                let args = self.eval_operands(memory, &call.operands)?;
                let value = self.call_op(ops, &call.name, &args)?;
                self.commit_test(&value)
            },
            CompiledInstruction::Branch(offset) => self.step_branch(*offset),
            CompiledInstruction::GotoLabel(offset) => self.step_goto_label(*offset),
            CompiledInstruction::GotoRegister(name) => {
                let pc_name = String::from_str("pc");
                self.assign_from_one_register_to_another(&pc_name, name)
            },
            CompiledInstruction::Save(name) => self.step_save(name),
            CompiledInstruction::Restore(name) => self.step_restore(name),
            CompiledInstruction::Perform(call, route) => {
                let args = self.eval_operands(memory, &call.operands)?;
                let value = self.call_op(ops, &call.name, &args)?;
                self.commit_perform(route, value, memory)
            },
        }
    }

    /// The fetch-dispatch loop: starting from offset zero, fetches
    /// the instruction at `pc` and executes it until `pc` reaches or
    /// passes the instruction count — the machine's only halting
    /// condition — or the step budget runs out.  Each instruction
    /// leaves `pc` where the next fetch should happen; the loop
    /// never advances it itself.  A run over an empty program always
    /// halts (given a declared counter); which error a failing run
    /// reports depends on the failing instruction and on what the
    /// embedder's operations returned along the way, so the per-step
    /// exactness lives in `execute_instruction` and the commit
    /// functions rather than here.
    pub fn execute<T: OperationTable>(
        &mut self,
        memory: &mut Memory,
        ops: &mut T,
        max_steps: usize,
    ) -> (r: Result<(), MachineError>)
        requires
            old(memory).wf(),
        ensures
            final (memory).wf(),
            final (memory).spec_capacity() == old(memory).spec_capacity(),
            final (self).labels == old(self).labels,
            final (self).instruction_sequence == old(self).instruction_sequence,
            find_reg(old(self).registers@, "pc"@) is None ==> (r matches Err(e) && e
                == MachineError::UnknownRegister),
            find_reg(old(self).registers@, "pc"@) is Some && old(
                self,
            ).instruction_sequence@.len() == 0 ==> r matches Ok(_),
            find_reg(old(self).registers@, "pc"@) is Some && old(
                self,
            ).instruction_sequence@.len() > 0 && max_steps == 0 ==> (r matches Err(e) && e
                == MachineError::OutOfSteps),
            match r {
                Ok(_) => spec_lookup(final (self).registers@, "pc"@) matches Some(o) && (o matches
                    Object::Index(p) && p >= final (self).instruction_sequence@.len()),
                // an exhausted budget reports exactly that, with the
                // machine not yet halted; any other error is the
                // failing instruction's own
                Err(e) => e == MachineError::OutOfSteps ==> (spec_lookup(
                    final (self).registers@,
                    "pc"@,
                ) matches Some(o) && (o matches Object::Index(p) && p
                    < final (self).instruction_sequence@.len())),
            },
    {
        let pc_name = String::from_str("pc");
        let ghost regs0 = self.registers@;
        self.set_register_contents(&pc_name, Object::Index(0))?;
        proof {
            lemma_set_reg(regs0, "pc"@, Object::Index(0usize));
        }
        let mut steps: usize = 0;
        loop
            invariant
                memory.wf(),
                memory.spec_capacity() == old(memory).spec_capacity(),
                self.labels == old(self).labels,
                self.instruction_sequence == old(self).instruction_sequence,
                pc_name@ == "pc"@,
                find_reg(old(self).registers@, "pc"@) is Some,
                old(self).instruction_sequence@.len() == 0 ==> spec_lookup(
                    self.registers@,
                    "pc"@,
                ) == Some(Object::Index(0usize)),
                max_steps == 0 ==> spec_lookup(self.registers@, "pc"@) == Some(
                    Object::Index(0usize),
                ),
            decreases max_steps - steps,
        {
            let p = match self.get_register_contents(&pc_name) {
                Some(Object::Index(p)) => p,
                Some(_) => {
                    return Err(MachineError::NotAnIndex);
                },
                None => {
                    return Err(MachineError::UnknownRegister);
                },
            };
            if p >= self.instruction_sequence.len() {
                proof {
                    reveal_strlit("pc");
                }
                return Ok(());
            }
            if steps >= max_steps {
                return Err(MachineError::OutOfSteps);
            }
            let inst = self.instruction_sequence[p].clone();
            self.execute_instruction(memory, ops, &inst)?;
            steps = steps + 1;
        }
    }
}

} // verus!
