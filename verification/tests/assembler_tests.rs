//! Assembly and execution tests, with an embedder-supplied operation
//! table providing `=`, `-` and `*`.

use regmachine::assembler::{
    assemble, assign_reg_name, extract_labels, assign_value_exp, extract_labels_alternative, is_operation_exp,
    lookup_label, make_assign, make_branch, make_goto, make_operation_exp, make_perform,
    make_primitive_exp, make_restore, make_save, make_test, operation_exp_op,
    operation_exp_oprands,
};
use regmachine::errors::MachineError;
use regmachine::machine::{list_from_vec, BasicMachine, OperationTable};
use regmachine::machine_cases::MachineCase;
use regmachine::memory::Memory;
use regmachine::parserfordev::str_to_exp;
use regmachine::representation::Object;
use regmachine::tpfordev::{car, cdr, Exp};

fn parse(s: &str) -> Exp {
    str_to_exp(s.to_string()).unwrap()
}

fn no_routing() -> Vec<(String, String)> {
    Vec::new()
}

struct ArithmeticOps;

// the embedder's arithmetic: numbers are integers, or float literals
// computed in 32-bit floating point and kept as text
fn numeric(e: &Exp) -> f32 {
    match e {
        Exp::Integer(i) => *i as f32,
        Exp::FloatNumber(t) => t.parse::<f32>().unwrap(),
        other => panic!("not a number: {:?}", other),
    }
}

fn number_exp(x: f32) -> Exp {
    if x.fract() == 0.0 && x.abs() < 1e9 {
        Exp::Integer(x as i32)
    } else {
        Exp::FloatNumber(format!("{}", x))
    }
}

impl OperationTable for ArithmeticOps {
    fn call_op(&mut self, name: &String, argv: &Exp) -> Option<Exp> {
        let a = car(argv).ok()?;
        let rest = cdr(argv).ok()?;
        let b = car(&rest).ok()?;
        match name.as_str() {
            "=" => Some(Exp::Bool(a == b)),
            "-" => Some(number_exp(numeric(&a) - numeric(&b))),
            "*" => Some(number_exp(numeric(&a) * numeric(&b))),
            _ => None,
        }
    }
}

#[test]
fn extract_labels_offsets_count_instructions() {
    // every label binds to the count of instructions before it, and
    // consecutive labels share an offset
    let (labels, insts) =
        extract_labels("(start also (one) mid (two) (three) end)".to_string()).unwrap();
    let names: Vec<&str> = labels.iter().map(|l| l.name.as_str()).collect();
    let offsets: Vec<usize> = labels.iter().map(|l| l.offset).collect();
    assert_eq!(names, vec!["start", "also", "mid", "end"]);
    assert_eq!(offsets, vec![0, 0, 1, 3]);
    assert_eq!(insts.len(), 3);
    // a second run over the same program yields the identical table
    let (labels2, _insts2) =
        extract_labels("(start also (one) mid (two) (three) end)".to_string()).unwrap();
    let offsets2: Vec<usize> = labels2.iter().map(|l| l.offset).collect();
    assert_eq!(offsets, offsets2);
}

#[test]
fn lookup_label_works() {
    let mut machine = BasicMachine::new();
    let factorial = MachineCase::test_case();
    let text = factorial.controller_text;
    let _result = extract_labels_alternative(text.to_string(), &mut machine).unwrap();
    let index = lookup_label(&machine, &"base-case".to_string()).unwrap();
    assert_eq!(index, 12 as usize);
}

#[test]
fn make_primitive_exp_works() {
    let mut memory = Memory::new(10);
    let mut machine = BasicMachine::new();
    machine.initilize_registers();
    let s = "(define x '(+ 1 2))";
    machine
        .set_register_contents_as_in_memory(&"root".to_string(), s.to_string(), &mut memory)
        .unwrap();
    let exp = "(reg root)".to_string();
    let p1 = make_primitive_exp(&parse(&exp), &machine).unwrap();
    let result = machine.eval_primitive(&memory, &p1).unwrap();
    assert_eq!(result, parse(s));
    let exp2 = "(const 1)".to_string();
    let p2 = make_primitive_exp(&parse(&exp2), &machine).unwrap();
    let result2 = machine.eval_primitive(&memory, &p2).unwrap();
    assert_eq!(result2, parse("1"));
}

#[test]
fn undeclared_label_is_fatal() {
    let machine = BasicMachine::new();
    assert_eq!(
        make_primitive_exp(&parse("(label nowhere)"), &machine),
        Err(MachineError::UndeclaredLabel)
    );
}

#[test]
fn is_operation_exp_works() {
    let exp = parse("((op =) (reg n) (const 1))");
    assert_eq!(is_operation_exp(&exp), true);
}

#[test]
fn operation_exp_op_works() {
    let exp = parse("((op =) (reg n) (const 1))");
    assert_eq!(operation_exp_op(&exp).unwrap(), parse("="));
}

#[test]
fn operation_exp_operands_works() {
    let exp = parse("((op =) (reg n) (const 1))");
    assert_eq!(
        operation_exp_oprands(&exp).unwrap(),
        parse("((reg n) (const 1))")
    );
}

struct SelfEvalOps;

impl OperationTable for SelfEvalOps {
    fn call_op(&mut self, name: &String, argv: &Exp) -> Option<Exp> {
        let first = car(argv).ok()?;
        match name.as_str() {
            "is_self_evaluating" => Some(Exp::Bool(!matches!(first, Exp::Symbol(_)))),
            _ => None,
        }
    }
}

#[test]
fn make_operation_exp_works() {
    let memory = Memory::new(10);
    let mut machine = BasicMachine::new();
    machine.initilize_registers();
    let mut ops = SelfEvalOps;
    machine
        .set_register_contents(
            &"root".to_string(),
            Object::LispString("winter is coming!".to_string()),
        )
        .unwrap();
    let exp = parse("((op is_self_evaluating) (reg root))");
    let call = make_operation_exp(&exp, &machine).unwrap();
    let args = machine.eval_operands(&memory, &call.operands).unwrap();
    let result = machine.call_op(&mut ops, &call.name, &args).unwrap();
    assert_eq!(result, Exp::Bool(true));
}

#[test]
fn assign_reg_name_works() {
    let inst = "(assgin t (op rem) (reg a) (reg b))".to_string();
    let assign_inst = parse(&inst);
    let reg_name = assign_reg_name(&assign_inst).unwrap();
    let reg_name_chekcout = parse("t");
    assert_eq!(reg_name, reg_name_chekcout);
}

#[test]
fn assign_value_exp_works() {
    let inst = "(assgin t (op rem) (reg a) (reg b))".to_string();
    let assign_inst = parse(&inst);
    let value_exp = assign_value_exp(&assign_inst).unwrap();
    let checkout = parse("((op rem) (reg a) (reg b))");
    assert_eq!(value_exp, checkout);
}

#[test]
fn make_assign_works() {
    let inst = "(assign root (op *) (reg val) (reg exp))".to_string();
    let mut memory = Memory::new(10);
    let mut machine = BasicMachine::new();
    let mut ops = ArithmeticOps;
    machine.initilize_registers();
    machine
        .set_register_contents(&"val".to_string(), Object::Number("3.14".to_string()))
        .unwrap();
    machine
        .set_register_contents(&"exp".to_string(), Object::Integer(3))
        .unwrap();
    machine
        .set_register_contents(&"pc".to_string(), Object::Index(0))
        .unwrap();
    let compiled = make_assign(&parse(&inst), &machine).unwrap();
    machine
        .execute_instruction(&mut memory, &mut ops, &compiled)
        .unwrap();
    let value = machine.get_register_contents(&"root".to_string()).unwrap();
    assert_eq!(value, Object::Number("9.42".to_string()));
}

#[test]
fn make_test_works() {
    let mut inst = parse("(test  (op =) (reg val) (const 1))");
    let mut memory = Memory::new(10);
    let mut machine = BasicMachine::new();
    let mut ops = ArithmeticOps;
    machine.initilize_registers();
    machine
        .set_register_contents(&"val".to_string(), Object::Integer(1))
        .unwrap();
    machine
        .set_register_contents(&"pc".to_string(), Object::Index(0))
        .unwrap();
    let compiled = make_test(&inst, &machine).unwrap();
    machine
        .execute_instruction(&mut memory, &mut ops, &compiled)
        .unwrap();
    assert_eq!(
        machine.get_register_contents(&"flag".to_string()).unwrap(),
        Object::Bool(true)
    );

    inst = parse("(test  (op =) (reg val) (const 3.14))");
    machine
        .set_register_contents(&"pc".to_string(), Object::Index(0))
        .unwrap();
    let compiled2 = make_test(&inst, &machine).unwrap();
    machine
        .execute_instruction(&mut memory, &mut ops, &compiled2)
        .unwrap();
    assert_eq!(
        machine.get_register_contents(&"flag".to_string()).unwrap(),
        Object::Bool(false)
    );
}

#[test]
fn make_branch_works() {
    let inst = parse("(branch (label base-case))");
    let mut memory = Memory::new(100);
    let mut machine = BasicMachine::new();
    let mut ops = ArithmeticOps;
    let text = MachineCase::new().controller_text.to_string();
    let _result = extract_labels_alternative(text, &mut machine).unwrap();
    machine.initilize_registers();
    machine
        .set_register_contents(&"flag".to_string(), Object::Bool(true))
        .unwrap();
    let compiled = make_branch(&inst, &machine).unwrap();
    machine
        .execute_instruction(&mut memory, &mut ops, &compiled)
        .unwrap();
    let contents = machine.get_register_contents(&"pc".to_string()).unwrap();
    assert_eq!(contents, Object::Index(12));
}

#[test]
fn make_goto_works() {
    let inst = parse("(goto (reg continue))");
    let mut memory = Memory::new(50);
    let mut machine = BasicMachine::new();
    let mut ops = ArithmeticOps;
    let text = MachineCase::new().controller_text.to_string();
    let _insts = extract_labels_alternative(text, &mut machine).unwrap();
    let base_case = lookup_label(&machine, &"base-case".to_string()).unwrap();
    machine.initilize_registers();
    machine
        .set_register_contents(&"continue".to_string(), Object::Index(base_case))
        .unwrap();
    let compiled = make_goto(&inst, &machine).unwrap();
    machine
        .execute_instruction(&mut memory, &mut ops, &compiled)
        .unwrap();
    let result = machine.get_register_contents(&"pc".to_string()).unwrap();
    assert_eq!(result, Object::Index(12 as usize));
}

#[test]
fn make_save_works() {
    let inst = parse("(save val)");
    let mut memory = Memory::new(20);
    let mut machine = BasicMachine::new();
    let mut ops = ArithmeticOps;
    machine.initilize_registers();
    machine
        .set_register_contents(&"val".to_string(), Object::Number("3.14".to_string()))
        .unwrap();
    machine
        .set_register_contents(&"pc".to_string(), Object::Index(0))
        .unwrap();
    let compiled = make_save(&inst).unwrap();
    machine
        .execute_instruction(&mut memory, &mut ops, &compiled)
        .unwrap();
    let item = machine.stack.peek().unwrap().clone();
    assert_eq!(item, Object::Number("3.14".to_string()));
}

#[test]
fn make_restore_works() {
    let inst = parse("(restore val)");
    let mut memory = Memory::new(20);
    let mut machine = BasicMachine::new();
    let mut ops = ArithmeticOps;
    machine.initilize_registers();
    machine.stack.push(Object::Integer(9)).unwrap();
    machine
        .set_register_contents(&"pc".to_string(), Object::Index(0))
        .unwrap();
    let compiled = make_restore(&inst).unwrap();
    machine
        .execute_instruction(&mut memory, &mut ops, &compiled)
        .unwrap();
    let item = machine.get_register_contents(&"val".to_string()).unwrap();
    assert_eq!(item, Object::Integer(9));
}

struct DefineOps;

// `define-variable` extends the first frame of an environment
// `(((names ...) values ...))` with a new binding
impl OperationTable for DefineOps {
    fn call_op(&mut self, name: &String, argv: &Exp) -> Option<Exp> {
        if name.as_str() != "define-variable" {
            return None;
        }
        let var = car(argv).ok()?;
        let rest = cdr(argv).ok()?;
        let val = car(&rest).ok()?;
        let rest2 = cdr(&rest).ok()?;
        let env = car(&rest2).ok()?;
        let frame = car(&env).ok()?;
        let names = car(&frame).ok()?;
        let mut name_items = to_vec(&names);
        name_items.push(var);
        let mut frame_items = to_vec(&frame);
        frame_items[0] = list_from_vec(name_items);
        frame_items.push(val);
        let mut env_items = to_vec(&env);
        env_items[0] = list_from_vec(frame_items);
        Some(list_from_vec(env_items))
    }
}

fn to_vec(e: &Exp) -> Vec<Exp> {
    let mut out = Vec::new();
    let mut cur = e.clone();
    while let Ok(first) = car(&cur) {
        out.push(first);
        cur = cdr(&cur).unwrap();
    }
    out
}

#[test]
fn make_perform_works() {
    let inst = parse("(perform (op define-variable) (reg unev) (reg val) (reg env))");
    let mut memory = Memory::new(20);
    let mut machine = BasicMachine::new();
    let mut ops = DefineOps;
    machine.initilize_registers();
    machine
        .set_register_contents(&"unev".to_string(), Object::Symbol("x".to_string()))
        .unwrap();
    machine
        .set_register_contents(&"val".to_string(), Object::Integer(3))
        .unwrap();
    machine
        .set_register_contents_as_in_memory(&"env".to_string(), "(((y) 1))".to_string(), &mut memory)
        .unwrap();
    machine
        .set_register_contents(&"pc".to_string(), Object::Index(0))
        .unwrap();
    let routing = vec![
        ("set-variable-value".to_string(), "env".to_string()),
        ("define-variable".to_string(), "env".to_string()),
    ];
    let compiled = make_perform(&inst, &machine, &routing).unwrap();
    machine
        .execute_instruction(&mut memory, &mut ops, &compiled)
        .unwrap();
    let content = machine
        .get_register_contents_as_in_memory(&"env".to_string(), &memory)
        .unwrap();
    let checkout = parse("(((y x) 1 3))");
    assert_eq!(str_to_exp(content).unwrap(), checkout);
}

#[test]
fn assemble_works() {
    // the factorial controller computes 4! = 24
    let test_case = MachineCase::test_case().controller_text.to_string();
    let mut machine = BasicMachine::new();
    let mut memory = Memory::new(20);
    let mut ops = ArithmeticOps;
    machine.initilize_registers();
    assemble(test_case, &mut machine, &no_routing()).unwrap();
    machine
        .set_register_contents(&"exp".to_string(), Object::Integer(4))
        .unwrap();
    machine.execute(&mut memory, &mut ops, 10000).unwrap();
    assert_eq!(
        machine.get_register_contents(&"val".to_string()),
        Some(Object::Integer(24))
    );
}

#[test]
fn unknown_instruction_is_fatal() {
    // the misspelled head in the first case's base case is an
    // assembly-time error
    let text = MachineCase::new().controller_text.to_string();
    let mut machine = BasicMachine::new();
    machine.initilize_registers();
    assert_eq!(
        assemble(text, &mut machine, &no_routing()),
        Err(MachineError::UnknownInstruction)
    );
}

#[test]
fn bad_branch_and_goto_are_fatal() {
    let machine = BasicMachine::new();
    assert_eq!(
        make_branch(&parse("(branch (reg x))"), &machine),
        Err(MachineError::BadBranch)
    );
    assert_eq!(
        make_goto(&parse("(goto (const 1))"), &machine),
        Err(MachineError::BadGoto)
    );
    assert_eq!(
        make_test(&parse("(test (reg x))"), &machine),
        Err(MachineError::BadTest)
    );
    assert_eq!(
        make_primitive_exp(&parse("(frob x)"), &machine),
        Err(MachineError::BadPrimitive)
    );
}

#[test]
fn perform_routes_only_structures() {
    // a routed perform whose operation hands back a scalar is fatal
    let mut memory = Memory::new(10);
    let mut machine = BasicMachine::new();
    let mut ops = ArithmeticOps;
    machine.initilize_registers();
    machine
        .set_register_contents(&"val".to_string(), Object::Integer(2))
        .unwrap();
    machine
        .set_register_contents(&"pc".to_string(), Object::Index(0))
        .unwrap();
    let routing = vec![("*".to_string(), "env".to_string())];
    let inst = parse("(perform (op *) (reg val) (reg val))");
    let compiled = make_perform(&inst, &machine, &routing).unwrap();
    assert_eq!(
        machine.execute_instruction(&mut memory, &mut ops, &compiled),
        Err(MachineError::BadPerform)
    );
}

#[test]
fn goto_through_a_non_index_register_is_fatal() {
    // the fetch after the jump finds no instruction offset
    let text = "(controller (goto (reg val)) loop (goto (label loop)))".to_string();
    let mut machine = BasicMachine::new();
    let mut memory = Memory::new(10);
    let mut ops = ArithmeticOps;
    machine.initilize_registers();
    assemble(text, &mut machine, &no_routing()).unwrap();
    machine
        .set_register_contents(&"val".to_string(), Object::Symbol("astray".to_string()))
        .unwrap();
    assert_eq!(
        machine.execute(&mut memory, &mut ops, 100),
        Err(MachineError::NotAnIndex)
    );
}

#[test]
fn runaway_program_exhausts_its_budget() {
    let text = "(controller loop (goto (label loop)))".to_string();
    let mut machine = BasicMachine::new();
    let mut memory = Memory::new(10);
    let mut ops = ArithmeticOps;
    machine.initilize_registers();
    assemble(text, &mut machine, &no_routing()).unwrap();
    assert_eq!(
        machine.execute(&mut memory, &mut ops, 50),
        Err(MachineError::OutOfSteps)
    );
}

#[test]
fn save_then_restore_round_trips() {
    // save r; restore r leaves the register and the stack depth as
    // they were, and each instruction advances the counter by one
    let mut memory = Memory::new(10);
    let mut machine = BasicMachine::new();
    let mut ops = ArithmeticOps;
    machine.initilize_registers();
    machine
        .set_register_contents(&"val".to_string(), Object::Integer(17))
        .unwrap();
    machine
        .set_register_contents(&"pc".to_string(), Object::Index(5))
        .unwrap();
    let save = make_save(&parse("(save val)")).unwrap();
    let restore = make_restore(&parse("(restore val)")).unwrap();
    let depth0 = machine.stack.depth();
    machine.execute_instruction(&mut memory, &mut ops, &save).unwrap();
    assert_eq!(
        machine.get_register_contents(&"pc".to_string()),
        Some(Object::Index(6))
    );
    machine
        .set_register_contents(&"val".to_string(), Object::Integer(99))
        .unwrap();
    machine
        .execute_instruction(&mut memory, &mut ops, &restore)
        .unwrap();
    assert_eq!(
        machine.get_register_contents(&"pc".to_string()),
        Some(Object::Index(7))
    );
    assert_eq!(
        machine.get_register_contents(&"val".to_string()),
        Some(Object::Integer(17))
    );
    assert_eq!(machine.stack.depth(), depth0);
}
