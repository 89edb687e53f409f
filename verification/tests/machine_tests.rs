//! Register, stack and machine-memory tests.

use regmachine::errors::MachineError;
use regmachine::machine::{BasicMachine, OperationTable};
use regmachine::memory::Memory;
use regmachine::parser::{build_syntax_tree_into_memeory, tokenizer};
use regmachine::register::Register;
use regmachine::representation::Object;
use regmachine::stack::Stack;
use regmachine::tpfordev::{car, cdr, Exp, Pair};

#[test]
fn register_get_works() {
    let r = Register::new("Alpha");
    assert_eq!(Object::Quote("unsigned".to_string()), *r.get());
}

#[test]
fn register_set_works() {
    let mut r = Register::new("Alpha");
    r.set(Object::Quote("apple".to_string()));
    assert_eq!(Object::Quote("apple".to_string()), *r.get());
}

#[test]
fn stack_push_pop() {
    let mut s = Stack::new();
    s.push(Object::Quote("Winter".to_string())).unwrap();
    let item = s.pop().unwrap();
    assert_eq!(item, Object::Quote("Winter".to_string()));
}

#[test]
fn stack_limits_are_fatal() {
    // a push past the configured capacity is fatal
    let mut s = Stack::with_capacity(2);
    s.push(Object::Integer(1)).unwrap();
    s.push(Object::Integer(2)).unwrap();
    assert_eq!(s.push(Object::Integer(3)), Err(MachineError::StackOverflow));
    // a pop on an empty stack yields nothing, which the engine
    // treats as a fatal save/restore mismatch
    let mut t = Stack::new();
    assert_eq!(t.pop(), None);
    let mut machine = BasicMachine::new();
    machine.initilize_registers();
    assert_eq!(
        machine.step_restore(&"val".to_string()),
        Err(MachineError::StackUnderflow)
    );
}

#[test]
fn build_syntax_tree_into_memeory_works() {
    let mut memory = Memory::new(10);
    let mut machine = BasicMachine::new();
    machine.initilize_registers();
    let s = "(( 1  2 )
                           (3
                               (4
                                  5)))"
        .to_string();
    let mut tokens = tokenizer(s);
    build_syntax_tree_into_memeory(&mut tokens, &mut memory, &mut machine).unwrap();
    let car_0 = memory.car(0).unwrap();
    let cdr_0 = memory.cdr(0).unwrap();

    let car_1 = memory.car(1).unwrap();
    let cdr_1 = memory.cdr(1).unwrap();

    let car_2 = memory.car(2).unwrap();
    let cdr_2 = memory.cdr(2).unwrap();

    let car_3 = memory.car(3).unwrap();
    let cdr_3 = memory.cdr(3).unwrap();

    let car_4 = memory.car(4).unwrap();
    let cdr_4 = memory.cdr(4).unwrap();

    let car_5 = memory.car(5).unwrap();
    let cdr_5 = memory.cdr(5).unwrap();

    let car_6 = memory.car(6).unwrap();
    let cdr_6 = memory.cdr(6).unwrap();

    let car_7 = memory.car(7).unwrap();
    let cdr_7 = memory.cdr(7).unwrap();

    let car_0_checkout = Object::Pair(1);
    let cdr_0_checkout = Object::Pair(3);
    let car_1_checkout = Object::Integer(1);
    let cdr_1_checkout = Object::Pair(2);
    let car_2_checkout = Object::Integer(2);
    let cdr_2_checkout = Object::Nil;
    let car_3_checkout = Object::Pair(4);
    let cdr_3_checkout = Object::Nil;
    let car_4_checkout = Object::Integer(3);
    let cdr_4_checkout = Object::Pair(5);
    let car_5_checkout = Object::Pair(6);
    let cdr_5_checkout = Object::Nil;
    let car_6_checkout = Object::Integer(4);
    let cdr_6_checkout = Object::Pair(7);
    let car_7_checkout = Object::Integer(5);
    let cdr_7_checkout = Object::Nil;

    assert_eq!(car_0, car_0_checkout);
    assert_eq!(cdr_0, cdr_0_checkout);
    assert_eq!(car_1, car_1_checkout);
    assert_eq!(cdr_1, cdr_1_checkout);
    assert_eq!(car_2, car_2_checkout);
    assert_eq!(cdr_2, cdr_2_checkout);
    assert_eq!(car_3, car_3_checkout);
    assert_eq!(cdr_3, cdr_3_checkout);
    assert_eq!(car_4, car_4_checkout);
    assert_eq!(cdr_4, cdr_4_checkout);
    assert_eq!(car_5, car_5_checkout);
    assert_eq!(cdr_5, cdr_5_checkout);
    assert_eq!(car_6, car_6_checkout);
    assert_eq!(cdr_6, cdr_6_checkout);
    assert_eq!(car_7, car_7_checkout);
    assert_eq!(cdr_7, cdr_7_checkout);
}

#[test]
fn set_register_contents_as_in_memory_works() {
    let mut memory = Memory::new(10);
    let mut machine = BasicMachine::new();
    machine.initilize_registers();
    let s = "(define x '(+ 1 2))";
    machine
        .set_register_contents_as_in_memory(&"root".to_string(), s.to_string(), &mut memory)
        .unwrap();
    let ss = machine
        .get_register_contents_as_in_memory(&"root".to_string(), &memory)
        .unwrap();
    assert_eq!(ss, String::from("( define x '( + 1 2))"));
}

#[test]
fn get_list_from_memory_as_str_works() {
    let mut memory = Memory::new(20);
    let mut machine = BasicMachine::new();
    machine.initilize_registers();
    let s = "(( 1  2 )
                           (3
                               (4
                                  5)))";
    let mut tokens = tokenizer(s.to_string());
    let root = build_syntax_tree_into_memeory(&mut tokens, &mut memory, &mut machine).unwrap();
    machine
        .set_register_contents(&"root".to_string(), Object::Index(root))
        .unwrap();
    let reg = machine.get_register(&"root".to_string()).unwrap();
    let expected = String::from("(( 1 2)( 3( 4 5)))");
    assert_eq!(expected, reg.get_list_frome_memory_as_str(&memory).unwrap());
    // a second load continues at the allocation cursor, leaving the
    // first list in place
    let ss = "(( 7 8) 9)";
    let mut ttokens = tokenizer(ss.to_string());
    let another_root =
        build_syntax_tree_into_memeory(&mut ttokens, &mut memory, &mut machine).unwrap();
    machine
        .set_register_contents(&"root".to_string(), Object::Index(another_root))
        .unwrap();
    assert_eq!(
        ss.to_string(),
        machine
            .get_register(&"root".to_string())
            .unwrap()
            .get_list_frome_memory_as_str(&memory)
            .unwrap()
    );
}

struct ClassifierOps;

// the embedder's operation table: a value is self-evaluating when it
// is no bare symbol; a bare symbol is a variable
impl OperationTable for ClassifierOps {
    fn call_op(&mut self, name: &String, argv: &Exp) -> Option<Exp> {
        let first = car(argv).ok()?;
        match name.as_str() {
            "self_evaluating" => Some(Exp::Bool(!matches!(first, Exp::Symbol(_)))),
            "is_variable" => Some(Exp::Bool(matches!(first, Exp::Symbol(_)))),
            _ => None,
        }
    }
}

#[test]
fn machine_ops_bool_works() {
    let machine = BasicMachine::new();
    let mut ops = ClassifierOps;
    let exp1 = regmachine::machine::list_from_vec(vec![Exp::SchemeString(
        "winter is coming".to_string(),
    )]);
    let exp2 = regmachine::machine::list_from_vec(vec![Exp::Symbol("x".to_string())]);
    assert_eq!(
        machine
            .call_op(&mut ops, &"self_evaluating".to_string(), &exp1.clone())
            .unwrap(),
        Exp::Bool(true)
    );
    assert_eq!(
        machine
            .call_op(&mut ops, &"self_evaluating".to_string(), &exp2.clone())
            .unwrap(),
        Exp::Bool(false)
    );
    assert_eq!(
        machine.call_op(&mut ops, &"is_variable".to_string(), &exp2).unwrap(),
        Exp::Bool(true)
    );
    assert_eq!(
        machine.call_op(&mut ops, &"is_variable".to_string(), &exp1).unwrap(),
        Exp::Bool(false)
    );
}

#[test]
fn unknown_operation_is_fatal() {
    let machine = BasicMachine::new();
    let mut ops = ClassifierOps;
    assert_eq!(
        machine.call_op(&mut ops, &"frobnicate".to_string(), &Exp::List(Pair::Nil)),
        Err(MachineError::UnknownOperation)
    );
}

#[test]
fn unknown_register_is_fatal() {
    let mut machine = BasicMachine::new();
    machine.initilize_registers();
    assert_eq!(
        machine.set_register_contents(&"nonesuch".to_string(), Object::Integer(1)),
        Err(MachineError::UnknownRegister)
    );
    assert!(machine.get_register_contents(&"nonesuch".to_string()).is_none());
}

#[test]
fn register_increment_works() {
    let mut machine = BasicMachine::new();
    machine.initilize_registers();
    machine
        .set_register_contents(&"scan".to_string(), Object::Index(4))
        .unwrap();
    machine.register_increment_by_one(&"scan".to_string()).unwrap();
    assert_eq!(
        machine.get_register_contents(&"scan".to_string()),
        Some(Object::Index(5))
    );
    machine
        .set_register_contents(&"scan".to_string(), Object::Integer(4))
        .unwrap();
    assert_eq!(
        machine.register_increment_by_one(&"scan".to_string()),
        Err(MachineError::NotAnIndex)
    );
}

#[test]
fn loader_continues_at_the_cursor() {
    // the literal loader writes where the free register points and
    // advances it, so consecutive loads coexist until a collection
    let mut memory = Memory::new(12);
    let mut machine = BasicMachine::new();
    machine.initilize_registers();
    let mut tokens1 = tokenizer("(1 2)".to_string());
    let root1 = build_syntax_tree_into_memeory(&mut tokens1, &mut memory, &mut machine).unwrap();
    assert_eq!(root1, 0);
    let mut tokens2 = tokenizer("(7)".to_string());
    let root2 = build_syntax_tree_into_memeory(&mut tokens2, &mut memory, &mut machine).unwrap();
    assert_eq!(root2, 2);
    assert_eq!(
        machine.get_register_contents(&"free".to_string()),
        Some(Object::Index(3))
    );
    // both lists are intact
    assert_eq!(memory.car(0).unwrap(), Object::Integer(1));
    assert_eq!(memory.car(2).unwrap(), Object::Integer(7));
    assert_eq!(memory.cdr(2).unwrap(), Object::Nil);
}

#[test]
fn cdr_of_register_reaches_nil() {
    let mut memory = Memory::new(10);
    let mut machine = BasicMachine::new();
    machine.initilize_registers();
    let mut tokens = tokenizer("(1 2)".to_string());
    let root = build_syntax_tree_into_memeory(&mut tokens, &mut memory, &mut machine).unwrap();
    machine
        .set_register_contents(&"root".to_string(), Object::Index(root))
        .unwrap();
    let reg = machine.get_register(&"root".to_string()).unwrap();
    assert_eq!(reg.car(&memory).unwrap(), Object::Integer(1));
    let next = reg.cdr(&memory).unwrap();
    match next {
        Object::Pair(i) => {
            assert_eq!(memory.cdr(i).unwrap(), Object::Nil);
        }
        other => panic!("expected a pair, got {:?}", other),
    }
}
