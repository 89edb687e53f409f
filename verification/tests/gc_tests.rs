//! Heap and collector tests.

use regmachine::errors::MachineError;
use regmachine::gc::garbage_collector;
use regmachine::machine::BasicMachine;
use regmachine::memory::Memory;
use regmachine::parser::{build_syntax_tree_into_memeory, tokenizer};
use regmachine::representation::{pointer_target, Object};

fn load(memory: &mut Memory, machine: &mut BasicMachine, text: &str) -> usize {
    let mut tokens = tokenizer(text.to_string());
    build_syntax_tree_into_memeory(&mut tokens, memory, machine).unwrap()
}

#[test]
fn is_pair_works() {
    // the collector relocates exactly the pointer values: both the
    // slot form and the register form, nothing else
    assert_eq!(pointer_target(&Object::Pair(3)), Some(3));
    assert_eq!(pointer_target(&Object::Index(7)), Some(7));
    assert_eq!(pointer_target(&Object::Integer(3)), None);
    assert_eq!(pointer_target(&Object::Nil), None);
    assert_eq!(pointer_target(&Object::Symbol("x".to_string())), None);
}

#[test]
fn heap_literal_structure() {
    // the literal ((1 2) (3 (4 5))) loads depth-first from the
    // allocation cursor, which a fresh machine holds at cell zero
    let mut memory = Memory::new(10);
    let mut machine = BasicMachine::new();
    machine.initilize_registers();
    let root = load(&mut memory, &mut machine, "((1 2) (3 (4 5)))");
    machine
        .set_register_contents(&"root".to_string(), Object::Index(root))
        .unwrap();
    let reg = machine.get_register(&"root".to_string()).unwrap();
    // the root's car points at a cell whose structure renders (1 2)
    match reg.car(&memory).unwrap() {
        Object::Pair(i) => {
            let mut probe = BasicMachine::new();
            probe.initilize_registers();
            probe
                .set_register_contents(&"root".to_string(), Object::Index(i))
                .unwrap();
            let sub = probe.get_register(&"root".to_string()).unwrap();
            assert_eq!(sub.get_list_frome_memory_as_str(&memory).unwrap(), "( 1 2)");
        }
        other => panic!("expected a pair, got {:?}", other),
    }
    // following cdrs from the root reaches Nil
    let mut cur = reg.cdr(&memory).unwrap();
    let mut hops = 0;
    loop {
        match cur {
            Object::Nil => break,
            Object::Pair(i) => {
                cur = memory.cdr(i).unwrap();
                hops += 1;
                assert!(hops < 10);
            }
            other => panic!("expected a pair or nil, got {:?}", other),
        }
    }
}

#[test]
fn flip_twice_restores_roles() {
    // flipping is its own inverse at the role level
    let mut memory = Memory::new(5);
    let mut machine = BasicMachine::new();
    machine.initilize_registers();
    load(&mut memory, &mut machine, "(1 2)");
    let cars_before: Vec<Object> = (0..5).map(|i| memory.car(i).unwrap()).collect();
    memory.flip();
    assert_eq!(memory.car(0).unwrap(), Object::Empty);
    memory.flip();
    let cars_after: Vec<Object> = (0..5).map(|i| memory.car(i).unwrap()).collect();
    assert_eq!(cars_before, cars_after);
}

#[test]
fn gc_preserves_reachable_structure() {
    // after a collection the same logical structure reads back
    // through the root
    let mut memory = Memory::new(20);
    let mut machine = BasicMachine::new();
    machine.initilize_registers();
    let root = load(&mut memory, &mut machine, "((1 2) (3 (4 5)))");
    machine
        .set_register_contents(&"root".to_string(), Object::Index(root))
        .unwrap();
    let before = machine
        .get_register_contents_as_in_memory(&"root".to_string(), &memory)
        .unwrap();
    garbage_collector(&mut machine, &mut memory).unwrap();
    let after = machine
        .get_register_contents_as_in_memory(&"root".to_string(), &memory)
        .unwrap();
    assert_eq!(before, after);
}

#[test]
fn gc_reclaims_unreachable_cells() {
    // pointing the root into a substructure makes the rest garbage:
    // the cursor after collection counts only the cells still
    // reachable
    let mut memory = Memory::new(20);
    let mut machine = BasicMachine::new();
    machine.initilize_registers();
    load(&mut memory, &mut machine, "((1 2) (3 (4 5)))");
    // cell 1 is the (1 2) sublist: two cells are live
    machine
        .set_register_contents(&"root".to_string(), Object::Index(1))
        .unwrap();
    garbage_collector(&mut machine, &mut memory).unwrap();
    assert_eq!(
        machine.get_register_contents(&"free".to_string()),
        Some(Object::Index(2))
    );
    assert_eq!(
        machine.get_register_contents(&"scan".to_string()),
        Some(Object::Index(2))
    );
    let root_after = machine.get_register_contents(&"root".to_string()).unwrap();
    match root_after {
        Object::Index(i) => {
            assert_eq!(memory.car(i).unwrap(), Object::Integer(1));
        }
        other => panic!("expected an index, got {:?}", other),
    }
}

#[test]
fn gc_copies_shared_cells_once() {
    // two fields pointing at one cell still point at one cell after
    // the collection
    let mut memory = Memory::new(10);
    let mut machine = BasicMachine::new();
    machine.initilize_registers();
    // cell 0: car -> cell 1, cdr -> cell 1 (shared); cell 1: (7 . Nil)
    memory.update("car", Object::Pair(1), 0).unwrap();
    memory.update("cdr", Object::Pair(1), 0).unwrap();
    memory.update("car", Object::Integer(7), 1).unwrap();
    memory.update("cdr", Object::Nil, 1).unwrap();
    machine
        .set_register_contents(&"root".to_string(), Object::Index(0))
        .unwrap();
    garbage_collector(&mut machine, &mut memory).unwrap();
    // two cells were live, so exactly two were copied
    assert_eq!(
        machine.get_register_contents(&"free".to_string()),
        Some(Object::Index(2))
    );
    let root_after = machine.get_register_contents(&"root".to_string()).unwrap();
    let i = match root_after {
        Object::Index(i) => i,
        other => panic!("expected an index, got {:?}", other),
    };
    let car_ptr = memory.car(i).unwrap();
    let cdr_ptr = memory.cdr(i).unwrap();
    assert_eq!(car_ptr, cdr_ptr);
    match car_ptr {
        Object::Pair(j) => {
            assert_eq!(memory.car(j).unwrap(), Object::Integer(7));
            assert_eq!(memory.cdr(j).unwrap(), Object::Nil);
        }
        other => panic!("expected a pair, got {:?}", other),
    }
}

#[test]
fn gc_preserves_cyclic_structure() {
    // a cell pointing at itself survives collection as one cell
    let mut memory = Memory::new(6);
    let mut machine = BasicMachine::new();
    machine.initilize_registers();
    memory.update("car", Object::Integer(1), 0).unwrap();
    memory.update("cdr", Object::Pair(0), 0).unwrap();
    machine
        .set_register_contents(&"root".to_string(), Object::Index(0))
        .unwrap();
    garbage_collector(&mut machine, &mut memory).unwrap();
    assert_eq!(
        machine.get_register_contents(&"free".to_string()),
        Some(Object::Index(1))
    );
    let i = match machine.get_register_contents(&"root".to_string()).unwrap() {
        Object::Index(i) => i,
        other => panic!("expected an index, got {:?}", other),
    };
    assert_eq!(memory.car(i).unwrap(), Object::Integer(1));
    assert_eq!(memory.cdr(i).unwrap(), Object::Pair(i));
}

#[test]
fn gc_with_scalar_root_copies_nothing() {
    let mut memory = Memory::new(4);
    let mut machine = BasicMachine::new();
    machine.initilize_registers();
    machine
        .set_register_contents(&"root".to_string(), Object::Integer(5))
        .unwrap();
    garbage_collector(&mut machine, &mut memory).unwrap();
    assert_eq!(
        machine.get_register_contents(&"free".to_string()),
        Some(Object::Index(0))
    );
    assert_eq!(
        machine.get_register_contents(&"root".to_string()),
        Some(Object::Integer(5))
    );
}

#[test]
fn out_of_bounds_heap_access_is_fatal() {
    let memory = Memory::new(3);
    assert_eq!(memory.car(3), Err(MachineError::IndexOutOfBounds));
    assert_eq!(memory.cdr(9), Err(MachineError::IndexOutOfBounds));
    let mut m2 = Memory::new(3);
    assert_eq!(
        m2.update("car", Object::Nil, 3),
        Err(MachineError::IndexOutOfBounds)
    );
    assert_eq!(
        m2.update("elsewhere", Object::Nil, 0),
        Err(MachineError::UnknownMemoryBlock)
    );
}

#[test]
fn corrupt_heap_is_fatal() {
    // a broken heart sitting in user data is heap corruption, which
    // the collector checks for defensively
    let mut memory = Memory::new(4);
    let mut machine = BasicMachine::new();
    machine.initilize_registers();
    memory.update("car", Object::BrokenHeart, 0).unwrap();
    machine
        .set_register_contents(&"root".to_string(), Object::Index(0))
        .unwrap();
    assert_eq!(
        garbage_collector(&mut machine, &mut memory),
        Err(MachineError::BrokenHeart)
    );
}

#[test]
fn out_of_bounds_root_is_fatal() {
    let mut memory = Memory::new(4);
    let mut machine = BasicMachine::new();
    machine.initilize_registers();
    machine
        .set_register_contents(&"root".to_string(), Object::Index(9))
        .unwrap();
    assert_eq!(
        garbage_collector(&mut machine, &mut memory),
        Err(MachineError::IndexOutOfBounds)
    );
}

#[test]
fn cyclic_structure_renders_as_too_deep() {
    // the renderer's budget is the generation size, so a cycle is
    // reported rather than followed forever
    let mut memory = Memory::new(4);
    let mut machine = BasicMachine::new();
    machine.initilize_registers();
    memory.update("car", Object::Integer(1), 0).unwrap();
    memory.update("cdr", Object::Pair(0), 0).unwrap();
    machine
        .set_register_contents(&"root".to_string(), Object::Index(0))
        .unwrap();
    assert_eq!(
        machine.get_register_contents_as_in_memory(&"root".to_string(), &memory),
        Err(MachineError::StructureTooDeep)
    );
}

#[test]
fn oversized_literal_is_fatal() {
    let mut memory = Memory::new(2);
    let mut machine = BasicMachine::new();
    machine.initilize_registers();
    let mut tokens = tokenizer("(1 2 3 4 5)".to_string());
    assert_eq!(
        build_syntax_tree_into_memeory(&mut tokens, &mut memory, &mut machine),
        Err(MachineError::IndexOutOfBounds)
    );
}
