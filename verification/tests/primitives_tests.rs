//! List accessor tests.

use regmachine::machine::list_from_vec;
use regmachine::parserfordev::str_to_exp;
use regmachine::primitives::{
    caadr, caar, cadddr, caddr, cadr, cdadr, cdar, cdddr, cddr, is_tagged_list,
};
use regmachine::tpfordev::Exp;

fn parse(s: &str) -> Exp {
    str_to_exp(s.to_string()).unwrap()
}

#[test]
fn cadr_works() {
    let exp1 = parse("((1 2) 3 4 5)");
    assert_eq!(cadr(&exp1).unwrap(), Exp::Integer(3));
    let exp2 = parse("(assign continue (label fact-done))");
    assert_eq!(cadr(&exp2).unwrap(), Exp::Symbol("continue".to_string()));
}

#[test]
fn cddr_works() {
    let exp1 = parse("((1 2) (3 4 5) 6 7)");
    assert_eq!(cddr(&exp1).unwrap(), parse("(6 7)"));
    let exp2 = parse("(test (op =) (reg n) (const 1))");
    assert_eq!(cddr(&exp2).unwrap(), parse("((reg n) (const 1))"));
}

#[test]
fn caar_works() {
    let exp = parse("((1 2) 3 4 5)");
    assert_eq!(caar(&exp).unwrap(), Exp::Integer(1));
}

#[test]
fn cdar_works() {
    let exp1 = parse("((1 2) (3 4 5) 6 7)");
    assert_eq!(cdar(&exp1).unwrap(), parse("(2)"));
    let exp2 = parse("((reg n) (const 1))");
    assert_eq!(cdar(&exp2).unwrap(), parse("(n)"));
}

#[test]
fn cdddr_works() {
    let exp = parse("((1 2) (3 4 5) 6 7)");
    assert_eq!(cdddr(&exp).unwrap(), parse("(7)"));
}

#[test]
fn cadddr_works() {
    let exp = parse("((1 2) (3 4 5) 6 7)");
    assert_eq!(cadddr(&exp).unwrap(), Exp::Integer(7));
}

#[test]
fn caddr_works() {
    let exp = parse("((1 2) (3 4 5) 6 7)");
    assert_eq!(caddr(&exp).unwrap(), Exp::Integer(6));
}

#[test]
fn caadr_works() {
    let exp = parse("((1 2) (3 4 5) 6 7)");
    assert_eq!(caadr(&exp).unwrap(), Exp::Integer(3));
}

#[test]
fn cdadr_works() {
    let exp = parse("((1 2) (3 4 5) 6 7)");
    assert_eq!(cdadr(&exp).unwrap(), parse("(4 5)"));
}

#[test]
fn is_tagged_list_works() {
    let arg1 = list_from_vec(vec![parse("(reg continue)"), Exp::Symbol("reg".to_string())]);
    assert_eq!(is_tagged_list(&arg1).unwrap(), Exp::Bool(true));
    let arg2 = list_from_vec(vec![parse("(const 1)"), Exp::Symbol("const".to_string())]);
    assert_eq!(is_tagged_list(&arg2).unwrap(), Exp::Bool(true));
    let arg3 = list_from_vec(vec![parse("(reg continue)"), Exp::Symbol("const".to_string())]);
    assert_eq!(is_tagged_list(&arg3).unwrap(), Exp::Bool(false));
}
