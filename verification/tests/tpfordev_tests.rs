//! Symbolic expression tests.

use regmachine::machine::list_from_vec;
use regmachine::parserfordev::{exp_to_str, str_to_exp};
use regmachine::tpfordev::{append, car, cdr, scheme_assoc, scheme_cons, Exp, Pair};

fn parse(s: &str) -> Exp {
    str_to_exp(s.to_string()).unwrap()
}

#[test]
fn car_works() {
    let exp = parse("((1 2) (3 (4 5)))");
    let exp1 = car(&exp).unwrap();
    let exp2 = car(&exp1).unwrap();
    assert_eq!(exp1, parse("(1 2)"));
    assert_eq!(exp2, parse("1"));
}

#[test]
fn cdr_works() {
    let exp = parse("((1 2) (3 (4 5)))");
    let exp1 = cdr(&exp).unwrap();
    let exp2 = cdr(&exp1).unwrap();
    let exp3 = car(&exp1).unwrap();
    let exp4 = cdr(&exp3).unwrap();

    assert_eq!(exp1, parse("((3 ( 4 5)))"));
    assert_eq!(exp2, parse("()"));
    assert_eq!(exp3, parse("(3 ( 4 5))"));
    assert_eq!(exp4, parse("(( 4 5))"));
}

#[test]
fn scheme_assoc_works() {
    let items = parse("((spring 1) (summer 2) (autumn 3) (winter 4))");
    let mut key = Exp::Symbol("summer".to_string());
    let result_a = scheme_assoc(&items, &key).unwrap();
    let checkout_a = parse("(summer 2)");
    assert_eq!(result_a, checkout_a);
    key = Exp::Symbol("USA".to_string());
    let result_b = scheme_assoc(&items, &key);
    assert_eq!(result_b, None);
    let list = parse("(((bird)) ((egg)) ((cake)) ((pear)))");
    key = parse("(egg)");
    let result_c = scheme_assoc(&list, &key).unwrap();
    let checkout_c = parse("((egg))");
    assert_eq!(result_c, checkout_c);
}

#[test]
fn scheme_list_works() {
    let exp = list_from_vec(vec![
        Exp::Integer(1),
        list_from_vec(vec![
            Exp::Integer(2),
            list_from_vec(vec![Exp::Integer(3), Exp::List(Pair::Nil)]),
        ]),
    ]);
    let checkout = parse("(1 (2 (3 ())))");
    assert_eq!(exp, checkout);
}

#[test]
fn append_works() {
    let mut lhs = parse("(x y)");
    let rhs = parse("((1 2 3))");
    assert_eq!(append(lhs, rhs.clone()).unwrap(), parse("(x y (1 2 3))"));
    lhs = Exp::List(Pair::Nil);
    assert_eq!(append(lhs, rhs.clone()).unwrap(), rhs);
}

#[test]
fn scheme_cons_works() {
    let one = Exp::Integer(1);
    let rest = parse("(2 3)");
    assert_eq!(scheme_cons(one, rest), parse("(1 2 3)"));
    let wrapped = scheme_cons(Exp::Integer(1), Exp::Integer(2));
    assert_eq!(wrapped, parse("(1 2)"));
}

#[test]
fn is_self_evaluating_list_works() {
    let mut exp = parse("(1 (2 3) ('winter 4) () (\"winter is coming\"))");
    assert_eq!(exp.is_self_evuluating_list(), true);
    exp = parse("(1 ( 2 3) (x 4))");
    assert_eq!(exp.is_self_evuluating_list(), false);
}

#[test]
fn exp_to_str_round_trip() {
    let e = parse("(assign continue (label fact-done))");
    let s = exp_to_str(e.clone());
    assert_eq!(str_to_exp(s).unwrap(), e);
}
