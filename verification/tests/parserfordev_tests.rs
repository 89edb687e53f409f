//! Reader and printer tests.  Floating-point literals are kept as
//! their text, so a float atom compares by its literal.

use regmachine::machine::list_from_vec;
use regmachine::parserfordev::{exp_to_str, str_to_exp};
use regmachine::tpfordev::{Exp, Pair};

#[test]
fn str_to_exp_works() {
    let s1 = "true";
    let s2 = "3.14";
    let s3 = "(( 1  2 )
        (3
            (4
               5)))";
    let s4 = "(define x \"winter is coming\")";
    let s5 = "'( 1 ( 2 3))";
    let s6 = "()";
    let exp1 = str_to_exp(s1.to_string()).unwrap();
    let exp2 = str_to_exp(s2.to_string()).unwrap();
    let exp3 = str_to_exp(s3.to_string()).unwrap();
    let exp4 = str_to_exp(s4.to_string()).unwrap();
    let exp5 = str_to_exp(s5.to_string()).unwrap();
    let exp6 = str_to_exp(s6.to_string()).unwrap();
    assert_eq!(exp1, Exp::Bool(true));
    assert_eq!(exp2, Exp::FloatNumber("3.14".to_string()));
    assert_eq!(
        exp3,
        list_from_vec(vec![
            list_from_vec(vec![Exp::Integer(1), Exp::Integer(2)]),
            list_from_vec(vec![
                Exp::Integer(3),
                list_from_vec(vec![Exp::Integer(4), Exp::Integer(5)]),
            ]),
        ])
    );
    assert_eq!(
        exp4,
        list_from_vec(vec![
            Exp::Symbol("define".to_string()),
            Exp::Symbol("x".to_string()),
            Exp::SchemeString("winter is coming".to_string()),
        ])
    );
    assert_eq!(exp5, Exp::Quote("( 1 ( 2 3))".to_string()));
    assert_eq!(exp6, Exp::List(Pair::Nil));
}

#[test]
fn exp_to_str_works() {
    let s1 = "true";
    let s2 = "3.14";
    let s3 = "(( 1  2 )
        (3
            (4
               5)))";
    let s4 = "(define x \"winter is coming\")";
    let s5 = "'( 1 ( 2 3))";
    let s6 = "";
    let exp1 = str_to_exp(s1.to_string()).unwrap();
    let exp2 = str_to_exp(s2.to_string()).unwrap();
    let exp3 = str_to_exp(s3.to_string()).unwrap();
    let exp4 = str_to_exp(s4.to_string()).unwrap();
    let exp5 = str_to_exp(s5.to_string()).unwrap();
    let exp6 = str_to_exp(s6.to_string()).unwrap();
    let ss1 = exp_to_str(exp1);
    let ss2 = exp_to_str(exp2);
    let ss3 = exp_to_str(exp3);
    let ss4 = exp_to_str(exp4);
    let ss5 = exp_to_str(exp5);
    let ss6 = exp_to_str(exp6);
    assert_eq!(ss1, "true".to_string());
    assert_eq!(ss2, "3.14".to_string());
    assert_eq!(ss3, "(( 1 2)( 3( 4 5)))".to_string());
    assert_eq!(ss4, "( define x  \"winter is coming\")".to_string());
    assert_eq!(ss5, "'( 1 ( 2 3))".to_string());
    assert_eq!(ss6, "()".to_string());
}

#[test]
fn unbalanced_text_is_fatal() {
    assert!(str_to_exp("(a (b)".to_string()).is_err());
}

#[test]
fn integer_rendering_is_exact() {
    assert_eq!(exp_to_str(Exp::Integer(0)), "0");
    assert_eq!(exp_to_str(Exp::Integer(2147483647)), "2147483647");
    assert_eq!(exp_to_str(Exp::Integer(-2147483648)), "-2147483648");
    assert_eq!(exp_to_str(Exp::Integer(-90)), "-90");
}
