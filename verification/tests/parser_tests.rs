//! Token-level reader tests.

use regmachine::errors::MachineError;
use regmachine::parser::{
    is_end_with_double_quote, is_f32, is_i32, is_symbol, read_scheme_quote, read_scheme_string,
    reverse, syntax_checker, tokenizer, try_parse_i32, PairStack,
};

#[test]
fn tokenizer_works() {
    let s = "(define (fac n)
                         (if (= n 1)
                              1
                             (* n
                                (fac (- n 1)))))"
        .to_string();
    let tokens = tokenizer(s);
    let v = vec![
        "(", "define", "(", "fac", "n", ")", "(", "if", "(", "=", "n", "1", ")", "1", "(", "*",
        "n", "(", "fac", "(", "-", "n", "1", ")", ")", ")", ")", ")",
    ];
    assert_eq!(tokens, v);
}

#[test]
fn read_scheme_string_works() {
    let t = vec!["\"winter", "is", "coming\""];
    let mut tokens: Vec<String> = t.into_iter().map(|x| x.to_string()).collect();
    tokens = reverse(&mut tokens);
    let x = tokens.pop().unwrap();
    let s = read_scheme_string(x, &mut tokens).unwrap();
    assert_eq!(s, "winter is coming".to_string());
}

#[test]
fn read_scheme_quote_works() {
    let quote = "'(1 ( 2 3 ))".to_string();
    let mut tokens = reverse(&mut tokenizer(quote));
    let x = tokens.pop().unwrap();
    let s = read_scheme_quote(x, &mut tokens).unwrap();
    assert_eq!(s, "( 1 ( 2 3))".to_string());
    let another_quote = "'symbol ( 1 2)".to_string();
    let mut ttokens = reverse(&mut tokenizer(another_quote));
    let xx = ttokens.pop().unwrap();
    let ss = read_scheme_quote(xx, &mut ttokens).unwrap();
    assert_eq!(ss, "symbol".to_string());
}

#[test]
fn is_end_with_double_quote_works() {
    let s = "coming\"";
    assert_eq!(is_end_with_double_quote(s), true);
}

#[test]
fn syntax_checker_works() {
    let balanced = tokenizer("(a (b c) d)".to_string());
    assert!(syntax_checker(&balanced));
    let unbalanced = tokenizer("(a (b c) d".to_string());
    assert!(!syntax_checker(&unbalanced));
}

#[test]
fn reverse_works() {
    let mut v: Vec<String> = vec!["a".to_string(), "b".to_string(), "c".to_string()];
    let r = reverse(&mut v);
    assert_eq!(r, vec!["c".to_string(), "b".to_string(), "a".to_string()]);
    assert!(v.is_empty());
}

#[test]
fn pair_stack_works() {
    let mut s = PairStack::new();
    assert!(s.peek().is_none());
    s.push(3).unwrap();
    s.push(7).unwrap();
    assert_eq!(s.peek(), Some(7));
    assert_eq!(s.pop(), Some(7));
    assert_eq!(s.pop(), Some(3));
    assert_eq!(s.pop(), None);
}

#[test]
fn pair_stack_overflow_is_fatal() {
    let mut s = PairStack::new();
    for i in 0..100 {
        s.push(i).unwrap();
    }
    assert_eq!(s.push(100), Err(MachineError::StackOverflow));
}

#[test]
fn number_classifiers_work() {
    assert!(is_i32("42".to_string()));
    assert!(is_i32("-7".to_string()));
    assert!(is_i32("+0".to_string()));
    assert!(!is_i32("3.14".to_string()));
    assert!(!is_i32("4a".to_string()));
    assert!(!is_i32("2147483648".to_string()));
    assert_eq!(try_parse_i32("2147483647"), Some(2147483647));
    assert_eq!(try_parse_i32("-2147483648"), Some(-2147483648));
    assert_eq!(try_parse_i32("-2147483649"), None);
    assert!(is_f32("3.14".to_string()));
    assert!(is_f32("-2.5e10".to_string()));
    assert!(is_f32(".5".to_string()));
    assert!(is_f32("5.".to_string()));
    assert!(is_f32("42".to_string()));
    assert!(!is_f32(".".to_string()));
    assert!(!is_f32("e5".to_string()));
    assert!(!is_f32("1.2.3".to_string()));
    assert!(!is_f32("abc".to_string()));
}

#[test]
fn symbol_classifier_works() {
    assert!(is_symbol(&"fact".to_string()));
    assert!(is_symbol(&"=".to_string()));
    assert!(is_symbol(&"*".to_string()));
    assert!(!is_symbol(&"42".to_string()));
    assert!(!is_symbol(&"(".to_string()));
}
