use std::cell::RefCell;

use telescope::error::ErrorKind;
use telescope::eval::eval;
use telescope::expr::{Builtin, Env, Expr, Function, Lambda};
use telescope::host::Host;
use telescope::lex::tokenize;
use telescope::ops::{
    add, and, cons, div, equal, exit, first, greater, greater_eq, less, less_eq, mul, not, or,
    print, print_text, rest, sub,
};
use telescope::parse::parse;
use telescope::token::{Atom, Operator, Token};

struct F64Host {
    lines: RefCell<Vec<String>>,
}

fn f(b: u64) -> f64 {
    f64::from_bits(b)
}

impl Host for F64Host {
    fn float_of_int(&self, x: i64) -> u64 {
        (x as f64).to_bits()
    }
    fn float_add(&self, a: u64, b: u64) -> u64 {
        (f(a) + f(b)).to_bits()
    }
    fn float_sub(&self, a: u64, b: u64) -> u64 {
        (f(a) - f(b)).to_bits()
    }
    fn float_mul(&self, a: u64, b: u64) -> u64 {
        (f(a) * f(b)).to_bits()
    }
    fn float_div(&self, a: u64, b: u64) -> u64 {
        (f(a) / f(b)).to_bits()
    }
    fn float_neg(&self, a: u64) -> u64 {
        (-f(a)).to_bits()
    }
    fn float_less(&self, a: u64, b: u64) -> bool {
        f(a) < f(b)
    }
    fn float_less_eq(&self, a: u64, b: u64) -> bool {
        f(a) <= f(b)
    }
    fn float_parse(&self, text: &String) -> Option<u64> {
        text.parse::<f64>().ok().map(f64::to_bits)
    }
    fn float_text(&self, a: u64) -> String {
        format!("{:?}", f(a))
    }
    fn emit(&self, line: &String) {
        self.lines.borrow_mut().push(line.clone());
    }
}

fn host() -> F64Host {
    F64Host { lines: RefCell::new(Vec::new()) }
}

fn flt(x: f64) -> Expr {
    Expr::Flt(x.to_bits())
}

fn s(x: &str) -> Expr {
    Expr::Str(x.to_string())
}

fn sym(x: &str) -> Expr {
    Expr::Sym(x.to_string())
}

fn as_int(r: Result<Expr, ErrorKind>) -> i64 {
    match r {
        Ok(Expr::Int(i)) => i,
        other => panic!("expected an integer, got {:?}", other),
    }
}

fn as_flt(r: Result<Expr, ErrorKind>) -> f64 {
    match r {
        Ok(Expr::Flt(b)) => f64::from_bits(b),
        other => panic!("expected a float, got {:?}", other),
    }
}

fn as_bool(r: Result<Expr, ErrorKind>) -> bool {
    match r {
        Ok(Expr::Bool(b)) => b,
        other => panic!("expected a boolean, got {:?}", other),
    }
}

fn err(r: Result<Expr, ErrorKind>) -> ErrorKind {
    match r {
        Err(e) => e,
        Ok(v) => panic!("expected an error, got {:?}", v),
    }
}

fn run(text: &str) -> Result<Expr, ErrorKind> {
    let h = host();
    let e = parse(text, &h)?;
    eval(&e, &telescope::eval::env(), &h)
}

fn shown(e: &Expr) -> String {
    e.display(&host())
}

#[test]
fn operator_parse_reads_symbols() {
    assert_eq!(Operator::parse("+"), Ok(Operator::Add));
    assert_eq!(Operator::parse("-"), Ok(Operator::Sub));
    assert_eq!(Operator::parse("*"), Ok(Operator::Mul));
    assert_eq!(Operator::parse("/"), Ok(Operator::Div));
    assert_eq!(Operator::parse("x"), Err(()));
    assert_eq!(Operator::parse("++"), Err(()));
    assert_eq!(Operator::Mul.symbol(), "*");
}

#[test]
fn literals_evaluate_to_themselves() {
    let h = host();
    let root = telescope::eval::env();
    for e in [Expr::Int(42), Expr::Int(-7), flt(2.5), s("hi"), Expr::Bool(true), Expr::Nil] {
        let v = eval(&e, &root, &h).unwrap();
        assert!(v.same(&e));
    }
    let f = Expr::Function(Function::Builtin(Builtin::Add));
    assert!(eval(&f, &root, &h).unwrap().same(&f));
}

#[test]
fn add_integers_and_promotion() {
    let h = host();
    assert_eq!(as_int(add(&[Expr::Int(2), Expr::Int(3)], &h)), 5);
    assert_eq!(as_flt(add(&[Expr::Int(2), flt(3.0)], &h)), 5.0);
    assert_eq!(as_int(add(&[], &h)), 0);
    assert_eq!(err(add(&[Expr::Int(1), s("a")], &h)), ErrorKind::Type);
    assert_eq!(err(add(&[Expr::Int(i64::MAX), Expr::Int(1)], &h)), ErrorKind::Overflow);
}

#[test]
fn sub_negates_and_folds() {
    let h = host();
    assert_eq!(as_int(sub(&[Expr::Int(4)], &h)), -4);
    assert_eq!(as_int(sub(&[Expr::Int(10), Expr::Int(3), Expr::Int(2)], &h)), 5);
    assert_eq!(as_flt(sub(&[flt(1.5)], &h)), -1.5);
    assert_eq!(as_flt(sub(&[Expr::Int(10), flt(0.5)], &h)), 9.5);
    assert_eq!(err(sub(&[], &h)), ErrorKind::Arity);
    assert_eq!(err(sub(&[Expr::Int(i64::MIN)], &h)), ErrorKind::Overflow);
}

#[test]
fn mul_products() {
    let h = host();
    assert_eq!(as_int(mul(&[Expr::Int(2), Expr::Int(3), Expr::Int(7)], &h)), 42);
    assert_eq!(as_int(mul(&[], &h)), 1);
    assert_eq!(as_flt(mul(&[Expr::Int(2), flt(0.25)], &h)), 0.5);
    assert_eq!(err(mul(&[Expr::Int(i64::MAX), Expr::Int(2)], &h)), ErrorKind::Overflow);
}

#[test]
fn div_by_zero_int_and_float() {
    let h = host();
    assert_eq!(err(div(&[Expr::Int(4), Expr::Int(0)], &h)), ErrorKind::DivisionByZero);
    assert_eq!(as_flt(div(&[flt(4.0), flt(0.0)], &h)), f64::INFINITY);
}

#[test]
fn div_truncates_and_inverts() {
    let h = host();
    assert_eq!(as_int(div(&[Expr::Int(7), Expr::Int(2)], &h)), 3);
    assert_eq!(as_int(div(&[Expr::Int(-7), Expr::Int(2)], &h)), -3);
    assert_eq!(as_int(div(&[Expr::Int(100), Expr::Int(5), Expr::Int(2)], &h)), 10);
    assert_eq!(as_flt(div(&[Expr::Int(4)], &h)), 0.25);
    assert_eq!(err(div(&[], &h)), ErrorKind::Arity);
    assert_eq!(err(div(&[Expr::Int(i64::MIN), Expr::Int(-1)], &h)), ErrorKind::Overflow);
}

#[test]
fn ordering_needs_same_types() {
    let h = host();
    assert_eq!(err(less(&[Expr::Int(1), flt(2.0)], &h)), ErrorKind::ComparisonUndefined);
    assert!(as_bool(less(&[Expr::Int(1), Expr::Int(2)], &h)));
    assert!(!as_bool(greater(&[Expr::Int(1), Expr::Int(2)], &h)));
    assert!(as_bool(less_eq(&[Expr::Int(2), Expr::Int(2)], &h)));
    assert!(as_bool(greater_eq(&[flt(2.0), flt(2.0)], &h)));
    assert!(as_bool(less(&[s("abc"), s("abd")], &h)));
    assert!(as_bool(less(&[s("ab"), s("abc")], &h)));
    assert!(as_bool(greater_eq(&[s("b"), s("abc")], &h)));
    assert_eq!(err(less(&[Expr::Int(1)], &h)), ErrorKind::Arity);
}

#[test]
fn equality_is_structural() {
    let l1 = Expr::List(vec![Expr::Int(1), s("x")]);
    let l2 = Expr::List(vec![Expr::Int(1), s("x")]);
    let v2 = Expr::Vector(vec![Expr::Int(1), s("x")]);
    assert!(as_bool(equal(&[l1.copy(), l2])));
    assert!(!as_bool(equal(&[l1, v2])));
    assert!(!as_bool(equal(&[Expr::Int(1), flt(1.0)])));
    assert_eq!(err(equal(&[Expr::Int(1)])), ErrorKind::Arity);
}

#[test]
fn boolean_procedures() {
    assert!(as_bool(not(&[Expr::Nil])));
    assert!(as_bool(not(&[Expr::Bool(false)])));
    assert!(!as_bool(not(&[Expr::Int(0)])));
    assert!(as_bool(and(&[Expr::Bool(true), Expr::Bool(true)])));
    assert!(!as_bool(and(&[Expr::Bool(true), Expr::Bool(false)])));
    assert!(as_bool(and(&[])));
    assert!(as_bool(or(&[Expr::Bool(false), Expr::Bool(true)])));
    assert!(!as_bool(or(&[])));
    assert_eq!(err(and(&[Expr::Bool(true), Expr::Int(1)])), ErrorKind::Type);
    assert_eq!(err(or(&[Expr::Nil])), ErrorKind::Type);
}

#[test]
fn first_and_cons_on_lists_and_vectors() {
    assert!(first(&[Expr::List(vec![])]).unwrap().same(&Expr::Nil));
    assert!(first(&[Expr::Vector(vec![])]).unwrap().same(&Expr::Nil));
    let x = Expr::Int(9);
    let l = cons(&[x.copy(), Expr::List(vec![])]).unwrap();
    assert!(l.same(&Expr::List(vec![Expr::Int(9)])));
    let v = cons(&[x.copy(), Expr::Vector(vec![])]).unwrap();
    assert!(v.same(&Expr::Vector(vec![Expr::Int(9)])));
    let l = cons(&[Expr::Int(0), Expr::List(vec![Expr::Int(1), Expr::Int(2)])]).unwrap();
    assert_eq!(shown(&l), "( 0 1 2 )");
    let v = cons(&[Expr::Int(0), Expr::Vector(vec![Expr::Int(1), Expr::Int(2)])]).unwrap();
    assert_eq!(shown(&v), "[ 1 2 0 ]");
    assert_eq!(err(cons(&[Expr::Int(0), Expr::Int(1)])), ErrorKind::Type);
    assert!(first(&[Expr::List(vec![Expr::Int(5), Expr::Int(6)])]).unwrap().same(&Expr::Int(5)));
    assert_eq!(err(first(&[Expr::Int(5)])), ErrorKind::Type);
}

#[test]
fn rest_drops_the_first_element() {
    let r = rest(&[Expr::List(vec![Expr::Int(1), Expr::Int(2), Expr::Int(3)])]).unwrap();
    assert_eq!(shown(&r), "( 2 3 )");
    let r = rest(&[Expr::Vector(vec![Expr::Int(1)])]).unwrap();
    assert_eq!(shown(&r), "[  ]");
    assert!(rest(&[Expr::List(vec![])]).unwrap().same(&Expr::Nil));
    assert_eq!(err(rest(&[])), ErrorKind::Arity);
}

#[test]
fn lambda_resolves_free_names_where_it_was_made() {
    let h = host();
    let mut captured = telescope::eval::env();
    captured.define("x".to_string(), Expr::Int(1));
    let lam = Lambda {
        params: vec![],
        body: Box::new(Expr::List(vec![sym("+"), sym("x"), Expr::Int(10)])),
        env: Box::new(captured),
    };
    let mut caller = telescope::eval::env();
    caller.define("x".to_string(), Expr::Int(2));
    caller.define("f".to_string(), Expr::Function(Function::Lambda(lam)));
    let call = Expr::List(vec![sym("f")]);
    assert_eq!(as_int(eval(&call, &caller, &h)), 11);
}

#[test]
fn lambda_binds_parameters_and_checks_arity() {
    let h = host();
    let lam = Lambda {
        params: vec!["a".to_string(), "b".to_string()],
        body: Box::new(Expr::List(vec![sym("-"), sym("a"), sym("b")])),
        env: Box::new(telescope::eval::env()),
    };
    let mut root = telescope::eval::env();
    root.define("g".to_string(), Expr::Function(Function::Lambda(lam)));
    let ok = Expr::List(vec![sym("g"), Expr::Int(10), Expr::Int(4)]);
    assert_eq!(as_int(eval(&ok, &root, &h)), 6);
    let bad = Expr::List(vec![sym("g"), Expr::Int(10)]);
    assert_eq!(err(eval(&bad, &root, &h)), ErrorKind::Arity);
}

#[test]
fn undefined_symbol_is_an_error() {
    let h = host();
    let e = Env::new(vec![], None);
    assert_eq!(err(eval(&sym("nope"), &e, &h)), ErrorKind::UndefinedSymbol("nope".to_string()));
    assert!(e.lookup(&"nope".to_string()).is_none());
    assert_eq!(err(run("(+ 1 y)")), ErrorKind::UndefinedSymbol("y".to_string()));
}

#[test]
fn lookup_walks_to_the_parent() {
    let mut parent = Env::new(vec![], None);
    parent.define("a".to_string(), Expr::Int(1));
    let mut child = Env::new(vec![("b".to_string(), Expr::Int(2))], Some(parent));
    assert!(child.lookup(&"a".to_string()).unwrap().same(&Expr::Int(1)));
    child.define("a".to_string(), Expr::Int(3));
    assert!(child.lookup(&"a".to_string()).unwrap().same(&Expr::Int(3)));
    assert!(child.parent.as_ref().unwrap().lookup(&"a".to_string()).unwrap().same(&Expr::Int(1)));
}

#[test]
fn exit_is_a_distinct_signal() {
    assert_eq!(err(exit(&[])), ErrorKind::Exit(0));
    assert_eq!(err(exit(&[Expr::Int(3)])), ErrorKind::Exit(3));
    assert_eq!(err(run("(exit)")), ErrorKind::Exit(0));
    assert_ne!(err(run("(exit)")), err(run("(/ 1 0)")));
    assert_eq!(err(run("(/ 1 0)")), ErrorKind::DivisionByZero);
}

#[test]
fn parse_then_display_round_trips() {
    let h = host();
    for text in ["( + 1 ( * 2 3 ) )", "[ 1 2 [ 3 ] ]", "( first ( cons true (  ) ) )", "\"a b\"", "-12", "( <= x y )"] {
        let e = parse(text, &h).unwrap();
        assert_eq!(e.display(&h), text);
    }
    let e = parse("  ( +   1\t2 )  ", &h).unwrap();
    assert_eq!(e.display(&h), "( + 1 2 )");
    let e = parse("( 1.5 -2.25 )", &h).unwrap();
    assert_eq!(e.display(&h), "( 1.5 -2.25 )");
}

#[test]
fn parse_errors_and_eof() {
    let h = host();
    assert_eq!(err(parse("", &h)), ErrorKind::Eof);
    assert_eq!(err(parse("   \t", &h)), ErrorKind::Eof);
    assert!(matches!(parse("(1 2", &h), Err(ErrorKind::Parse(_))));
    assert!(matches!(parse(")", &h), Err(ErrorKind::Parse(_))));
    assert!(matches!(parse("(1 2]", &h), Err(ErrorKind::Parse(_))));
    assert!(matches!(parse("1 2", &h), Err(ErrorKind::Parse(_))));
    assert_eq!(err(parse("\"open", &h)), ErrorKind::Parse(0));
    assert_eq!(err(parse("99999999999999999999", &h)), ErrorKind::Parse(0));
}

#[test]
fn tokenize_classifies_words() {
    let h = host();
    let ts = tokenize("(+ -3 2.5 true name \"s\")", &h).unwrap();
    assert_eq!(ts.len(), 8);
    assert_eq!(ts[0], Token::Open);
    assert_eq!(ts[1], Token::Atom(Atom::Op(Operator::Add)));
    assert_eq!(ts[2], Token::Atom(Atom::Int(-3)));
    assert_eq!(ts[3], Token::Atom(Atom::Float(2.5f64.to_bits())));
    assert_eq!(ts[4], Token::Atom(Atom::Bool(true)));
    assert_eq!(ts[5], Token::Sym("name".to_string()));
    assert_eq!(ts[6], Token::Atom(Atom::Str("s".to_string())));
    assert_eq!(ts[7], Token::Close);
    let ts = tokenize("-9223372036854775808", &h).unwrap();
    assert_eq!(ts[0], Token::Atom(Atom::Int(i64::MIN)));
}

#[test]
fn evaluates_nested_applications() {
    assert_eq!(as_int(run("(+ 1 (* 2 3) (- 10 4))")), 13);
    assert!(as_bool(run("(< 1 2)")));
    assert!(as_bool(run("(and (= 1 1) (not false))")));
    assert_eq!(shown(&run("(rest [1 2 3])").unwrap()), "[ 2 3 ]");
    assert_eq!(shown(&run("[(+ 1 1) 3]").unwrap()), "[ 2 3 ]");
    assert_eq!(shown(&run("(  )").unwrap()), "(  )");
    assert_eq!(err(run("(1 2)")), ErrorKind::NotCallable);
    assert_eq!(as_flt(run("(+ 1 2.5)")), 3.5);
}

#[test]
fn print_emits_one_line() {
    let h = host();
    let r = print(&[Expr::List(vec![Expr::Int(1), s("a")])], &h);
    assert!(r.unwrap().same(&Expr::Nil));
    assert_eq!(h.lines.borrow().clone(), vec!["( 1 \"a\" )".to_string()]);
    assert_eq!(err(print(&[], &h)), ErrorKind::Arity);
}

#[test]
fn display_of_atoms() {
    assert_eq!(shown(&Expr::Int(-305)), "-305");
    assert_eq!(shown(&Expr::Int(i64::MIN)), "-9223372036854775808");
    assert_eq!(shown(&Expr::Nil), "nil");
    assert_eq!(shown(&Expr::Bool(false)), "false");
    assert_eq!(shown(&Expr::Function(Function::Builtin(Builtin::LessEq))), "#<builtin <=>");
}

#[test]
fn deep_nesting_is_refused() {
    let mut text = String::new();
    for _ in 0..500 {
        text.push_str("(+ 1 ");
    }
    text.push('1');
    for _ in 0..500 {
        text.push(')');
    }
    assert_eq!(err(run(&text)), ErrorKind::TooDeep);
}

#[test]
fn atom_display_matches_expression_text() {
    let h = host();
    assert_eq!(Atom::Op(Operator::Div).display(&h), "/");
    assert_eq!(Atom::Int(-8).display(&h), "-8");
    assert_eq!(Atom::Bool(true).display(&h), "true");
    assert_eq!(Atom::Str("q".to_string()).display(&h), "\"q\"");
    assert_eq!(Atom::Float(0.5f64.to_bits()).display(&h), "0.5");
}

#[test]
fn integer_results_are_exact_whatever_the_order() {
    let h = host();
    assert_eq!(as_int(add(&[Expr::Int(i64::MAX), Expr::Int(1), Expr::Int(-1)], &h)), i64::MAX);
    assert_eq!(as_int(mul(&[Expr::Int(i64::MAX), Expr::Int(2), Expr::Int(0)], &h)), 0);
    assert_eq!(as_int(sub(&[Expr::Int(i64::MIN), Expr::Int(1), Expr::Int(-1)], &h)), i64::MIN);
    assert_eq!(as_int(mul(&[Expr::Int(1 << 62), Expr::Int(2), Expr::Int(-1)], &h)), i64::MIN);
    assert_eq!(as_int(div(&[Expr::Int(i64::MIN), Expr::Int(-1), Expr::Int(2)], &h)), 1 << 62);
    assert_eq!(err(mul(&[Expr::Int(1 << 62), Expr::Int(4), Expr::Int(1)], &h)), ErrorKind::Overflow);
}

#[test]
fn inverse_of_integer_zero_is_division_by_zero() {
    let h = host();
    assert_eq!(err(div(&[Expr::Int(0)], &h)), ErrorKind::DivisionByZero);
    assert_eq!(as_flt(div(&[flt(0.0)], &h)), f64::INFINITY);
}

#[test]
fn print_text_is_the_display_of_the_argument() {
    let h = host();
    let t = print_text(&[Expr::Vector(vec![Expr::Int(1), Expr::Bool(true)])], &h).unwrap();
    assert_eq!(t, "[ 1 true ]");
    assert_eq!(print_text(&[], &h), Err(ErrorKind::Arity));
    assert_eq!(err(print(&[Expr::Int(1), Expr::Int(2)], &h)), ErrorKind::Arity);
    assert!(h.lines.borrow().is_empty());
}
