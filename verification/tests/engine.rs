use parsec::consumers::{
    alphabetic, any_char, bool, char, digit, eos, fail, identifier, just, number, string,
    whitespace, whitespaces,
};
use parsec::context::Context;
use parsec::parser::{MapFn, Pred};
use parsec::result::text;
use parsec::sexpr;
use parsec::value::Value;

fn chars(s: &str) -> Vec<char> {
    text(s)
}

#[test]
fn string_match_consumes_all() {
    let mut ctx = Context::from_str("abc");
    let r = ctx.parse_by(&string("abc"));
    match r {
        Ok(Value::Text(t)) => assert_eq!(t, chars("abc")),
        _ => panic!("expected text"),
    }
    // the whole literal was consumed: end of stream follows
    assert!(ctx.parse_by(&eos()).is_ok());
}

#[test]
fn string_mismatch_fails_at_start_and_rolls_back() {
    let mut ctx = Context::from_str("abd");
    let r = ctx.parse_by(&string("abc"));
    match r {
        Err(e) => {
            assert_eq!(e.pos, 0);
            assert_eq!(e.msg, chars("expect \"abc\""));
        }
        _ => panic!("expected failure"),
    }
    // rollback: any_char still reads the first character
    match ctx.parse_by(&any_char()) {
        Ok(Value::Char(c)) => assert_eq!(c, 'a'),
        _ => panic!("expected char"),
    }
}

#[test]
fn or_left_wins_when_it_succeeds() {
    let mut ctx = Context::from_str("x");
    let p = char('x').or(char('y'));
    match ctx.parse_by(&p) {
        Ok(Value::Char(c)) => assert_eq!(c, 'x'),
        _ => panic!("expected x"),
    }
}

#[test]
fn or_right_wins_after_left_failure() {
    let mut ctx = Context::from_str("y");
    let p = char('x').or(char('y'));
    match ctx.parse_by(&p) {
        Ok(Value::Char(c)) => assert_eq!(c, 'y'),
        _ => panic!("expected y"),
    }
}

#[test]
fn or_failure_keeps_furthest_position_tie_favours_right() {
    // both fail at position 1; the right message is kept
    let mut ctx = Context::from_str("z");
    let p = char('x').or(char('y'));
    match ctx.parse_by(&p) {
        Err(e) => {
            assert_eq!(e.pos, 1);
            assert_eq!(e.msg, chars("expect 'y'"));
        }
        _ => panic!("expected failure"),
    }
    // left fails further into the input: its error is kept
    let mut ctx2 = Context::from_str("ax");
    let p2 = char('a').use_right(char('b')).or(char('c'));
    match ctx2.parse_by(&p2) {
        Err(e) => {
            assert_eq!(e.pos, 2);
            assert_eq!(e.msg, chars("expect 'b'"));
        }
        _ => panic!("expected failure"),
    }
}

#[test]
fn many_never_fails_and_some_propagates() {
    let mut ctx = Context::from_str("xyz");
    match ctx.parse_by(&digit().many()) {
        Ok(Value::List(vs)) => assert_eq!(vs.len(), 0),
        _ => panic!("expected empty list"),
    }
    // position unchanged: 'x' is still next
    match ctx.parse_by(&digit().some()) {
        Err(e) => {
            assert_eq!(e.pos, 1);
            assert_eq!(e.msg, chars("expect digit"));
        }
        _ => panic!("expected failure"),
    }
    match ctx.parse_by(&any_char()) {
        Ok(Value::Char(c)) => assert_eq!(c, 'x'),
        _ => panic!("expected x"),
    }
}

#[test]
fn number_round_trip() {
    let mut ctx = Context::from_str("123");
    match ctx.parse_by(&number()) {
        Ok(Value::Int(i)) => assert_eq!(i, 123),
        _ => panic!("expected 123"),
    }
    // all three digits were consumed
    assert!(ctx.parse_by(&eos()).is_ok());
}

#[test]
fn number_takes_maximal_digit_run_only() {
    let mut ctx = Context::from_str("12a");
    match ctx.parse_by(&number()) {
        Ok(Value::Int(i)) => assert_eq!(i, 12),
        _ => panic!("expected 12"),
    }
    // the run ends before 'a'
    assert!(matches!(ctx.parse_by(&any_char()), Ok(Value::Char('a'))));
}

#[test]
fn number_rejects_empty_run_and_overflow() {
    let mut ctx = Context::from_str("x");
    match ctx.parse_by(&number()) {
        Err(e) => {
            assert_eq!(e.pos, 0);
            assert_eq!(e.msg, chars("expect number"));
        }
        _ => panic!("expected failure"),
    }
    let mut c2 = Context::from_str("99999999999999999999");
    match c2.parse_by(&number()) {
        Err(e) => {
            assert_eq!(e.pos, 20);
            assert_eq!(e.msg, chars("expect number"));
        }
        _ => panic!("expected overflow failure"),
    }
}

#[test]
fn whitespace_covers_unicode_spaces() {
    let mut ctx = Context::from_str("\u{A0}x");
    assert!(matches!(ctx.parse_by(&whitespace()), Ok(Value::Char('\u{A0}'))));
    assert!(matches!(ctx.parse_by(&any_char()), Ok(Value::Char('x'))));
}

#[test]
fn let_shadowing_and_sequential_bindings() {
    assert!(matches!(
        sexpr::run("(let (x 1) (y x) (+ x y))"),
        Ok(sexpr::Val::Int(2))
    ));
    assert!(matches!(
        sexpr::run("(let (x 1) (x 2) x)"),
        Ok(sexpr::Val::Int(2))
    ));
}

#[test]
fn identifier_round_trips() {
    let mut ctx = Context::from_str("ab_2");
    match ctx.parse_by(&identifier()) {
        Ok(Value::Text(t)) => assert_eq!(t, chars("ab_2")),
        _ => panic!("expected ab_2"),
    }
    let mut ctx2 = Context::from_str("_x");
    match ctx2.parse_by(&identifier()) {
        Ok(Value::Text(t)) => assert_eq!(t, chars("_x")),
        _ => panic!("expected _x"),
    }
}

#[test]
fn bool_round_trip() {
    let mut ctx = Context::from_str("true");
    match ctx.parse_by(&bool()) {
        Ok(Value::Bool(b)) => assert!(b),
        _ => panic!("expected true"),
    }
    let mut ctx2 = Context::from_str("false");
    match ctx2.parse_by(&bool()) {
        Ok(Value::Bool(b)) => assert!(!b),
        _ => panic!("expected false"),
    }
}

#[test]
fn label_outermost_message_wins() {
    let p = char('x').label(chars("inner")).label(chars("outer"));
    let mut ctx = Context::from_str("q");
    match ctx.parse_by(&p) {
        Err(e) => {
            assert_eq!(e.msg, chars("outer"));
            assert_eq!(e.pos, 1);
        }
        _ => panic!("expected failure"),
    }
}

#[test]
fn pair_between_and_sides() {
    let mut ctx = Context::from_str("ab");
    match ctx.parse_by(&char('a').pair(char('b'))) {
        Ok(Value::Pair(l, r)) => {
            assert!(matches!(*l, Value::Char('a')));
            assert!(matches!(*r, Value::Char('b')));
        }
        _ => panic!("expected pair"),
    }
    let mut c2 = Context::from_str("ab");
    assert!(matches!(c2.parse_by(&char('a').use_left(char('b'))), Ok(Value::Char('a'))));
    let mut c3 = Context::from_str("ab");
    assert!(matches!(c3.parse_by(&char('a').use_right(char('b'))), Ok(Value::Char('b'))));
    let mut c4 = Context::from_str("(x)");
    assert!(matches!(
        c4.parse_by(&char('x').between(char('('), char(')'))),
        Ok(Value::Char('x'))
    ));
}

#[test]
fn pair_failure_rolls_back_first_half() {
    let mut ctx = Context::from_str("ac");
    assert!(ctx.parse_by(&char('a').pair(char('b'))).is_err());
    // the consumed 'a' was restored
    assert!(matches!(ctx.parse_by(&any_char()), Ok(Value::Char('a'))));
}

#[test]
fn split_and_many_till() {
    let mut ctx = Context::from_str("1,2,3");
    match ctx.parse_by(&digit().split(char(','))) {
        Ok(Value::List(vs)) => assert_eq!(vs.len(), 3),
        _ => panic!("expected three items"),
    }
    let mut c2 = Context::from_str("ab;");
    match c2.parse_by(&any_char().many_till(char(';'))) {
        Ok(Value::List(vs)) => assert_eq!(vs.len(), 2),
        _ => panic!("expected two items"),
    }
    // the terminator was consumed
    assert!(c2.parse_by(&eos()).is_ok());
}

#[test]
fn just_and_fail_primitives() {
    let mut ctx = Context::from_str("zz");
    assert!(matches!(ctx.parse_by(&just(Value::Int(7))), Ok(Value::Int(7))));
    match ctx.parse_by(&fail("nope")) {
        Err(e) => {
            assert_eq!(e.pos, 0);
            assert_eq!(e.msg, chars("nope"));
        }
        _ => panic!("expected failure"),
    }
}

#[test]
fn whitespace_and_classes() {
    let mut ctx = Context::from_str(" \tx9");
    assert!(matches!(ctx.parse_by(&whitespace()), Ok(Value::Char(' '))));
    assert!(matches!(ctx.parse_by(&whitespaces()), Ok(Value::Text(_))));
    assert!(matches!(ctx.parse_by(&alphabetic()), Ok(Value::Char('x'))));
    assert!(matches!(ctx.parse_by(&digit()), Ok(Value::Char('9'))));
    assert!(ctx.parse_by(&eos()).is_ok());
}

#[test]
fn filter_and_map_behave() {
    let mut ctx = Context::from_str("a");
    let p = any_char().filter(Pred::IsDigit);
    match ctx.parse_by(&p) {
        Err(e) => {
            assert_eq!(e.msg, chars("unsatisfied"));
            assert_eq!(e.pos, 1);
        }
        _ => panic!("expected failure"),
    }
    let mut c2 = Context::from_str("abc");
    match c2.parse_by(&any_char().many().map(MapFn::CollectText)) {
        Ok(Value::Text(t)) => assert_eq!(t, chars("abc")),
        _ => panic!("expected text"),
    }
}

#[test]
fn error_render_format() {
    let e = parsec::result::Error::new(42, chars("expect digit"));
    assert_eq!(e.render(), chars("[42] expect digit"));
}

#[test]
fn eval_add() {
    assert!(matches!(sexpr::run("(+ 1 2)"), Ok(sexpr::Val::Int(3))));
}

#[test]
fn eval_let_binding() {
    assert!(matches!(sexpr::run("(let (x 1) (+ x 1))"), Ok(sexpr::Val::Int(2))));
}

#[test]
fn eval_if() {
    assert!(matches!(sexpr::run("(if true 1 0)"), Ok(sexpr::Val::Int(1))));
}

#[test]
fn eval_division_by_zero() {
    assert!(matches!(sexpr::run("(/ 1 0)"), Err(sexpr::Error::DivisionByZero)));
}

#[test]
fn eval_unbound_identifier() {
    assert!(matches!(sexpr::run("y"), Err(sexpr::Error::UnboundIdentifier)));
}

#[test]
fn eval_unclosed_reports_past_end() {
    match sexpr::run("(+ 1") {
        Err(sexpr::Error::Parser(e)) => assert_eq!(e.pos, 4),
        _ => panic!("expected a parse error"),
    }
}

#[test]
fn eval_more_operators() {
    assert!(matches!(sexpr::run("(- 5 9)"), Ok(sexpr::Val::Int(-4))));
    assert!(matches!(sexpr::run("(* 6 7)"), Ok(sexpr::Val::Int(42))));
    assert!(matches!(sexpr::run("(/ 7 2)"), Ok(sexpr::Val::Int(3))));
    assert!(matches!(sexpr::run("(< 1 2)"), Ok(sexpr::Val::Bool(true))));
    assert!(matches!(sexpr::run("(> 1 2)"), Ok(sexpr::Val::Bool(false))));
    assert!(matches!(sexpr::run("(= 2 2)"), Ok(sexpr::Val::Bool(true))));
    assert!(matches!(sexpr::run("(+ 1 true)"), Err(sexpr::Error::TypeMismatch)));
    assert!(matches!(
        sexpr::run("(let (x 1) (let (x 2) x))"),
        Ok(sexpr::Val::Int(2))
    ));
}
