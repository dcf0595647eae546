//! A small expression language over the engine: atoms, arithmetic and
//! relational operators, `if`, and `let` with sequential bindings. The
//! grammar's leaves are the engine's consumers, driven through the
//! verified interpreter, and each rule is proved to mean exactly what its
//! spec-level mirror says. The evaluator is call by value with static
//! shadowing — each `let` binding is evaluated once, where it is written,
//! seeing the bindings before it, and the latest binding of a name wins —
//! so every evaluation terminates.

use vstd::prelude::*;

use crate::consumers::{
    bool, identifier, lit_at, number, run_end, space_cl, sp_bool, sp_identifier, sp_number,
};
use crate::semantics::{sp, str_expect_msg, Step};
use crate::value::{vl_of, Vl};
use crate::interp::parse_core;
use crate::result::text;
use crate::value::{copy_chars, Value};

verus! {

/// The value of an expression.
#[derive(Clone, Copy)]
pub enum Val {
    Int(i64),
    Bool(bool),
}

/// Everything that can go wrong: a parse failure, or one of the three
/// evaluation faults.
pub enum Error {
    Parser(crate::result::Error),
    TypeMismatch,
    UnboundIdentifier,
    DivisionByZero,
}

/// The operators of the language.
#[derive(Clone, Copy)]
pub enum Operator {
    Add,
    Subtract,
    Multiply,
    Divide,
    Eq,
    Lt,
    Gt,
}

/// A leaf expression.
pub enum Atom {
    Int(i64),
    Bool(bool),
    Var(Vec<char>),
}

/// An expression of the language.
pub enum Expression {
    Atom(Atom),
    Oper { oper: Operator, lhs: Box<Expression>, rhs: Box<Expression> },
    If { pred: Box<Expression>, then: Box<Expression>, or_else: Box<Expression> },
    Let { bindings: Vec<(Vec<char>, Expression)>, body: Box<Expression> },
}

// ===== the grammar's model =====

/// Spec-level model of a leaf expression.
pub enum AtomV {
    Int(int),
    Bool(bool),
    Var(Seq<char>),
}

/// Spec-level model of an expression.
pub enum ExpV {
    Atom(AtomV),
    Oper { oper: Operator, lhs: Box<ExpV>, rhs: Box<ExpV> },
    If { pred: Box<ExpV>, then: Box<ExpV>, or_else: Box<ExpV> },
    Let { bindings: Seq<(Seq<char>, ExpV)>, body: Box<ExpV> },
}

/// The model of a leaf.
pub open spec fn atom_view(a: Atom) -> AtomV {
    match a {
        Atom::Int(i) => AtomV::Int(i as int),
        Atom::Bool(b) => AtomV::Bool(b),
        Atom::Var(n) => AtomV::Var(n@),
    }
}

/// The model of an expression.
pub open spec fn exp_view(e: Expression) -> ExpV
    decreases e,
{
    match e {
        Expression::Atom(a) => ExpV::Atom(atom_view(a)),
        Expression::Oper { oper, lhs, rhs } => ExpV::Oper {
            oper,
            lhs: Box::new(exp_view(*lhs)),
            rhs: Box::new(exp_view(*rhs)),
        },
        Expression::If { pred, then, or_else } => ExpV::If {
            pred: Box::new(exp_view(*pred)),
            then: Box::new(exp_view(*then)),
            or_else: Box::new(exp_view(*or_else)),
        },
        Expression::Let { bindings, body } => ExpV::Let {
            bindings: binds_view(bindings@),
            body: Box::new(exp_view(*body)),
        },
    }
}

/// The model of a run of bindings, element by element.
pub open spec fn binds_view(bs: Seq<(Vec<char>, Expression)>) -> Seq<(Seq<char>, ExpV)>
    decreases bs,
{
    if bs.len() == 0 {
        Seq::empty()
    } else {
        seq![(bs[0].0@, exp_view(bs[0].1))] + binds_view(bs.drop_first())
    }
}

/// `binds_view` distributes over pushing one binding at the back.
pub proof fn lemma_binds_view_push(bs: Seq<(Vec<char>, Expression)>, b: (Vec<char>, Expression))
    ensures
        binds_view(bs.push(b)) == binds_view(bs) + seq![(b.0@, exp_view(b.1))],
    decreases bs,
{
    if bs.len() == 0 {
        let p = bs.push(b);
        assert(p.drop_first() =~= Seq::<(Vec<char>, Expression)>::empty());
        assert(p[0] == b);
        assert(binds_view(p.drop_first()) =~= Seq::<(Seq<char>, ExpV)>::empty());
        assert(binds_view(p) =~= seq![(b.0@, exp_view(b.1))]);
        assert(binds_view(bs) + seq![(b.0@, exp_view(b.1))] =~= seq![(b.0@, exp_view(b.1))]);
    } else {
        assert(bs.push(b).drop_first() =~= bs.drop_first().push(b));
        lemma_binds_view_push(bs.drop_first(), b);
        assert(binds_view(bs.push(b)) =~= binds_view(bs) + seq![(b.0@, exp_view(b.1))]);
    }
}

/// The outcome of a grammar rule: a modelled expression and an end offset,
/// or a failure position and message.
pub enum GOut {
    GGood(ExpV, nat),
    GBad(nat, Seq<char>),
}

/// The offset just past the whitespace at `pos`.
pub open spec fn ws_end(s: Seq<char>, pos: nat) -> nat {
    run_end(space_cl(), s, pos)
}

/// Of two failures, the one further into the input, ties to the second.
pub open spec fn bmerge(a: (nat, Seq<char>), b: (nat, Seq<char>)) -> (nat, Seq<char>) {
    if a.0 > b.0 {
        a
    } else {
        b
    }
}

/// The meaning of `exp`: leading whitespace, one alternative — `let`, `if`,
/// an operator application, an atom, in that order — then trailing
/// whitespace; when every alternative fails, the failure furthest into the
/// input wins, ties to the later alternative, with a last resort of
/// `syntax error` at the expression's start.
pub open spec fn g_exp(s: Seq<char>, pos: nat) -> GOut
    decreases crate::semantics::rem(s, pos), 3nat,
{
    if !(pos <= ws_end(s, pos) <= s.len()) {
        GOut::GBad(pos, Seq::empty())
    } else {
        let p1 = ws_end(s, pos);
        match g_let_exp(s, p1) {
            GOut::GGood(v, e) => GOut::GGood(v, ws_end(s, e)),
            GOut::GBad(q1, m1) => match g_if_exp(s, p1) {
                GOut::GGood(v, e) => GOut::GGood(v, ws_end(s, e)),
                GOut::GBad(q2, m2) => match g_oper_exp(s, p1) {
                    GOut::GGood(v, e) => GOut::GGood(v, ws_end(s, e)),
                    GOut::GBad(q3, m3) => match g_atom(s, p1) {
                        GOut::GGood(v, e) => GOut::GGood(v, ws_end(s, e)),
                        GOut::GBad(q4, m4) => {
                            let w = bmerge(
                                bmerge(bmerge((q1, m1), (q2, m2)), bmerge((q3, m3), (q4, m4))),
                                (p1, "syntax error"@),
                            );
                            GOut::GBad(w.0, w.1)
                        },
                    },
                },
            },
        }
    }
}

/// The meaning of `atom_exp`: the number, boolean and identifier leaves,
/// tried in that order; the failure message is the atom rule's own.
pub open spec fn g_atom(s: Seq<char>, pos: nat) -> GOut {
    match sp_number(s, pos) {
        Step::Good(v, e) => match v {
            Vl::Int(i) => GOut::GGood(ExpV::Atom(AtomV::Int(i)), e),
            _ => GOut::GBad(pos, Seq::empty()),
        },
        Step::Bad(_, _) => match sp_bool(s, pos) {
            Step::Good(v, e) => match v {
                Vl::Bool(b) => GOut::GGood(ExpV::Atom(AtomV::Bool(b)), e),
                _ => GOut::GBad(pos, Seq::empty()),
            },
            Step::Bad(_, _) => match sp_identifier(s, pos) {
                Step::Good(v, e) => match v {
                    Vl::Text(n) => GOut::GGood(ExpV::Atom(AtomV::Var(n)), e),
                    _ => GOut::GBad(pos, Seq::empty()),
                },
                Step::Bad(q, _) => GOut::GBad(q, "atom expression syntax error"@),
            },
        },
    }
}

/// The meaning of `oper_exp`: `(`, an operator character, two
/// subexpressions, `)`.
pub open spec fn g_oper_exp(s: Seq<char>, pos: nat) -> GOut
    decreases crate::semantics::rem(s, pos), 2nat,
{
    if !(pos < s.len() && s[pos as int] == '(') {
        GOut::GBad(pos, "syntax error"@)
    } else if !(pos + 1 <= ws_end(s, (pos + 1) as nat) <= s.len()) {
        GOut::GBad(pos, Seq::empty())
    } else {
        let p2 = ws_end(s, (pos + 1) as nat);
        if !(p2 < s.len() && op_of(s[p2 as int]) is Some) {
            GOut::GBad(p2, "expect operator"@)
        } else {
            match op_of(s[p2 as int]) {
                Some(op) => match g_exp(s, (p2 + 1) as nat) {
                    GOut::GBad(q, m) => GOut::GBad(q, m),
                    GOut::GGood(lv, e1) => if !(p2 + 1 <= e1 <= s.len()) {
                        GOut::GBad(pos, Seq::empty())
                    } else {
                        match g_exp(s, e1) {
                            GOut::GBad(q, m) => GOut::GBad(q, m),
                            GOut::GGood(rv, e2) => if e2 < s.len() && s[e2 as int] == ')' {
                                GOut::GGood(
                                    ExpV::Oper {
                                        oper: op,
                                        lhs: Box::new(lv),
                                        rhs: Box::new(rv),
                                    },
                                    e2 + 1,
                                )
                            } else {
                                GOut::GBad(e2, "syntax error"@)
                            },
                        }
                    },
                },
                None => GOut::GBad(pos, Seq::empty()),
            }
        }
    }
}

/// The meaning of `if_exp`: `(`, the keyword `if`, three subexpressions,
/// `)`.
pub open spec fn g_if_exp(s: Seq<char>, pos: nat) -> GOut
    decreases crate::semantics::rem(s, pos), 2nat,
{
    if !(pos < s.len() && s[pos as int] == '(') {
        GOut::GBad(pos, "syntax error"@)
    } else if !(pos + 1 <= ws_end(s, (pos + 1) as nat) <= s.len()) {
        GOut::GBad(pos, Seq::empty())
    } else {
        let p2 = ws_end(s, (pos + 1) as nat);
        if !lit_at("if"@, s, p2) {
            GOut::GBad(p2, str_expect_msg("if"@))
        } else {
            let p3 = (p2 + "if"@.len()) as nat;
            match g_exp(s, p3) {
                GOut::GBad(q, m) => GOut::GBad(q, m),
                GOut::GGood(pv, e1) => if !(p3 <= e1 <= s.len()) {
                    GOut::GBad(pos, Seq::empty())
                } else {
                    match g_exp(s, e1) {
                        GOut::GBad(q, m) => GOut::GBad(q, m),
                        GOut::GGood(tv, e2) => if !(e1 <= e2 <= s.len()) {
                            GOut::GBad(pos, Seq::empty())
                        } else {
                            match g_exp(s, e2) {
                                GOut::GBad(q, m) => GOut::GBad(q, m),
                                GOut::GGood(ov, e3) => if e3 < s.len() && s[e3 as int] == ')' {
                                    GOut::GGood(
                                        ExpV::If {
                                            pred: Box::new(pv),
                                            then: Box::new(tv),
                                            or_else: Box::new(ov),
                                        },
                                        e3 + 1,
                                    )
                                } else {
                                    GOut::GBad(e3, "syntax error"@)
                                },
                            }
                        },
                    }
                },
            }
        }
    }
}

/// The meaning of `binding`: whitespace, `(`, whitespace, an identifier,
/// a subexpression, `)`; nothing of a failure is kept but the fact.
pub open spec fn g_binding(s: Seq<char>, pos: nat) -> Option<((Seq<char>, ExpV), nat)>
    decreases crate::semantics::rem(s, pos), 0nat,
{
    if !(pos <= ws_end(s, pos) <= s.len()) {
        None
    } else {
        let p0 = ws_end(s, pos);
        if !(p0 < s.len() && s[p0 as int] == '(') {
            None
        } else if !(p0 + 1 <= ws_end(s, (p0 + 1) as nat) <= s.len()) {
            None
        } else {
            let p2 = ws_end(s, (p0 + 1) as nat);
            match sp_identifier(s, p2) {
                Step::Bad(_, _) => None,
                Step::Good(v, p3) => match v {
                    Vl::Text(n) => if !(pos < p3 <= s.len()) {
                        None
                    } else {
                        match g_exp(s, p3) {
                            GOut::GBad(_, _) => None,
                            GOut::GGood(bv, p4) => if p4 < s.len() && s[p4 as int] == ')' {
                                Some(((n, bv), (p4 + 1) as nat))
                            } else {
                                None
                            },
                        }
                    },
                    _ => None,
                },
            }
        }
    }
}

/// The meaning of the binding run of a `let`: bindings while they parse,
/// ending where the first round fails.
pub open spec fn g_binds(s: Seq<char>, pos: nat) -> (Seq<(Seq<char>, ExpV)>, nat)
    decreases crate::semantics::rem(s, pos), 1nat,
{
    match g_binding(s, pos) {
        None => (Seq::empty(), pos),
        Some((b, e)) => if pos < e <= s.len() {
            let r = g_binds(s, e);
            (seq![b] + r.0, r.1)
        } else {
            (Seq::empty(), pos)
        },
    }
}

/// The meaning of `let_exp`: `(`, the keyword `let`, a run of bindings, a
/// body, `)`.
pub open spec fn g_let_exp(s: Seq<char>, pos: nat) -> GOut
    decreases crate::semantics::rem(s, pos), 2nat,
{
    if !(pos < s.len() && s[pos as int] == '(') {
        GOut::GBad(pos, "syntax error"@)
    } else if !(pos + 1 <= ws_end(s, (pos + 1) as nat) <= s.len()) {
        GOut::GBad(pos, Seq::empty())
    } else {
        let p2 = ws_end(s, (pos + 1) as nat);
        if !lit_at("let"@, s, p2) {
            GOut::GBad(p2, str_expect_msg("let"@))
        } else {
            let p3 = (p2 + "let"@.len()) as nat;
            if !(pos < p3 <= s.len()) {
                GOut::GBad(pos, Seq::empty())
            } else {
                let bn = g_binds(s, p3);
                if !(p3 <= bn.1 <= s.len()) {
                    GOut::GBad(pos, Seq::empty())
                } else {
                    match g_exp(s, bn.1) {
                        GOut::GBad(q, m) => GOut::GBad(q, m),
                        GOut::GGood(bv, e1) => if e1 < s.len() && s[e1 as int] == ')' {
                            GOut::GGood(
                                ExpV::Let { bindings: bn.0, body: Box::new(bv) },
                                e1 + 1,
                            )
                        } else {
                            GOut::GBad(e1, "syntax error"@)
                        },
                    }
                }
            }
        }
    }
}

// ===== grammar =====

/// Skip whitespace: the offset moves exactly past the whitespace run.
#[verifier::loop_isolation(false)]
fn skip_ws(input: &Vec<char>, pos: usize) -> (e: usize)
    requires
        pos <= input.len(),
    ensures
        pos <= e <= input.len(),
        e as nat == run_end(space_cl(), input@, pos as nat),
{
    let mut cur = pos;
    while cur < input.len() && crate::parser::space_char(input[cur])
        invariant
            pos <= cur <= input.len(),
            run_end(space_cl(), input@, pos as nat) == run_end(space_cl(), input@, cur as nat),
        decreases input.len() - cur,
    {
        cur = cur + 1;
    }
    cur
}

/// Consume exactly the character `c`, or fail where it was expected.
fn expect_char(input: &Vec<char>, pos: usize, c: char) -> (r: Result<usize, crate::result::Error>)
    requires
        pos <= input.len(),
    ensures
        match r {
            Ok(e) => pos < input@.len() && input@[pos as int] == c && e == pos + 1 && e
                <= input.len(),
            Err(er) => !(pos < input@.len() && input@[pos as int] == c) && er.pos == pos
                && er.msg@ == "syntax error"@,
        },
{
    if pos < input.len() && input[pos] == c {
        Ok(pos + 1)
    } else {
        Err(crate::result::Error::new(pos, text("syntax error")))
    }
}

/// Consume exactly the keyword `kw`, or fail where it began.
fn expect_word(input: &Vec<char>, pos: usize, kw: &str) -> (r: Result<usize, crate::result::Error>)
    requires
        pos <= input.len(),
    ensures
        match r {
            Ok(e) => lit_at(kw@, input@, pos as nat) && e as nat == pos + kw@.len() && e
                <= input.len(),
            Err(er) => !lit_at(kw@, input@, pos as nat) && er.pos == pos && er.msg@
                == str_expect_msg(kw@),
        },
{
    let w = crate::consumers::string(kw);
    match parse_core(&w, input, pos) {
        Ok((_, e)) => Ok(e),
        Err(er) => Err(er),
    }
}

/// Of two failures, keep the one further into the input, ties favouring
/// the second: the engine's furthest-failure rule.
fn merge_err(a: crate::result::Error, b: crate::result::Error) -> (r: crate::result::Error)
    ensures
        r == if a.pos > b.pos {
            a
        } else {
            b
        },
{
    if a.pos > b.pos {
        a
    } else {
        b
    }
}

/// Parse one expression, with surrounding whitespace: exactly what the
/// grammar's model `g_exp` says.
pub fn exp(input: &Vec<char>, pos: usize) -> (r: Result<(Expression, usize), crate::result::Error>)
    requires
        pos <= input.len(),
    ensures
        match r {
            Ok(pr) => g_exp(input@, pos as nat) == GOut::GGood(exp_view(pr.0), pr.1 as nat) && pos
                <= pr.1 <= input.len(),
            Err(er) => g_exp(input@, pos as nat) == GOut::GBad(er.pos as nat, er.msg@) && er.pos
                <= input.len(),
        },
    decreases input.len() - pos, 1int,
{
    let p1 = skip_ws(input, pos);
    let inner = match let_exp(input, p1) {
        Ok(pr) => Ok(pr),
        Err(e1) => match if_exp(input, p1) {
            Ok(pr) => Ok(pr),
            Err(e2) => match oper_exp(input, p1) {
                Ok(pr) => Ok(pr),
                Err(e3) => match atom_exp(input, p1) {
                    Ok(pr) => Ok(pr),
                    Err(e4) => Err(merge_err(
                        merge_err(merge_err(e1, e2), merge_err(e3, e4)),
                        crate::result::Error::new(p1, text("syntax error")),
                    )),
                },
            },
        },
    };
    match inner {
        Ok((x, e)) => Ok((x, skip_ws(input, e))),
        Err(er) => Err(er),
    }
}

/// Parse an atom: a number, a boolean, or a variable, tried in that
/// order: exactly what the grammar's model `g_atom` says.
pub fn atom_exp(input: &Vec<char>, pos: usize) -> (r: Result<
    (Expression, usize),
    crate::result::Error,
>)
    requires
        pos <= input.len(),
    ensures
        match r {
            Ok(pr) => g_atom(input@, pos as nat) == GOut::GGood(exp_view(pr.0), pr.1 as nat)
                && pos <= pr.1 <= input.len(),
            Err(er) => g_atom(input@, pos as nat) == GOut::GBad(er.pos as nat, er.msg@) && er.pos
                <= input.len(),
        },
{
    let n = number();
    match parse_core(&n, input, pos) {
        Ok((v, e)) => {
            match v {
                Value::Int(i) => {
                    return Ok((Expression::Atom(Atom::Int(i)), e));
                },
                _ => {
                    proof {
                        assert(vl_of(v) is Int);
                    }
                    return vstd::pervasive::unreached();
                },
            }
        },
        Err(_) => {},
    }
    let b = bool();
    match parse_core(&b, input, pos) {
        Ok((v, e)) => {
            match v {
                Value::Bool(w) => {
                    return Ok((Expression::Atom(Atom::Bool(w)), e));
                },
                _ => {
                    proof {
                        assert(vl_of(v) is Bool);
                    }
                    return vstd::pervasive::unreached();
                },
            }
        },
        Err(_) => {},
    }
    let idp = identifier();
    match parse_core(&idp, input, pos) {
        Ok((v, e)) => {
            match v {
                Value::Text(name) => Ok((Expression::Atom(Atom::Var(name)), e)),
                _ => {
                    proof {
                        assert(vl_of(v) is Text);
                    }
                    vstd::pervasive::unreached()
                },
            }
        },
        Err(er) => Err(crate::result::Error::new(er.pos, text("atom expression syntax error"))),
    }
}

/// The operator denoted by one character, if any.
pub open spec fn op_of(c: char) -> Option<Operator> {
    match c {
        '+' => Some(Operator::Add),
        '-' => Some(Operator::Subtract),
        '*' => Some(Operator::Multiply),
        '/' => Some(Operator::Divide),
        '=' => Some(Operator::Eq),
        '<' => Some(Operator::Lt),
        '>' => Some(Operator::Gt),
        _ => None,
    }
}

/// Parse an operator symbol: one character, by `op_of`.
pub fn oper(input: &Vec<char>, pos: usize) -> (r: Result<(Operator, usize), crate::result::Error>)
    requires
        pos <= input.len(),
    ensures
        match r {
            Ok(pr) => pos < input@.len() && op_of(input@[pos as int]) == Some(pr.0) && pr.1 == pos
                + 1,
            Err(er) => (pos == input@.len() || op_of(input@[pos as int]) is None) && er.pos == pos
                && er.msg@ == "expect operator"@,
        },
{
    if pos < input.len() {
        let op = match input[pos] {
            '+' => Some(Operator::Add),
            '-' => Some(Operator::Subtract),
            '*' => Some(Operator::Multiply),
            '/' => Some(Operator::Divide),
            '=' => Some(Operator::Eq),
            '<' => Some(Operator::Lt),
            '>' => Some(Operator::Gt),
            _ => None,
        };
        match op {
            Some(o) => Ok((o, pos + 1)),
            None => Err(crate::result::Error::new(pos, text("expect operator"))),
        }
    } else {
        Err(crate::result::Error::new(pos, text("expect operator")))
    }
}

/// Parse `( <oper> <exp> <exp> )`: exactly what the grammar's model
/// `g_oper_exp` says.
pub fn oper_exp(input: &Vec<char>, pos: usize) -> (r: Result<
    (Expression, usize),
    crate::result::Error,
>)
    requires
        pos <= input.len(),
    ensures
        match r {
            Ok(pr) => g_oper_exp(input@, pos as nat) == GOut::GGood(exp_view(pr.0), pr.1 as nat)
                && pos <= pr.1 <= input.len(),
            Err(er) => g_oper_exp(input@, pos as nat) == GOut::GBad(er.pos as nat, er.msg@)
                && er.pos <= input.len(),
        },
    decreases input.len() - pos, 0int,
{
    let p1 = expect_char(input, pos, '(')?;
    let p2 = skip_ws(input, p1);
    let (op, p3) = oper(input, p2)?;
    let (lhs, p4) = exp(input, p3)?;
    let (rhs, p5) = exp(input, p4)?;
    let p6 = expect_char(input, p5, ')')?;
    Ok((Expression::Oper { oper: op, lhs: Box::new(lhs), rhs: Box::new(rhs) }, p6))
}

/// Parse `( if <exp> <exp> <exp> )`: exactly what the grammar's model
/// `g_if_exp` says.
pub fn if_exp(input: &Vec<char>, pos: usize) -> (r: Result<
    (Expression, usize),
    crate::result::Error,
>)
    requires
        pos <= input.len(),
    ensures
        match r {
            Ok(pr) => g_if_exp(input@, pos as nat) == GOut::GGood(exp_view(pr.0), pr.1 as nat)
                && pos <= pr.1 <= input.len(),
            Err(er) => g_if_exp(input@, pos as nat) == GOut::GBad(er.pos as nat, er.msg@)
                && er.pos <= input.len(),
        },
    decreases input.len() - pos, 0int,
{
    let p1 = expect_char(input, pos, '(')?;
    let p2 = skip_ws(input, p1);
    let p3 = expect_word(input, p2, "if")?;
    let (pred, p4) = exp(input, p3)?;
    let (then, p5) = exp(input, p4)?;
    let (or_else, p6) = exp(input, p5)?;
    let p7 = expect_char(input, p6, ')')?;
    Ok((
        Expression::If { pred: Box::new(pred), then: Box::new(then), or_else: Box::new(or_else) },
        p7,
    ))
}

/// Parse `( <identifier> <exp> )`, one binding of a `let`: exactly what
/// the grammar's model `g_binding` says, down to the fact of failure.
pub fn binding(input: &Vec<char>, pos: usize) -> (r: Result<
    ((Vec<char>, Expression), usize),
    crate::result::Error,
>)
    requires
        pos <= input.len(),
    ensures
        match r {
            Ok(pr) => g_binding(input@, pos as nat) == Some(
                ((pr.0.0@, exp_view(pr.0.1)), pr.1 as nat),
            ) && pos < pr.1 <= input.len(),
            Err(er) => g_binding(input@, pos as nat) is None && er.pos <= input.len(),
        },
    decreases input.len() - pos, 0int,
{
    let p0 = skip_ws(input, pos);
    let p1 = expect_char(input, p0, '(')?;
    let p2 = skip_ws(input, p1);
    let idp = identifier();
    let (name, p3) = match parse_core(&idp, input, p2) {
        Ok((Value::Text(name), e)) => (name, e),
        Ok((_, _)) => {
            return Err(crate::result::Error::new(p2, text("expect binding")));
        },
        Err(er) => {
            return Err(crate::result::Error::new(
                if er.pos <= input.len() {
                    er.pos
                } else {
                    p2
                },
                text("expect binding"),
            ));
        },
    };
    let (value, p4) = exp(input, p3)?;
    let p5 = expect_char(input, p4, ')')?;
    Ok(((name, value), p5))
}

/// Parse `( let <binding>* <exp> )`: exactly what the grammar's model
/// `g_let_exp` says.
#[verifier::loop_isolation(false)]
pub fn let_exp(input: &Vec<char>, pos: usize) -> (r: Result<
    (Expression, usize),
    crate::result::Error,
>)
    requires
        pos <= input.len(),
    ensures
        match r {
            Ok(pr) => g_let_exp(input@, pos as nat) == GOut::GGood(exp_view(pr.0), pr.1 as nat)
                && pos <= pr.1 <= input.len(),
            Err(er) => g_let_exp(input@, pos as nat) == GOut::GBad(er.pos as nat, er.msg@)
                && er.pos <= input.len(),
        },
    decreases input.len() - pos, 0int,
{
    let p1 = expect_char(input, pos, '(')?;
    let p2 = skip_ws(input, p1);
    let p3 = expect_word(input, p2, "let")?;
    let mut bindings: Vec<(Vec<char>, Expression)> = Vec::new();
    let mut cur = p3;
    proof {
        assert(binds_view(bindings@) + g_binds(input@, p3 as nat).0 =~= g_binds(
            input@,
            p3 as nat,
        ).0);
    }
    loop
        invariant
            pos < cur <= input.len(),
            p3 <= cur,
            g_binds(input@, p3 as nat).0 =~= binds_view(bindings@) + g_binds(
                input@,
                cur as nat,
            ).0,
            g_binds(input@, p3 as nat).1 == g_binds(input@, cur as nat).1,
        decreases input.len() - cur,
    {
        let ghost bs0 = bindings@;
        match binding(input, cur) {
            Ok((b, e)) => {
                proof {
                    lemma_binds_view_push(bs0, b);
                    assert(binds_view(bs0) + (seq![(b.0@, exp_view(b.1))] + g_binds(
                        input@,
                        e as nat,
                    ).0) =~= binds_view(bs0.push(b)) + g_binds(input@, e as nat).0);
                }
                bindings.push(b);
                cur = e;
            },
            Err(_) => {
                proof {
                    assert(g_binds(input@, cur as nat).0 =~= Seq::<(Seq<char>, ExpV)>::empty());
                    assert(binds_view(bindings@) + Seq::<(Seq<char>, ExpV)>::empty()
                        =~= binds_view(bindings@));
                }
                let (body, p4) = exp(input, cur)?;
                let p5 = expect_char(input, p4, ')')?;
                return Ok((Expression::Let { bindings, body: Box::new(body) }, p5));
            },
        }
    }
}

/// Parse a whole expression from the start of the input: the grammar's
/// model applied at offset zero, the end offset dropped.
pub fn parse(input: &Vec<char>) -> (r: Result<Expression, crate::result::Error>)
    ensures
        match r {
            Ok(x) => g_exp(input@, 0) matches GOut::GGood(ev, e) && ev == exp_view(x),
            Err(er) => g_exp(input@, 0) == GOut::GBad(er.pos as nat, er.msg@) && er.pos
                <= input.len(),
        },
{
    match exp(input, 0) {
        Ok((x, _)) => Ok(x),
        Err(er) => Err(er),
    }
}

// ===== evaluation =====

/// The environments contracts speak of: each binding as its name's
/// characters and its value, oldest first.
pub open spec fn env_view(env: Seq<(Vec<char>, Val)>) -> Seq<(Seq<char>, Val)> {
    Seq::new(env.len(), |i: int| (env[i].0@, env[i].1))
}

/// The value bound to `n`, under shadowing: the latest binding wins.
pub open spec fn lookup_spec(env: Seq<(Seq<char>, Val)>, n: Seq<char>) -> Option<Val>
    decreases env.len(),
{
    if env.len() == 0 {
        None
    } else if env.last().0 == n {
        Some(env.last().1)
    } else {
        lookup_spec(env.drop_last(), n)
    }
}

/// The meaning of a leaf: constants are themselves; a variable is what the
/// environment binds it to, or the unbound-identifier fault.
pub open spec fn atom_spec(a: Atom, env: Seq<(Seq<char>, Val)>) -> Result<Val, Error> {
    match a {
        Atom::Int(i) => Ok(Val::Int(i)),
        Atom::Bool(b) => Ok(Val::Bool(b)),
        Atom::Var(n) => match lookup_spec(env, n@) {
            Some(v) => Ok(v),
            None => Err(Error::UnboundIdentifier),
        },
    }
}

/// The meaning of one operator application: arithmetic wraps on overflow,
/// division truncates toward zero, rejects a zero divisor, and maps the
/// one overflowing quotient to the smallest integer; comparisons give
/// booleans; any non-integer operand is a type mismatch.
pub open spec fn oper_spec(op: Operator, lhs: Val, rhs: Val) -> Result<Val, Error> {
    match (lhs, rhs) {
        (Val::Int(a), Val::Int(b)) => match op {
            Operator::Add => Ok(Val::Int(a.wrapping_add(b))),
            Operator::Subtract => Ok(Val::Int(a.wrapping_sub(b))),
            Operator::Multiply => Ok(Val::Int(a.wrapping_mul(b))),
            Operator::Divide => if b == 0 {
                Err(Error::DivisionByZero)
            } else {
                match a.checked_div(b) {
                    Some(q) => Ok(Val::Int(q)),
                    None => Ok(Val::Int(i64::MIN)),
                }
            },
            Operator::Eq => Ok(Val::Bool(a == b)),
            Operator::Lt => Ok(Val::Bool(a < b)),
            Operator::Gt => Ok(Val::Bool(a > b)),
        },
        _ => Err(Error::TypeMismatch),
    }
}

/// The meaning of an expression under an environment, call by value: an
/// operator evaluates its left then right operand; an `if` evaluates its
/// condition and then only the chosen branch, so the untaken branch can
/// contribute no fault; a `let` evaluates its bindings in order, each
/// seeing those before it, then its body under the extended environment.
pub open spec fn eval_spec(e: Expression, env: Seq<(Seq<char>, Val)>) -> Result<Val, Error>
    decreases e,
{
    match e {
        Expression::Atom(a) => atom_spec(a, env),
        Expression::Oper { oper, lhs, rhs } => match eval_spec(*lhs, env) {
            Err(er) => Err(er),
            Ok(lv) => match eval_spec(*rhs, env) {
                Err(er) => Err(er),
                Ok(rv) => oper_spec(oper, lv, rv),
            },
        },
        Expression::If { pred, then, or_else } => match eval_spec(*pred, env) {
            Err(er) => Err(er),
            Ok(pv) => match pv {
                Val::Bool(true) => eval_spec(*then, env),
                Val::Bool(false) => eval_spec(*or_else, env),
                Val::Int(_) => Err(Error::TypeMismatch),
            },
        },
        Expression::Let { bindings, body } => match eval_binds(bindings@, env) {
            Err(er) => Err(er),
            Ok(env2) => eval_spec(*body, env2),
        },
    }
}

/// Evaluate a run of bindings in order, each seeing the ones before it;
/// the environment they extend is returned, or the first fault.
pub open spec fn eval_binds(
    bs: Seq<(Vec<char>, Expression)>,
    env: Seq<(Seq<char>, Val)>,
) -> Result<Seq<(Seq<char>, Val)>, Error>
    decreases bs,
{
    if bs.len() == 0 {
        Ok(env)
    } else {
        match eval_spec(bs[0].1, env) {
            Err(er) => Err(er),
            Ok(v) => eval_binds(bs.drop_first(), env.push((bs[0].0@, v))),
        }
    }
}

/// Two character names are the same.
fn names_eq(a: &Vec<char>, b: &Vec<char>) -> (r: bool)
    ensures
        r == (a@ == b@),
{
    if a.len() != b.len() {
        proof {
            assert(a@ != b@);
        }
        return false;
    }
    let mut i: usize = 0;
    while i < a.len()
        invariant
            i <= a.len(),
            a@.len() == b@.len(),
            forall|j: int| 0 <= j < i ==> a@[j] == b@[j],
        decreases a.len() - i,
    {
        if a[i] != b[i] {
            return false;
        }
        i = i + 1;
    }
    proof {
        assert(a@ =~= b@);
    }
    true
}

/// The value bound to `name`, under shadowing: the latest binding wins.
#[verifier::loop_isolation(false)]
fn lookup(env: &Vec<(Vec<char>, Val)>, name: &Vec<char>) -> (r: Option<Val>)
    ensures
        r == lookup_spec(env_view(env@), name@),
{
    let ghost ev = env_view(env@);
    proof {
        assert(ev.subrange(0, env@.len() as int) =~= ev);
    }
    let mut i: usize = env.len();
    while i > 0
        invariant
            i <= env.len(),
            lookup_spec(ev, name@) == lookup_spec(ev.subrange(0, i as int), name@),
        decreases i,
    {
        i = i - 1;
        proof {
            assert(ev.subrange(0, i as int + 1).last() == ev[i as int]);
            assert(ev[i as int] == (env@[i as int].0@, env@[i as int].1));
            assert(ev.subrange(0, i as int + 1).drop_last() =~= ev.subrange(0, i as int));
        }
        if names_eq(&env[i].0, name) {
            return Some(env[i].1);
        }
    }
    proof {
        assert(ev.subrange(0, 0).len() == 0);
    }
    None
}

/// Apply an operator to two evaluated operands, exactly as `oper_spec`
/// says: arithmetic wraps on overflow; division truncates toward zero and
/// rejects a zero divisor.
pub fn eval_oper(operator: &Operator, lhs: Val, rhs: Val) -> (r: Result<Val, Error>)
    ensures
        r == oper_spec(*operator, lhs, rhs),
{
    match (lhs, rhs) {
        (Val::Int(a), Val::Int(b)) => match operator {
            Operator::Add => Ok(Val::Int(a.wrapping_add(b))),
            Operator::Subtract => Ok(Val::Int(a.wrapping_sub(b))),
            Operator::Multiply => Ok(Val::Int(a.wrapping_mul(b))),
            Operator::Divide => {
                if b == 0 {
                    Err(Error::DivisionByZero)
                } else {
                    match a.checked_div(b) {
                        Some(q) => Ok(Val::Int(q)),
                        None => Ok(Val::Int(i64::MIN)),
                    }
                }
            },
            Operator::Eq => Ok(Val::Bool(a == b)),
            Operator::Lt => Ok(Val::Bool(a < b)),
            Operator::Gt => Ok(Val::Bool(a > b)),
        },
        _ => Err(Error::TypeMismatch),
    }
}

/// Evaluate a leaf, exactly as `atom_spec` says: a constant is itself; a
/// variable is what the environment binds it to — the latest binding of
/// its name — or an unbound-identifier fault.
pub fn eval_atom(atom: &Atom, env: &Vec<(Vec<char>, Val)>) -> (r: Result<Val, Error>)
    ensures
        r == atom_spec(*atom, env_view(env@)),
{
    match atom {
        Atom::Int(i) => Ok(Val::Int(*i)),
        Atom::Bool(b) => Ok(Val::Bool(*b)),
        Atom::Var(name) => match lookup(env, name) {
            Some(v) => Ok(v),
            None => Err(Error::UnboundIdentifier),
        },
    }
}

impl Expression {
    /// Evaluate under an environment, exactly as `eval_spec` says: call by
    /// value; a `let` evaluates each binding in turn, each seeing the ones
    /// before it, then its body; an `if` evaluates only the chosen branch.
    #[verifier::loop_isolation(false)]
    #[verifier::rlimit(100)]
    pub fn eval(&self, env: &Vec<(Vec<char>, Val)>) -> (r: Result<Val, Error>)
        ensures
            r == eval_spec(*self, env_view(env@)),
        decreases self,
    {
        match self {
            Expression::Atom(atom) => eval_atom(atom, env),
            Expression::Oper { oper, lhs, rhs } => {
                let lv = lhs.eval(env)?;
                let rv = rhs.eval(env)?;
                eval_oper(oper, lv, rv)
            },
            Expression::If { pred, then, or_else } => {
                match pred.eval(env)? {
                    Val::Bool(true) => then.eval(env),
                    Val::Bool(false) => or_else.eval(env),
                    Val::Int(_) => Err(Error::TypeMismatch),
                }
            },
            Expression::Let { bindings, body } => {
                let ghost ev0 = env_view(env@);
                let mut env2: Vec<(Vec<char>, Val)> = Vec::new();
                let mut i: usize = 0;
                while i < env.len()
                    invariant
                        i <= env.len(),
                        env2@.len() == i as int,
                        forall|k: int|
                            0 <= k < i ==> #[trigger] env2@[k].0@ == env@[k].0@ && env2@[k].1
                                == env@[k].1,
                    decreases env.len() - i,
                {
                    env2.push((copy_chars(&env[i].0), env[i].1));
                    i = i + 1;
                }
                proof {
                    assert(env_view(env2@) =~= ev0);
                    assert(bindings@.subrange(0, bindings@.len() as int) =~= bindings@);
                }
                let mut j: usize = 0;
                while j < bindings.len()
                    invariant
                        j <= bindings.len(),
                        eval_binds(bindings@, ev0) == eval_binds(
                            bindings@.subrange(j as int, bindings@.len() as int),
                            env_view(env2@),
                        ),
                    decreases bindings.len() - j,
                {
                    proof {
                        vstd::std_specs::vec::axiom_vec_index_decreases(*bindings, j as int);
                        assert(decreases_to!(*self => bindings@[j as int]));
                        assert(bindings@.subrange(j as int, bindings@.len() as int)[0]
                            == bindings@[j as int]);
                    }
                    let ghost ev2 = env_view(env2@);
                    let bv = match bindings[j].1.eval(&env2) {
                        Ok(v) => v,
                        Err(e) => {
                            return Err(e);
                        },
                    };
                    env2.push((copy_chars(&bindings[j].0), bv));
                    j = j + 1;
                    proof {
                        assert(env_view(env2@) =~= ev2.push((bindings@[j - 1].0@, bv)));
                        assert(bindings@.subrange(j - 1, bindings@.len() as int).drop_first()
                            =~= bindings@.subrange(j as int, bindings@.len() as int));
                    }
                }
                proof {
                    assert(bindings@.subrange(
                        bindings@.len() as int,
                        bindings@.len() as int,
                    ).len() == 0);
                }
                body.eval(&env2)
            },
        }
    }
}

/// Evaluate a parsed expression under the empty environment.
pub fn eval(exp: Expression) -> (r: Result<Val, Error>)
    ensures
        r == eval_spec(exp, Seq::empty()),
{
    proof {
        assert(env_view(Seq::<(Vec<char>, Val)>::empty()) =~= Seq::<(Seq<char>, Val)>::empty());
    }
    exp.eval(&Vec::new())
}

/// An evaluation fault is never a parse failure: only the grammar makes
/// those.
pub proof fn lemma_eval_faults(e: Expression, env: Seq<(Seq<char>, Val)>)
    ensures
        eval_spec(e, env) matches Err(x) ==> !(x is Parser),
    decreases e, 1int,
{
    match e {
        Expression::Atom(_) => {},
        Expression::Oper { oper, lhs, rhs } => {
            lemma_eval_faults(*lhs, env);
            lemma_eval_faults(*rhs, env);
        },
        Expression::If { pred, then, or_else } => {
            lemma_eval_faults(*pred, env);
            lemma_eval_faults(*then, env);
            lemma_eval_faults(*or_else, env);
        },
        Expression::Let { bindings, body } => {
            lemma_binds_faults(bindings@, env);
            match eval_binds(bindings@, env) {
                Err(_) => {},
                Ok(env2) => {
                    lemma_eval_faults(*body, env2);
                },
            }
        },
    }
}

/// As `lemma_eval_faults`, for a run of bindings.
proof fn lemma_binds_faults(bs: Seq<(Vec<char>, Expression)>, env: Seq<(Seq<char>, Val)>)
    ensures
        eval_binds(bs, env) matches Err(x) ==> !(x is Parser),
    decreases bs, 0int,
{
    if bs.len() > 0 {
        lemma_eval_faults(bs[0].1, env);
        match eval_spec(bs[0].1, env) {
            Err(_) => {},
            Ok(v) => {
                lemma_binds_faults(bs.drop_first(), env.push((bs[0].0@, v)));
            },
        }
    }
}

/// Parse and evaluate one expression: the language's entry point. Where
/// the grammar's model rejects the input, the result is exactly that
/// failure; where it accepts, the result is exactly the evaluation, under
/// the empty environment, of an expression with the accepted model.
pub fn run(input: &str) -> (r: Result<Val, Error>)
    ensures
        g_exp(input@, 0) is GBad ==> r is Err && r->Err_0 is Parser && r->Err_0->Parser_0.pos
            as nat == g_exp(input@, 0)->GBad_0 && r->Err_0->Parser_0.msg@ == g_exp(
            input@,
            0,
        )->GBad_1 && g_exp(input@, 0)->GBad_0 <= input@.len(),
        g_exp(input@, 0) is GGood ==> exists|x: Expression|
            #[trigger] exp_view(x) == g_exp(input@, 0)->GGood_0 && r == eval_spec(
                x,
                Seq::empty(),
            ),
        r is Err && r->Err_0 is Parser ==> r->Err_0->Parser_0.pos <= input@.len(),
{
    let chars = text(input);
    match parse(&chars) {
        Ok(x) => {
            proof {
                lemma_eval_faults(x, Seq::empty());
            }
            let r = eval(x);
            proof {
                assert(exp_view(x) == g_exp(input@, 0)->GGood_0);
            }
            r
        },
        Err(er) => Err(Error::Parser(er)),
    }
}

} // verus!
