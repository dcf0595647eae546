//! The executable interpreter, proved to agree with the spec interpreter.
//!
//! `parse_core` is purely functional over the input and an offset: it
//! mutates nothing, so a combinator boundary rolls back for free — the
//! offset only moves when an enclosing call commits it. `Parser::parse`
//! and `Context::parse_by` commit the new offset on success and leave the
//! read head untouched on failure.

use vstd::prelude::*;

use crate::context::Context;
use crate::parser::{
    all_chars, chain_apply, chain_msg, chars_text, digit_val, digits_ok, digits_val, height,
    mf_apply, pred_holds, ChainFn, MapFn, Parser,
};
use crate::result::{text, Error};
use crate::semantics::{rem, sp, sp_rep, sp_sep, sp_till, str_expect_msg, Step};
use crate::value::{copy_chars, lemma_vl_seq_len, lemma_vl_seq_push, vl_of, vl_seq, Value, Vl};

verus! {

broadcast use crate::value::vl_of_char;

/// Apply a map transform to a value.
fn apply_map(f: &MapFn, v: Value) -> (r: Value)
    ensures
        vl_of(r) == mf_apply(*f, vl_of(v)),
{
    match f {
        MapFn::CollectText => collect_text(v),
        MapFn::JoinCharText => join_char_text(v),
        MapFn::ConstBool(b) => Value::Bool(*b),
    }
}

/// Collapse a list of characters into a text; leave any other shape as is.
#[verifier::loop_isolation(false)]
fn collect_text(v: Value) -> (r: Value)
    ensures
        vl_of(r) == mf_apply(MapFn::CollectText, vl_of(v)),
{
    match v {
        Value::List(vs) => {
            proof {
                lemma_vl_seq_len(vs@);
            }
            let mut out: Vec<char> = Vec::new();
            let mut i: usize = 0;
            while i < vs.len()
                invariant
                    i <= vs.len(),
                    out@.len() == i as int,
                    forall|j: int| 0 <= j < i ==> vl_seq(vs@)[j] is Char,
                    forall|j: int| 0 <= j < i ==> out@[j] == vl_seq(vs@)[j]->Char_0,
                decreases vs.len() - i,
            {
                match &vs[i] {
                    Value::Char(c) => {
                        out.push(*c);
                    },
                    _ => {
                        proof {
                            assert(!(vl_of(vs@[i as int]) is Char));
                            assert(vl_seq(vs@)[i as int] == vl_of(vs@[i as int]));
                            assert(!all_chars(vl_seq(vs@)));
                        }
                        return Value::List(vs);
                    },
                }
                i = i + 1;
            }
            proof {
                assert(all_chars(vl_seq(vs@)));
                assert(out@ =~= chars_text(vl_seq(vs@)));
            }
            Value::Text(out)
        },
        other => other,
    }
}

/// Join a pair of a character and a text, character first; leave any other
/// shape as is.
fn join_char_text(v: Value) -> (r: Value)
    ensures
        vl_of(r) == mf_apply(MapFn::JoinCharText, vl_of(v)),
{
    match v {
        Value::Pair(a, b) => {
            let ghost va = vl_of(*a);
            let ghost vb = vl_of(*b);
            proof {
                assert(vl_of(v) == Vl::Pair(Box::new(va), Box::new(vb)));
            }
            match (*a, *b) {
            (Value::Char(c), Value::Text(t)) => {
                let mut out: Vec<char> = Vec::new();
                out.push(c);
                let mut i: usize = 0;
                while i < t.len()
                    invariant
                        i <= t.len(),
                        out@ =~= seq![c] + t@.subrange(0, i as int),
                    decreases t.len() - i,
                {
                    out.push(t[i]);
                    i = i + 1;
                }
                proof {
                    assert(t@.subrange(0, t@.len() as int) =~= t@);
                }
                Value::Text(out)
            },
            (a2, b2) => {
                proof {
                    assert(vl_of(a2) == va);
                    assert(vl_of(b2) == vb);
                }
                Value::Pair(Box::new(a2), Box::new(b2))
            },
            }
        },
        other => other,
    }
}

/// The value of a digit prefix grows with the prefix.
proof fn lemma_digits_prefix(t: Seq<char>, i: int)
    requires
        0 <= i <= t.len(),
        forall|j: int| 0 <= j < t.len() ==> is_digit_spec(#[trigger] t[j]),
    ensures
        digits_val(t.subrange(0, i)) <= digits_val(t),
        digits_val(t) >= 0,
    decreases t.len() - i,
{
    if i == t.len() {
        assert(t.subrange(0, i) =~= t);
        lemma_digits_nonneg(t.subrange(0, i));
    } else {
        lemma_digits_prefix(t, i + 1);
        lemma_digits_nonneg(t.subrange(0, i));
        let a = t.subrange(0, i);
        let b = t.subrange(0, i + 1);
        assert(b.drop_last() =~= a);
        assert(digits_val(b) == digits_val(a) * 10 + digit_val(b.last()));
        assert(digits_val(a) * 10 >= digits_val(a)) by (nonlinear_arith)
            requires
                digits_val(a) >= 0,
        ;
        assert(digit_val(b.last()) >= 0);
    }
}

/// An ASCII digit, as used by `lemma_digits_prefix`'s trigger.
pub open spec fn is_digit_spec(c: char) -> bool {
    crate::parser::is_digit_ch(c)
}

/// A digit text's value is never negative.
proof fn lemma_digits_nonneg(t: Seq<char>)
    requires
        forall|j: int| 0 <= j < t.len() ==> is_digit_spec(#[trigger] t[j]),
    ensures
        digits_val(t) >= 0,
    decreases t.len(),
{
    if t.len() > 0 {
        assert(forall|j: int|
            0 <= j < t.drop_last().len() ==> is_digit_spec(#[trigger] t.drop_last()[j]));
        lemma_digits_nonneg(t.drop_last());
        let a = t.drop_last();
        assert(digits_val(a) * 10 >= 0) by (nonlinear_arith)
            requires
                digits_val(a) >= 0,
        ;
    }
}

/// Apply a fallible transform: the new value, or nothing when rejected.
#[verifier::loop_isolation(false)]
fn apply_chain(f: &ChainFn, v: Value) -> (r: Option<Value>)
    ensures
        match r {
            Some(v2) => chain_apply(*f, vl_of(v)) == Some(vl_of(v2)),
            None => chain_apply(*f, vl_of(v)) is None,
        },
{
    match f {
        ChainFn::TextToInt => match v {
            Value::Text(t) => {
                if t.len() == 0 {
                    return None;
                }
                let mut acc: u64 = 0;
                let mut i: usize = 0;
                while i < t.len()
                    invariant
                        i <= t.len(),
                        acc <= i64::MAX as u64,
                        acc as int == digits_val(t@.subrange(0, i as int)),
                        forall|j: int| 0 <= j < i ==> is_digit_spec(#[trigger] t@[j]),
                    decreases t.len() - i,
                {
                    let c = t[i];
                    if !('0' <= c && c <= '9') {
                        proof {
                            assert(!digits_ok(t@));
                        }
                        return None;
                    }
                    let d: u64 = (c as u32) as u64 - ('0' as u32) as u64;
                    proof {
                        assert(t@.subrange(0, i as int + 1).drop_last() =~= t@.subrange(
                            0,
                            i as int,
                        ));
                        assert(t@.subrange(0, i as int + 1).last() == t@[i as int]);
                    }
                    if acc > (i64::MAX as u64 - d) / 10 {
                        proof {
                            let pre = t@.subrange(0, i as int + 1);
                            assert(digits_val(pre) == acc as int * 10 + d as int);
                            assert(acc as int * 10 + d as int > i64::MAX as int) by (
                            nonlinear_arith)
                                requires
                                    acc as int > (i64::MAX as int - d as int) / 10,
                                    0 <= d as int <= 9,
                                    acc as int >= 0,
                            ;
                            if digits_ok(t@) {
                                lemma_digits_prefix(t@, i as int + 1);
                                assert(digits_val(t@) > i64::MAX as int);
                            }
                        }
                        return None;
                    }
                    acc = acc * 10 + d;
                    i = i + 1;
                }
                proof {
                    assert(t@.subrange(0, t@.len() as int) =~= t@);
                    assert(digits_ok(t@));
                }
                Some(Value::Int(acc as i64))
            },
            _ => None,
        },
    }
}

/// The message of a failed transform.
fn chain_text(f: &ChainFn) -> (r: Vec<char>)
    ensures
        r@ == chain_msg(*f),
{
    match f {
        ChainFn::TextToInt => text("invalid integer"),
    }
}

/// `vl_seq` distributes over prepending one element.
proof fn lemma_vl_seq_cons(v: Value, vs: Seq<Value>)
    ensures
        vl_seq(seq![v] + vs) == seq![vl_of(v)] + vl_seq(vs),
{
    let w = seq![v] + vs;
    assert(w[0] == v);
    assert(w.drop_first() =~= vs);
    assert(vl_seq(w) =~= seq![vl_of(v)] + vl_seq(vs));
}

/// A vector beginning with `v` and continuing with `vs`.
fn prepend(v: Value, mut vs: Vec<Value>) -> (r: Vec<Value>)
    ensures
        r@ == seq![v] + vs@,
{
    let ghost tail = vs@;
    let mut out: Vec<Value> = Vec::new();
    out.push(v);
    out.append(&mut vs);
    proof {
        assert(out@ =~= seq![v] + tail);
    }
    out
}

/// The repetition at `cur` continues a repetition begun at `pos0` that has
/// already gathered `acc`.
spec fn rep_continues(q: Parser, s: Seq<char>, pos0: nat, acc: Seq<Value>, cur: nat) -> bool {
    match sp_rep(q, s, cur) {
        Step::Good(lv, e2) => match lv {
            Vl::List(vs) => sp_rep(q, s, pos0) == Step::Good(Vl::List(vl_seq(acc) + vs), e2),
            _ => true,
        },
        _ => true,
    }
}

/// Attempt `p` on `input` at `pos`, without committing anything: the
/// returned offset, or error, is the caller's to apply. Agrees exactly
/// with the spec interpreter.
#[verifier::loop_isolation(false)]
#[verifier::rlimit(60)]
pub fn parse_core(p: &Parser, input: &Vec<char>, pos: usize) -> (r: Result<(Value, usize), Error>)
    requires
        pos <= input.len(),
    ensures
        match r {
            Ok(pr) => sp(*p, input@, pos as nat) == Step::Good(vl_of(pr.0), pr.1 as nat) && pos
                <= pr.1 <= input.len(),
            Err(e) => sp(*p, input@, pos as nat) == Step::Bad(e.pos as nat, e.msg@) && e.pos
                <= input.len(),
        },
    decreases rem(input@, pos as nat), height(*p), 1nat,
{
    match p {
        Parser::AnyChar => {
            if pos < input.len() {
                let c = input[pos];
                proof {
                    assert(*p == Parser::AnyChar);
                    assert(sp(*p, input@, pos as nat) == Step::Good(
                        Vl::Char(input@[pos as int]),
                        (pos + 1) as nat,
                    ));
                }
                Ok((Value::Char(c), pos + 1))
            } else {
                Err(Error::eos(pos))
            }
        },
        Parser::Str(t) => parse_str(t, input, pos),
        Parser::Eos => {
            if pos >= input.len() {
                proof {
                    assert(vl_of(Value::Unit) == Vl::Unit);
                }
                Ok((Value::Unit, pos))
            } else {
                Err(Error::new(pos + 1, text("expect end of stream")))
            }
        },
        Parser::Just(v) => Ok((v.duplicate(), pos)),
        Parser::Fail(m) => Err(Error::new(pos, copy_chars(m))),
        Parser::Apply(q, f) => match parse_core(&**q, input, pos) {
            Ok((v, e)) => Ok((apply_map(f, v), e)),
            Err(e) => Err(e),
        },
        Parser::Chain(q, f) => match parse_core(&**q, input, pos) {
            Ok((v, e)) => match apply_chain(f, v) {
                Some(v2) => Ok((v2, e)),
                None => Err(Error::new(e, chain_text(f))),
            },
            Err(e) => Err(e),
        },
        Parser::Pair(a, b) => {
            let (va, e1) = parse_core(&**a, input, pos)?;
            let (vb, e2) = parse_core(&**b, input, e1)?;
            let out = Value::Pair(Box::new(va), Box::new(vb));
            proof {
                assert(vl_of(out) == Vl::Pair(Box::new(vl_of(va)), Box::new(vl_of(vb))));
            }
            Ok((out, e2))
        },
        Parser::UseLeft(a, b) => {
            let (va, e1) = parse_core(&**a, input, pos)?;
            let (_, e2) = parse_core(&**b, input, e1)?;
            Ok((va, e2))
        },
        Parser::UseRight(a, b) => {
            let (_, e1) = parse_core(&**a, input, pos)?;
            let (vb, e2) = parse_core(&**b, input, e1)?;
            Ok((vb, e2))
        },
        Parser::Between(q, a, b) => {
            let (_, e1) = parse_core(&**a, input, pos)?;
            let (v, e2) = parse_core(&**q, input, e1)?;
            let (_, e3) = parse_core(&**b, input, e2)?;
            Ok((v, e3))
        },
        Parser::Or(a, b) => match parse_core(&**a, input, pos) {
            Ok(pr) => Ok(pr),
            Err(e1) => match parse_core(&**b, input, pos) {
                Ok(pr) => Ok(pr),
                Err(e2) => if e1.pos > e2.pos {
                    Err(e1)
                } else {
                    Err(e2)
                },
            },
        },
        Parser::AtLeastOne(q) => match parse_core(&**q, input, pos) {
            Err(e) => Err(e),
            Ok((v, e)) => {
                let (vs, end) = parse_rep(&**q, input, e);
                proof {
                    lemma_vl_seq_cons(v, vs@);
                }
                let out = Value::List(prepend(v, vs));
                proof {
                    assert(vl_of(out) == Vl::List(vl_seq(seq![v] + vs@)));
                }
                Ok((out, end))
            },
        },
        Parser::Many(q) => {
            let (vs, end) = parse_rep(&**q, input, pos);
            let out = Value::List(vs);
            proof {
                assert(vl_of(out) == Vl::List(vl_seq(out->List_0@)));
            }
            Ok((out, end))
        },
        Parser::ManyTill(q, end) => match parse_till(&**q, &**end, input, pos) {
            Ok((vs, e)) => {
                let out = Value::List(vs);
                proof {
                    assert(vl_of(out) == Vl::List(vl_seq(out->List_0@)));
                }
                Ok((out, e))
            },
            Err(e) => Err(e),
        },
        Parser::Filter(q, pr) => {
            let (v, e) = parse_core(&**q, input, pos)?;
            if pred_holds(pr, &v) {
                Ok((v, e))
            } else {
                Err(Error::new(e, text("unsatisfied")))
            }
        },
        Parser::Split(q, sep) => match parse_core(&**q, input, pos) {
            Err(e) => Err(e),
            Ok((v, e)) => {
                let (vs, end) = parse_sep(&**q, &**sep, input, e);
                proof {
                    lemma_vl_seq_cons(v, vs@);
                }
                let out = Value::List(prepend(v, vs));
                proof {
                    assert(vl_of(out) == Vl::List(vl_seq(seq![v] + vs@)));
                }
                Ok((out, end))
            },
        },
        Parser::Label(q, m) => match parse_core(&**q, input, pos) {
            Ok(pr) => Ok(pr),
            Err(e) => Err(Error::new(e.pos, copy_chars(m))),
        },
    }
}

/// Match the literal `t` at `pos`, all or nothing.
#[verifier::loop_isolation(false)]
fn parse_str(t: &Vec<char>, input: &Vec<char>, pos: usize) -> (r: Result<(Value, usize), Error>)
    requires
        pos <= input.len(),
    ensures
        match r {
            Ok(pr) => pos + t@.len() <= input@.len() && input@.subrange(
                pos as int,
                pos + t@.len() as int,
            ) == t@ && vl_of(pr.0) == Vl::Text(t@) && pr.1 == pos + t@.len(),
            Err(e) => !(pos + t@.len() <= input@.len() && input@.subrange(
                pos as int,
                pos + t@.len() as int,
            ) == t@) && e.pos == pos && e.msg@ == str_expect_msg(t@),
        },
{
    if t.len() <= input.len() - pos {
        let mut i: usize = 0;
        let mut same = true;
        while i < t.len()
            invariant
                i <= t.len(),
                same ==> forall|j: int| 0 <= j < i ==> input@[pos + j] == t@[j],
                !same ==> exists|j: int| 0 <= j < t@.len() && input@[pos + j] != t@[j],
            decreases t.len() - i,
        {
            if input[pos + i] != t[i] {
                same = false;
            }
            i = i + 1;
        }
        if same {
            proof {
                assert(input@.subrange(pos as int, pos + t@.len() as int) =~= t@);
            }
            Ok((Value::Text(copy_chars(t)), pos + t.len()))
        } else {
            proof {
                let j = choose|j: int| 0 <= j < t@.len() && input@[pos + j] != t@[j];
                assert(input@.subrange(pos as int, pos + t@.len() as int)[j] != t@[j]);
            }
            Err(Error::new(pos, expect_str_text(t)))
        }
    } else {
        proof {
            assert(pos + t@.len() > input@.len());
        }
        Err(Error::new(pos, expect_str_text(t)))
    }
}

/// The failure message of a literal parser, `expect "<literal>"`.
fn expect_str_text(t: &Vec<char>) -> (r: Vec<char>)
    ensures
        r@ == str_expect_msg(t@),
{
    let mut out = text("expect \"");
    let mut body = copy_chars(t);
    out.append(&mut body);
    out.push('"');
    proof {
        reveal_strlit("\"");
        assert("\""@ =~= seq!['"']);
        assert(out@ =~= str_expect_msg(t@));
    }
    out
}

/// Greedy repetition: gather successes of `q` until it fails, or until a
/// round consumes nothing; never fails itself.
#[verifier::loop_isolation(false)]
fn parse_rep(q: &Parser, input: &Vec<char>, pos: usize) -> (r: (Vec<Value>, usize))
    requires
        pos <= input.len(),
    ensures
        sp_rep(*q, input@, pos as nat) == Step::Good(Vl::List(vl_seq(r.0@)), r.1 as nat),
        pos <= r.1 <= input.len(),
    decreases rem(input@, pos as nat), height(*q) + 1, 0nat,
{
    let mut acc: Vec<Value> = Vec::new();
    let mut cur: usize = pos;
    proof {
        rep_continues_trivial(*q, input@, pos as nat);
    }
    loop
        invariant
            pos <= cur <= input.len(),
            rep_continues(*q, input@, pos as nat, acc@, cur as nat),
        decreases input.len() - cur,
    {
        let ghost acc0 = acc@;
        match parse_core(q, input, cur) {
            Err(_) => {
                proof {
                    assert(vl_seq(acc@) + Seq::<Vl>::empty() =~= vl_seq(acc@));
                }
                return (acc, cur);
            },
            Ok((v, e)) => {
                if e <= cur {
                    proof {
                        assert(vl_seq(acc@) + Seq::<Vl>::empty() =~= vl_seq(acc@));
                    }
                    return (acc, cur);
                }
                proof {
                    lemma_vl_seq_push(acc0, v);
                    let st = sp_rep(*q, input@, e as nat);
                    match st {
                        Step::Good(lv, e2) => match lv {
                            Vl::List(vs) => {
                                assert(vl_seq(acc0) + (seq![vl_of(v)] + vs) =~= vl_seq(
                                    acc0.push(v),
                                ) + vs);
                            },
                            _ => {},
                        },
                        _ => {},
                    }
                }
                acc.push(v);
                cur = e;
            },
        }
    }
}

/// On entry a repetition continues itself with nothing gathered.
proof fn rep_continues_trivial(q: Parser, s: Seq<char>, pos: nat)
    ensures
        rep_continues(q, s, pos, Seq::empty(), pos),
{
    match sp_rep(q, s, pos) {
        Step::Good(lv, e2) => match lv {
            Vl::List(vs) => {
                assert(vl_seq(Seq::<Value>::empty()) + vs =~= vs);
            },
            _ => {},
        },
        _ => {},
    }
}

/// The till-repetition at `cur` continues one begun at `pos0` that has
/// already gathered `acc`.
spec fn till_continues(
    q: Parser,
    end: Parser,
    s: Seq<char>,
    pos0: nat,
    acc: Seq<Value>,
    cur: nat,
) -> bool {
    match sp_till(q, end, s, cur) {
        Step::Good(lv, e2) => match lv {
            Vl::List(vs) => sp_till(q, end, s, pos0) == Step::Good(
                Vl::List(vl_seq(acc) + vs),
                e2,
            ),
            _ => true,
        },
        Step::Bad(pe, m) => sp_till(q, end, s, pos0) == Step::Bad(pe, m),
    }
}

/// Repetition of `q` until `end` matches; `q`'s failure is the whole
/// parse's failure, and a `q` round that consumes nothing ends the loop.
#[verifier::loop_isolation(false)]
fn parse_till(q: &Parser, end: &Parser, input: &Vec<char>, pos: usize) -> (r: Result<
    (Vec<Value>, usize),
    Error,
>)
    requires
        pos <= input.len(),
    ensures
        match r {
            Ok(pr) => sp_till(*q, *end, input@, pos as nat) == Step::Good(
                Vl::List(vl_seq(pr.0@)),
                pr.1 as nat,
            ) && pos <= pr.1 <= input.len(),
            Err(e) => sp_till(*q, *end, input@, pos as nat) == Step::Bad(e.pos as nat, e.msg@)
                && e.pos <= input.len(),
        },
    decreases rem(input@, pos as nat), crate::parser::nmax(height(*q), height(*end)) + 1, 0nat,
{
    let mut acc: Vec<Value> = Vec::new();
    let mut cur: usize = pos;
    proof {
        till_continues_trivial(*q, *end, input@, pos as nat);
    }
    loop
        invariant
            pos <= cur <= input.len(),
            till_continues(*q, *end, input@, pos as nat, acc@, cur as nat),
        decreases input.len() - cur,
    {
        let ghost acc0 = acc@;
        match parse_core(end, input, cur) {
            Ok((_, e)) => {
                proof {
                    assert(vl_seq(acc@) + Seq::<Vl>::empty() =~= vl_seq(acc@));
                }
                return Ok((acc, e));
            },
            Err(_) => {
                match parse_core(q, input, cur) {
                    Err(e) => {
                        return Err(e);
                    },
                    Ok((v, e)) => {
                        if e <= cur {
                            proof {
                                assert(vl_seq(acc@) + Seq::<Vl>::empty() =~= vl_seq(acc@));
                            }
                            return Ok((acc, cur));
                        }
                        proof {
                            lemma_vl_seq_push(acc0, v);
                            let st = sp_till(*q, *end, input@, e as nat);
                            match st {
                                Step::Good(lv, e2) => match lv {
                                    Vl::List(vs) => {
                                        assert(vl_seq(acc0) + (seq![vl_of(v)] + vs) =~= vl_seq(
                                            acc0.push(v),
                                        ) + vs);
                                    },
                                    _ => {},
                                },
                                _ => {},
                            }
                        }
                        acc.push(v);
                        cur = e;
                    },
                }
            },
        }
    }
}

/// On entry a till-repetition continues itself with nothing gathered.
proof fn till_continues_trivial(q: Parser, end: Parser, s: Seq<char>, pos: nat)
    ensures
        till_continues(q, end, s, pos, Seq::empty(), pos),
{
    match sp_till(q, end, s, pos) {
        Step::Good(lv, e2) => match lv {
            Vl::List(vs) => {
                assert(vl_seq(Seq::<Value>::empty()) + vs =~= vs);
            },
            _ => {},
        },
        _ => {},
    }
}

/// The separated repetition at `cur` continues one begun at `pos0` that
/// has already gathered `acc`.
spec fn sep_continues(
    q: Parser,
    sep: Parser,
    s: Seq<char>,
    pos0: nat,
    acc: Seq<Value>,
    cur: nat,
) -> bool {
    match sp_sep(q, sep, s, cur) {
        Step::Good(lv, e2) => match lv {
            Vl::List(vs) => sp_sep(q, sep, s, pos0) == Step::Good(Vl::List(vl_seq(acc) + vs), e2),
            _ => true,
        },
        _ => true,
    }
}

/// Rounds of separator then `q`: gather `q`'s values until a round fails
/// or consumes nothing, leaving the offset at the last completed round.
#[verifier::loop_isolation(false)]
fn parse_sep(q: &Parser, sep: &Parser, input: &Vec<char>, pos: usize) -> (r: (Vec<Value>, usize))
    requires
        pos <= input.len(),
    ensures
        sp_sep(*q, *sep, input@, pos as nat) == Step::Good(Vl::List(vl_seq(r.0@)), r.1 as nat),
        pos <= r.1 <= input.len(),
    decreases rem(input@, pos as nat), crate::parser::nmax(height(*q), height(*sep)) + 1, 0nat,
{
    let mut acc: Vec<Value> = Vec::new();
    let mut cur: usize = pos;
    proof {
        sep_continues_trivial(*q, *sep, input@, pos as nat);
    }
    loop
        invariant
            pos <= cur <= input.len(),
            sep_continues(*q, *sep, input@, pos as nat, acc@, cur as nat),
        decreases input.len() - cur,
    {
        let ghost acc0 = acc@;
        match parse_core(sep, input, cur) {
            Err(_) => {
                proof {
                    assert(vl_seq(acc@) + Seq::<Vl>::empty() =~= vl_seq(acc@));
                }
                return (acc, cur);
            },
            Ok((_, e1)) => {
                match parse_core(q, input, e1) {
                    Err(_) => {
                        proof {
                            assert(vl_seq(acc@) + Seq::<Vl>::empty() =~= vl_seq(acc@));
                        }
                        return (acc, cur);
                    },
                    Ok((v, e2)) => {
                        if e2 <= cur {
                            proof {
                                assert(vl_seq(acc@) + Seq::<Vl>::empty() =~= vl_seq(acc@));
                            }
                            return (acc, cur);
                        }
                        proof {
                            lemma_vl_seq_push(acc0, v);
                            let st = sp_sep(*q, *sep, input@, e2 as nat);
                            match st {
                                Step::Good(lv, ee) => match lv {
                                    Vl::List(vs) => {
                                        assert(vl_seq(acc0) + (seq![vl_of(v)] + vs) =~= vl_seq(
                                            acc0.push(v),
                                        ) + vs);
                                    },
                                    _ => {},
                                },
                                _ => {},
                            }
                        }
                        acc.push(v);
                        cur = e2;
                    },
                }
            },
        }
    }
}

/// On entry a separated repetition continues itself with nothing gathered.
proof fn sep_continues_trivial(q: Parser, sep: Parser, s: Seq<char>, pos: nat)
    ensures
        sep_continues(q, sep, s, pos, Seq::empty(), pos),
{
    match sp_sep(q, sep, s, pos) {
        Step::Good(lv, e2) => match lv {
            Vl::List(vs) => {
                assert(vl_seq(Seq::<Value>::empty()) + vs =~= vs);
            },
            _ => {},
        },
        _ => {},
    }
}

impl Parser {
    /// Attempt this parser on the read head, transactionally: on success
    /// the consumed input stays consumed; on failure the read head is
    /// exactly as before the call, whatever was consumed inside. The
    /// outcome is the one the spec interpreter gives.
    pub fn parse(&self, context: &mut Context) -> (r: Result<Value, Error>)
        requires
            old(context).wf(),
        ensures
            final(context).wf(),
            final(context).inp() == old(context).inp(),
            match r {
                Ok(v) => sp(*self, old(context).inp(), old(context).at()) == Step::Good(
                    vl_of(v),
                    final(context).at(),
                ) && old(context).at() <= final(context).at(),
                Err(e) => final(context).at() == old(context).at() && sp(
                    *self,
                    old(context).inp(),
                    old(context).at(),
                ) == Step::Bad(e.pos as nat, e.msg@) && e.pos <= old(context).inp().len(),
            },
    {
        match parse_core(self, &context.input, context.pos) {
            Ok((v, e)) => {
                context.pos = e;
                Ok(v)
            },
            Err(er) => Err(er),
        }
    }
}

impl Context {
    /// Attempt `parser` on this read head: the single entry point of a
    /// parse. Transactional exactly as `Parser::parse` is.
    pub fn parse_by(&mut self, parser: &Parser) -> (r: Result<Value, Error>)
        requires
            old(self).wf(),
        ensures
            final(self).wf(),
            final(self).inp() == old(self).inp(),
            match r {
                Ok(v) => sp(*parser, old(self).inp(), old(self).at()) == Step::Good(
                    vl_of(v),
                    final(self).at(),
                ) && old(self).at() <= final(self).at(),
                Err(e) => final(self).at() == old(self).at() && sp(
                    *parser,
                    old(self).inp(),
                    old(self).at(),
                ) == Step::Bad(e.pos as nat, e.msg@) && e.pos <= old(self).inp().len(),
            },
    {
        parser.parse(self)
    }
}

} // verus!
