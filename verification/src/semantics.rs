//! The meaning of every parser, as one total spec-level interpreter.
//!
//! `sp(p, s, pos)` says what attempting `p` on input `s` at offset `pos`
//! does: succeed with a value and a new offset, or fail with a position
//! and a message. One point needs care: a repetition combinator whose
//! round succeeds while consuming nothing would otherwise repeat that
//! round forever. This engine's repetitions treat such a round as the end
//! of the repetition, discarding that round's value, so that every parse
//! terminates; grammar authors should still write repetition bodies that
//! consume input.

use vstd::prelude::*;

use crate::parser::{chain_apply, chain_msg, height, mf_apply, nmax, pred_ok, Parser};
use crate::result::eos_msg;
use crate::value::{vl_of, Vl};

verus! {

/// The outcome of attempting a parse, at the spec level.
pub enum Step {
    /// Success: the value and the offset one past what was consumed.
    Good(Vl, nat),
    /// Failure: the position of the error and its message. The read head
    /// itself is rolled back; the position only reports where the failure
    /// arose.
    Bad(nat, Seq<char>),
}

/// How much input is left at `pos`.
pub open spec fn rem(s: Seq<char>, pos: nat) -> nat {
    if pos <= s.len() {
        (s.len() - pos) as nat
    } else {
        0
    }
}

/// The offset `e` is a sound continuation point: at or after `pos`, within
/// the input.
pub open spec fn sound_end(pos: nat, e: nat, s: Seq<char>) -> bool {
    pos <= e <= s.len()
}

/// The failure message of a literal parser: `expect "<literal>"`.
pub open spec fn str_expect_msg(t: Seq<char>) -> Seq<char> {
    "expect \""@ + t + "\""@
}

/// Prepend one value onto a successful list outcome; a failure passes
/// through. (A non-list success cannot arise from a repetition helper;
/// such a case is routed to an arbitrary failure.)
pub open spec fn cons_onto(v: Vl, st: Step) -> Step {
    match st {
        Step::Good(lv, e) => match lv {
            Vl::List(vs) => Step::Good(Vl::List(seq![v] + vs), e),
            _ => Step::Bad(e, Seq::empty()),
        },
        other => other,
    }
}

/// The meaning of a parser: what attempting it on `s` at `pos` yields.
///
/// Sequencing recursion is guarded by `sound_end`: a child that reported
/// an out-of-range continuation would be routed to an arbitrary failure,
/// but the executable interpreter shows such ends never arise.
pub open spec fn sp(p: Parser, s: Seq<char>, pos: nat) -> Step
    decreases rem(s, pos), height(p), 1nat,
{
    match p {
        Parser::AnyChar => if pos < s.len() {
            Step::Good(Vl::Char(s[pos as int]), pos + 1)
        } else {
            Step::Bad(pos, eos_msg())
        },
        Parser::Str(t) => if pos + t@.len() <= s.len() && s.subrange(
            pos as int,
            pos + t@.len() as int,
        ) == t@ {
            Step::Good(Vl::Text(t@), pos + t@.len())
        } else {
            Step::Bad(pos, str_expect_msg(t@))
        },
        Parser::Eos => if pos >= s.len() {
            Step::Good(Vl::Unit, pos)
        } else {
            Step::Bad(pos + 1, "expect end of stream"@)
        },
        Parser::Just(v) => Step::Good(vl_of(v), pos),
        Parser::Fail(m) => Step::Bad(pos, m@),
        Parser::Apply(q, f) => match sp(*q, s, pos) {
            Step::Good(v, e) => Step::Good(mf_apply(f, v), e),
            other => other,
        },
        Parser::Chain(q, f) => match sp(*q, s, pos) {
            Step::Good(v, e) => match chain_apply(f, v) {
                Some(v2) => Step::Good(v2, e),
                None => Step::Bad(e, chain_msg(f)),
            },
            other => other,
        },
        Parser::Pair(a, b) => match sp(*a, s, pos) {
            Step::Good(va, e1) => if sound_end(pos, e1, s) {
                match sp(*b, s, e1) {
                    Step::Good(vb, e2) => Step::Good(Vl::Pair(Box::new(va), Box::new(vb)), e2),
                    other => other,
                }
            } else {
                Step::Bad(pos, Seq::empty())
            },
            other => other,
        },
        Parser::UseLeft(a, b) => match sp(*a, s, pos) {
            Step::Good(va, e1) => if sound_end(pos, e1, s) {
                match sp(*b, s, e1) {
                    Step::Good(_, e2) => Step::Good(va, e2),
                    other => other,
                }
            } else {
                Step::Bad(pos, Seq::empty())
            },
            other => other,
        },
        Parser::UseRight(a, b) => match sp(*a, s, pos) {
            Step::Good(_, e1) => if sound_end(pos, e1, s) {
                sp(*b, s, e1)
            } else {
                Step::Bad(pos, Seq::empty())
            },
            other => other,
        },
        Parser::Between(q, a, b) => match sp(*a, s, pos) {
            Step::Good(_, e1) => if sound_end(pos, e1, s) {
                match sp(*q, s, e1) {
                    Step::Good(v, e2) => if sound_end(e1, e2, s) {
                        match sp(*b, s, e2) {
                            Step::Good(_, e3) => Step::Good(v, e3),
                            other => other,
                        }
                    } else {
                        Step::Bad(pos, Seq::empty())
                    },
                    other => other,
                }
            } else {
                Step::Bad(pos, Seq::empty())
            },
            other => other,
        },
        Parser::Or(a, b) => match sp(*a, s, pos) {
            Step::Good(v, e) => Step::Good(v, e),
            Step::Bad(p1, m1) => match sp(*b, s, pos) {
                Step::Good(v, e) => Step::Good(v, e),
                Step::Bad(p2, m2) => if p1 > p2 {
                    Step::Bad(p1, m1)
                } else {
                    Step::Bad(p2, m2)
                },
            },
        },
        Parser::AtLeastOne(q) => match sp(*q, s, pos) {
            Step::Good(v, e) => if sound_end(pos, e, s) {
                cons_onto(v, sp_rep(*q, s, e))
            } else {
                Step::Bad(pos, Seq::empty())
            },
            other => other,
        },
        Parser::Many(q) => sp_rep(*q, s, pos),
        Parser::ManyTill(q, end) => sp_till(*q, *end, s, pos),
        Parser::Filter(q, pr) => match sp(*q, s, pos) {
            Step::Good(v, e) => if pred_ok(pr, v) {
                Step::Good(v, e)
            } else {
                Step::Bad(e, "unsatisfied"@)
            },
            other => other,
        },
        Parser::Split(q, sep) => match sp(*q, s, pos) {
            Step::Good(v, e) => if sound_end(pos, e, s) {
                cons_onto(v, sp_sep(*q, *sep, s, e))
            } else {
                Step::Bad(pos, Seq::empty())
            },
            other => other,
        },
        Parser::Label(q, m) => match sp(*q, s, pos) {
            Step::Bad(pe, _) => Step::Bad(pe, m@),
            other => other,
        },
    }
}

/// Greedy repetition of `q` from `pos`: the meaning of `many`. It cannot
/// fail: a failing round ends the repetition, and so does a round that
/// succeeds without consuming (whose value is discarded).
pub open spec fn sp_rep(q: Parser, s: Seq<char>, pos: nat) -> Step
    decreases rem(s, pos), height(q) + 1, 0nat,
{
    match sp(q, s, pos) {
        Step::Bad(_, _) => Step::Good(Vl::List(Seq::empty()), pos),
        Step::Good(v, e) => if pos < e <= s.len() {
            cons_onto(v, sp_rep(q, s, e))
        } else {
            Step::Good(Vl::List(Seq::empty()), pos)
        },
    }
}

/// Repetition of `q` until `end` matches: the meaning of `many_till`.
/// Each round first tries `end`; its match ends the loop, consumed but not
/// kept. Then a failing `q` fails the whole parse; a `q` round succeeding
/// without consuming ends the loop as a repetition round would.
pub open spec fn sp_till(q: Parser, end: Parser, s: Seq<char>, pos: nat) -> Step
    decreases rem(s, pos), nmax(height(q), height(end)) + 1, 0nat,
{
    match sp(end, s, pos) {
        Step::Good(_, e) => if sound_end(pos, e, s) {
            Step::Good(Vl::List(Seq::empty()), e)
        } else {
            Step::Bad(pos, Seq::empty())
        },
        Step::Bad(_, _) => match sp(q, s, pos) {
            Step::Bad(pe, m) => Step::Bad(pe, m),
            Step::Good(v, e) => if pos < e <= s.len() {
                cons_onto(v, sp_till(q, end, s, e))
            } else {
                Step::Good(Vl::List(Seq::empty()), pos)
            },
        },
    }
}

/// Separated repetition: rounds of `sep` then `q`, the meaning of the tail
/// of `split`. A failing round ends the repetition with the read head back
/// at the round's start; so does a round that consumes nothing.
pub open spec fn sp_sep(q: Parser, sep: Parser, s: Seq<char>, pos: nat) -> Step
    decreases rem(s, pos), nmax(height(q), height(sep)) + 1, 0nat,
{
    match sp(sep, s, pos) {
        Step::Bad(_, _) => Step::Good(Vl::List(Seq::empty()), pos),
        Step::Good(_, e1) => if sound_end(pos, e1, s) {
            match sp(q, s, e1) {
                Step::Bad(_, _) => Step::Good(Vl::List(Seq::empty()), pos),
                Step::Good(v, e2) => if pos < e2 <= s.len() {
                    cons_onto(v, sp_sep(q, sep, s, e2))
                } else {
                    Step::Good(Vl::List(Seq::empty()), pos)
                },
            }
        } else {
            Step::Bad(pos, Seq::empty())
        },
    }
}

} // verus!
