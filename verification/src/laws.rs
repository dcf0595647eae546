//! The engine's algebraic laws, proved once and for all over the spec
//! interpreter. Together with the contract of `Parser::parse` — which ties
//! every run to `sp` and restores the read head exactly on failure — these
//! pin down the backtracking and error-merging behaviour of the engine.

use vstd::prelude::*;

use crate::parser::Parser;
use crate::semantics::{sp, sp_rep, str_expect_msg, Step};
use crate::value::{vl_of, Value, Vl};

verus! {

/// A literal parser consumes exactly its literal where the input carries
/// it, and fails at the offset where matching began — never beyond —
/// everywhere else.
pub proof fn law_string(t: Vec<char>, s: Seq<char>, pos: nat)
    ensures
        (pos + t@.len() <= s.len() && s.subrange(pos as int, pos + t@.len() as int) == t@)
            ==> sp(Parser::Str(t), s, pos) == Step::Good(Vl::Text(t@), pos + t@.len()),
        !(pos + t@.len() <= s.len() && s.subrange(pos as int, pos + t@.len() as int) == t@)
            ==> sp(Parser::Str(t), s, pos) == Step::Bad(pos, str_expect_msg(t@)),
{
}

/// Alternation: a successful left branch is the whole result, and the
/// right branch plays no part in it; a failed left branch gives the right
/// branch's success; when both fail, the error with the greater position
/// wins, ties favouring the right.
pub proof fn law_or(a: Parser, b: Parser, s: Seq<char>, pos: nat)
    ensures
        sp(a, s, pos) is Good ==> sp(Parser::Or(Box::new(a), Box::new(b)), s, pos) == sp(a, s, pos),
        (sp(a, s, pos) is Bad && sp(b, s, pos) is Good) ==> sp(
            Parser::Or(Box::new(a), Box::new(b)),
            s,
            pos,
        ) == sp(b, s, pos),
        (sp(a, s, pos) is Bad && sp(b, s, pos) is Bad) ==> sp(
            Parser::Or(Box::new(a), Box::new(b)),
            s,
            pos,
        ) == (if sp(a, s, pos)->Bad_0 > sp(b, s, pos)->Bad_0 {
            sp(a, s, pos)
        } else {
            sp(b, s, pos)
        }),
{
}

/// Greedy repetition never fails: whatever `q` is, `many(q)` succeeds with
/// a list.
pub proof fn law_many_total(q: Parser, s: Seq<char>, pos: nat)
    requires
        pos <= s.len(),
    ensures
        sp(Parser::Many(Box::new(q)), s, pos) matches Step::Good(lv, e) && lv is List && pos <= e
            <= s.len(),
    decreases crate::semantics::rem(s, pos),
{
    assert(sp(Parser::Many(Box::new(q)), s, pos) == sp_rep(q, s, pos));
    match sp(q, s, pos) {
        Step::Bad(_, _) => {},
        Step::Good(v, e) => {
            if pos < e <= s.len() {
                law_many_total(q, s, e);
                assert(sp(Parser::Many(Box::new(q)), s, e) == sp_rep(q, s, e));
            }
        },
    }
}

/// Where `q` fails immediately, `many(q)` succeeds with the empty list and
/// does not advance, while `some(q)` fails with exactly `q`'s error.
pub proof fn law_many_some_empty(q: Parser, s: Seq<char>, pos: nat)
    requires
        sp(q, s, pos) is Bad,
    ensures
        sp(Parser::Many(Box::new(q)), s, pos) == Step::Good(Vl::List(Seq::empty()), pos),
        sp(Parser::AtLeastOne(Box::new(q)), s, pos) == sp(q, s, pos),
{
    assert(sp(Parser::Many(Box::new(q)), s, pos) == sp_rep(q, s, pos));
    assert(sp_rep(q, s, pos) == Step::Good(Vl::List(Seq::empty()), pos));
}

/// Labelling twice: on failure only the outermost label's message appears,
/// and the failure's position is exactly the underlying one.
pub proof fn law_label_twice(q: Parser, m1: Vec<char>, m2: Vec<char>, s: Seq<char>, pos: nat)
    ensures
        sp(q, s, pos) is Bad ==> sp(
            Parser::Label(Box::new(Parser::Label(Box::new(q), m1)), m2),
            s,
            pos,
        ) == Step::Bad(sp(q, s, pos)->Bad_0, m2@),
        sp(q, s, pos) is Good ==> sp(
            Parser::Label(Box::new(Parser::Label(Box::new(q), m1)), m2),
            s,
            pos,
        ) == sp(q, s, pos),
{
    let inner = Parser::Label(Box::new(q), m1);
    match sp(q, s, pos) {
        Step::Bad(pe, _) => {
            assert(sp(inner, s, pos) == Step::Bad(pe, m1@));
            assert(sp(Parser::Label(Box::new(inner), m2), s, pos) == Step::Bad(pe, m2@));
        },
        Step::Good(v, e) => {
            assert(sp(inner, s, pos) == sp(q, s, pos));
            assert(sp(Parser::Label(Box::new(inner), m2), s, pos) == sp(q, s, pos));
        },
    }
}

} // verus!
