//! The atomic grammar leaves: characters, classes, literals, numbers,
//! identifiers, booleans, end of stream — and the always-succeed and
//! always-fail parsers.
//!
//! Each constructor's contract gives the exact meaning of the parser it
//! builds, for every input and offset, as an equation over the spec
//! interpreter.

use vstd::prelude::*;

use crate::parser::{
    all_chars, chars_text, digits_ok, digits_val, is_alpha, is_digit_ch, is_space, pred_ok,
    ChainFn, MapFn, Parser, Pred,
};
use crate::result::text;
use crate::semantics::{rem, sp, sp_rep, str_expect_msg, Step};
use crate::value::{vl_of, Value, Vl};

verus! {

/// A parser for one arbitrary character.
pub fn any_char() -> (p: Parser)
    ensures
        p == Parser::AnyChar,
{
    Parser::AnyChar
}

/// A parser that succeeds with `output` and consumes nothing.
pub fn just(output: Value) -> (p: Parser)
    ensures
        p == Parser::Just(output),
        forall|s: Seq<char>, pos: nat| #[trigger] sp(p, s, pos) == Step::Good(vl_of(output), pos),
{
    Parser::Just(output)
}

/// A parser that always fails with message `msg` at the current offset.
pub fn fail(msg: &str) -> (p: Parser)
    ensures
        forall|s: Seq<char>, pos: nat| #[trigger] sp(p, s, pos) == Step::Bad(pos, msg@),
{
    Parser::Fail(text(msg))
}

/// A parser for exactly the literal `str`, all or nothing: on any mismatch
/// it fails at the offset where matching began.
pub fn string(str: &str) -> (p: Parser)
    ensures
        p is Str,
        p->Str_0@ == str@,
{
    Parser::Str(text(str))
}

/// A parser that succeeds, with no value, only at the end of the input.
pub fn eos() -> (p: Parser)
    ensures
        p == Parser::Eos,
{
    Parser::Eos
}

/// The class of characters equal to `ch`.
pub open spec fn eq_cl(ch: char) -> spec_fn(char) -> bool {
    |c: char| c == ch
}

/// The class of whitespace characters.
pub open spec fn space_cl() -> spec_fn(char) -> bool {
    |c: char| is_space(c)
}

/// The class of ASCII letters.
pub open spec fn alpha_cl() -> spec_fn(char) -> bool {
    |c: char| is_alpha(c)
}

/// The class of ASCII digits.
pub open spec fn digit_cl() -> spec_fn(char) -> bool {
    |c: char| is_digit_ch(c)
}

/// `p` is exactly the labelled single-character class built from `pr`:
/// one arbitrary character, filtered by `pr`, with failures relabelled
/// `msg`. This pins the parser completely, structure and message.
pub open spec fn class_node(p: Parser, pr: Pred, msg: Seq<char>) -> bool {
    &&& p is Label
    &&& p->Label_1@ == msg
    &&& *p->Label_0 == Parser::Filter(Box::new(Parser::AnyChar), pr)
}

/// The meaning of a labelled single-character class: the next character if
/// the class holds of it, else a failure carrying `msg` — placed after the
/// offending character, or at the end of the input.
pub open spec fn sp_class(cl: spec_fn(char) -> bool, msg: Seq<char>, s: Seq<char>, pos: nat) -> Step {
    if pos < s.len() {
        if cl(s[pos as int]) {
            Step::Good(Vl::Char(s[pos as int]), pos + 1)
        } else {
            Step::Bad(pos + 1, msg)
        }
    } else {
        Step::Bad(pos, msg)
    }
}

/// One character filtered by `pr` and labelled `msg`.
fn class_char(pr: Pred, msg: Vec<char>, cl: Ghost<spec_fn(char) -> bool>) -> (p: Parser)
    requires
        forall|c: char| #[trigger] crate::parser::pred_ok(pr, Vl::Char(c)) == (cl@)(c),
    ensures
        class_node(p, pr, msg@),
        forall|s: Seq<char>, pos: nat|
            pos <= s.len() ==> #[trigger] sp(p, s, pos) == sp_class(cl@, msg@, s, pos),
{
    let ghost m = msg@;
    let p = any_char().filter(pr).label(msg);
    proof {
        assert forall|s: Seq<char>, pos: nat| pos <= s.len() implies #[trigger] sp(p, s, pos)
            == sp_class(cl@, m, s, pos) by {
            reveal_with_fuel(sp, 4);
        }
    }
    p
}

/// A parser for one character equal to `char`, labelled `expect '<char>'`.
pub fn char(ch: char) -> (p: Parser)
    ensures
        class_node(p, Pred::CharIs(ch), expect_char_msg(ch)),
        forall|s: Seq<char>, pos: nat|
            pos <= s.len() ==> #[trigger] sp(p, s, pos) == sp_class(
                eq_cl(ch),
                expect_char_msg(ch),
                s,
                pos,
            ),
{
    let mut msg = text("expect '");
    msg.push(ch);
    msg.push('\'');
    proof {
        reveal_strlit("'");
        assert("'"@ =~= seq!['\'']);
        assert(msg@ =~= expect_char_msg(ch));
    }
    class_char(Pred::CharIs(ch), msg, Ghost(eq_cl(ch)))
}

/// The failure message of `char`: `expect '<c>'`.
pub open spec fn expect_char_msg(c: char) -> Seq<char> {
    "expect '"@ + seq![c] + "'"@
}

/// A parser for one whitespace character.
pub fn whitespace() -> (p: Parser)
    ensures
        class_node(p, Pred::IsWhitespace, "expect whitespace"@),
        forall|s: Seq<char>, pos: nat|
            pos <= s.len() ==> #[trigger] sp(p, s, pos) == sp_class(
                space_cl(),
                "expect whitespace"@,
                s,
                pos,
            ),
{
    class_char(Pred::IsWhitespace, text("expect whitespace"), Ghost(space_cl()))
}

/// A parser for one ASCII letter.
pub fn alphabetic() -> (p: Parser)
    ensures
        class_node(p, Pred::IsAlphabetic, "expect alphabetic"@),
        forall|s: Seq<char>, pos: nat|
            pos <= s.len() ==> #[trigger] sp(p, s, pos) == sp_class(
                alpha_cl(),
                "expect alphabetic"@,
                s,
                pos,
            ),
{
    class_char(Pred::IsAlphabetic, text("expect alphabetic"), Ghost(alpha_cl()))
}

/// A parser for one ASCII digit.
pub fn digit() -> (p: Parser)
    ensures
        class_node(p, Pred::IsDigit, "expect digit"@),
        forall|s: Seq<char>, pos: nat|
            pos <= s.len() ==> #[trigger] sp(p, s, pos) == sp_class(
                digit_cl(),
                "expect digit"@,
                s,
                pos,
            ),
{
    class_char(Pred::IsDigit, text("expect digit"), Ghost(digit_cl()))
}

/// `p` is exactly the parser `whitespaces` builds: zero or more of the
/// whitespace class, collapsed into one text. Every node and message of
/// the tree is fixed.
pub open spec fn spaces_form(p: Parser) -> bool {
    &&& p is Apply
    &&& p->Apply_1 == MapFn::CollectText
    &&& *p->Apply_0 is Many
    &&& class_node(*(*p->Apply_0)->Many_0, Pred::IsWhitespace, "expect whitespace"@)
}

/// A parser for zero or more whitespace characters, gathered as one text.
pub fn whitespaces() -> (p: Parser)
    ensures
        spaces_form(p),
        forall|s: Seq<char>, pos: nat|
            pos <= s.len() ==> #[trigger] sp(p, s, pos) == sp_spaces(s, pos),
{
    let p = whitespace().many().map(MapFn::CollectText);
    proof {
        assert forall|s: Seq<char>, pos: nat| pos <= s.len() implies #[trigger] sp(p, s, pos)
            == sp_spaces(s, pos) by {
            lemma_spaces_meaning(p, s, pos);
        }
    }
    p
}

/// `p` is exactly the parser `number` builds: a run of the digit class,
/// collapsed into a text, read as an integer, with failures relabelled
/// `expect number`. Every node and message of the tree is fixed.
pub open spec fn number_form(p: Parser) -> bool {
    &&& p is Label
    &&& p->Label_1@ == "expect number"@
    &&& *p->Label_0 is Chain
    &&& (*p->Label_0)->Chain_1 == ChainFn::TextToInt
    &&& *(*p->Label_0)->Chain_0 is Apply
    &&& (*(*p->Label_0)->Chain_0)->Apply_1 == MapFn::CollectText
    &&& *(*(*p->Label_0)->Chain_0)->Apply_0 is Many
    &&& class_node(
        *(*(*(*p->Label_0)->Chain_0)->Apply_0)->Many_0,
        Pred::IsDigit,
        "expect digit"@,
    )
}

/// A parser for an unsigned decimal integer: one or more digits, read as a
/// signed integer value, labelled `expect number`.
pub fn number() -> (p: Parser)
    ensures
        number_form(p),
        forall|s: Seq<char>, pos: nat|
            pos <= s.len() ==> #[trigger] sp(p, s, pos) == sp_number(s, pos),
{
    let p = digit().many().map(MapFn::CollectText).and_then(ChainFn::TextToInt).label(
        text("expect number"),
    );
    proof {
        assert forall|s: Seq<char>, pos: nat| pos <= s.len() implies #[trigger] sp(p, s, pos)
            == sp_number(s, pos) by {
            lemma_number_meaning(p, s, pos);
        }
    }
    p
}

/// An identifier's leading character: a letter or an underscore.
pub open spec fn ident_start(c: char) -> bool {
    is_alpha(c) || c == '_'
}

/// `p` is exactly the parser `identifier` builds: a letter-or-underscore
/// head paired with a run of letters, digits and underscores, the pair
/// joined into one text, with failures relabelled `expect identifier`.
/// Every node and message of the tree is fixed.
pub open spec fn identifier_form(p: Parser) -> bool {
    let body = *p->Label_0;
    let head = *body->Apply_0->Pair_0;
    let tail = *body->Apply_0->Pair_1;
    &&& p is Label
    &&& p->Label_1@ == "expect identifier"@
    &&& body is Apply
    &&& body->Apply_1 == MapFn::JoinCharText
    &&& *body->Apply_0 is Pair
    &&& head is Or
    &&& class_node(*head->Or_0, Pred::IsAlphabetic, "expect alphabetic"@)
    &&& class_node(*head->Or_1, Pred::CharIs('_'), expect_char_msg('_'))
    &&& tail is Apply
    &&& tail->Apply_1 == MapFn::CollectText
    &&& *tail->Apply_0 is Many
    &&& *(*tail->Apply_0)->Many_0 is Or
    &&& *(*(*tail->Apply_0)->Many_0)->Or_0 is Or
    &&& class_node(
        *(*(*(*tail->Apply_0)->Many_0)->Or_0)->Or_0,
        Pred::IsAlphabetic,
        "expect alphabetic"@,
    )
    &&& class_node(
        *(*(*(*tail->Apply_0)->Many_0)->Or_0)->Or_1,
        Pred::IsDigit,
        "expect digit"@,
    )
    &&& class_node(*(*(*tail->Apply_0)->Many_0)->Or_1, Pred::CharIs('_'), expect_char_msg('_'))
}

/// A parser for an identifier: a letter or underscore, then letters,
/// digits and underscores, gathered as one text and labelled
/// `expect identifier`.
pub fn identifier() -> (p: Parser)
    ensures
        identifier_form(p),
        forall|s: Seq<char>, pos: nat|
            pos <= s.len() ==> #[trigger] sp(p, s, pos) == sp_identifier(s, pos),
{
    let p = alphabetic().or(char('_')).pair(
        alphabetic().or(digit()).or(char('_')).many().map(MapFn::CollectText),
    ).map(MapFn::JoinCharText).label(text("expect identifier"));
    proof {
        assert forall|s: Seq<char>, pos: nat| pos <= s.len() implies #[trigger] sp(p, s, pos)
            == sp_identifier(s, pos) by {
            lemma_identifier_meaning(p, s, pos);
        }
    }
    p
}

/// `p` is exactly the parser `bool` builds: the literal `true` mapped to
/// the true value, else the literal `false` mapped to the false value,
/// with failures relabelled `expect bool`. Every node and message of the
/// tree is fixed.
pub open spec fn bool_form(p: Parser) -> bool {
    let body = *p->Label_0;
    &&& p is Label
    &&& p->Label_1@ == "expect bool"@
    &&& body is Or
    &&& *body->Or_0 is Apply
    &&& (*body->Or_0)->Apply_1 == MapFn::ConstBool(true)
    &&& *(*body->Or_0)->Apply_0 is Str
    &&& (*(*body->Or_0)->Apply_0)->Str_0@ == "true"@
    &&& *body->Or_1 is Apply
    &&& (*body->Or_1)->Apply_1 == MapFn::ConstBool(false)
    &&& *(*body->Or_1)->Apply_0 is Str
    &&& (*(*body->Or_1)->Apply_0)->Str_0@ == "false"@
}

/// A parser for the boolean literals `true` and `false`, labelled
/// `expect bool`.
pub fn bool() -> (p: Parser)
    ensures
        bool_form(p),
        forall|s: Seq<char>, pos: nat|
            pos <= s.len() ==> #[trigger] sp(p, s, pos) == sp_bool(s, pos),
{
    let p = string("true").map(MapFn::ConstBool(true)).or(
        string("false").map(MapFn::ConstBool(false)),
    ).label(text("expect bool"));
    proof {
        assert forall|s: Seq<char>, pos: nat| pos <= s.len() implies #[trigger] sp(p, s, pos)
            == sp_bool(s, pos) by {
            lemma_bool_meaning(p, s, pos);
        }
    }
    p
}

// ===== the meaning of the composite consumers =====
//
// Each `*_form` above pins a parser tree completely; the lemmas here turn
// that shape into the exact meaning of the parser, as an equation over the
// spec interpreter, for any input and offset.

/// A pinned single-character class means exactly `sp_class`.
pub proof fn lemma_class_meaning(
    q: Parser,
    pr: Pred,
    msg: Seq<char>,
    cl: spec_fn(char) -> bool,
    s: Seq<char>,
    p2: nat,
)
    requires
        class_node(q, pr, msg),
        p2 <= s.len(),
        forall|c: char| #[trigger] pred_ok(pr, Vl::Char(c)) == cl(c),
    ensures
        sp(q, s, p2) == sp_class(cl, msg, s, p2),
{
    reveal_with_fuel(sp, 4);
}

/// `q` behaves on `s` exactly like the single-character class `cl`:
/// wherever the class holds of the next character it consumes it, and
/// everywhere else it fails.
pub open spec fn class_like(q: Parser, cl: spec_fn(char) -> bool, s: Seq<char>) -> bool {
    forall|p2: nat| #![trigger sp(q, s, p2)]
        p2 <= s.len() ==> ((p2 < s.len() && cl(s[p2 as int]) ==> sp(q, s, p2) == Step::Good(
            Vl::Char(s[p2 as int]),
            p2 + 1,
        )) && (!(p2 < s.len() && cl(s[p2 as int])) ==> sp(q, s, p2) is Bad))
}

/// A pinned single-character class is class-like on every input.
pub proof fn lemma_class_like(
    q: Parser,
    pr: Pred,
    msg: Seq<char>,
    cl: spec_fn(char) -> bool,
    s: Seq<char>,
)
    requires
        class_node(q, pr, msg),
        forall|c: char| #[trigger] pred_ok(pr, Vl::Char(c)) == cl(c),
    ensures
        class_like(q, cl, s),
{
    assert forall|p2: nat| #![trigger sp(q, s, p2)] p2 <= s.len() implies ((p2 < s.len() && cl(
        s[p2 as int],
    ) ==> sp(q, s, p2) == Step::Good(Vl::Char(s[p2 as int]), p2 + 1)) && (!(p2 < s.len() && cl(
        s[p2 as int],
    )) ==> sp(q, s, p2) is Bad)) by {
        lemma_class_meaning(q, pr, msg, cl, s, p2);
    }
}

/// The offset just past the run of class `cl` characters starting at `pos`.
pub open spec fn run_end(cl: spec_fn(char) -> bool, s: Seq<char>, pos: nat) -> nat
    decreases rem(s, pos),
{
    if pos < s.len() && cl(s[pos as int]) {
        run_end(cl, s, (pos + 1) as nat)
    } else {
        pos
    }
}

/// The run of class `cl` characters starting at `pos`, as character values.
pub open spec fn run_list(cl: spec_fn(char) -> bool, s: Seq<char>, pos: nat) -> Seq<Vl>
    decreases rem(s, pos),
{
    if pos < s.len() && cl(s[pos as int]) {
        seq![Vl::Char(s[pos as int])] + run_list(cl, s, (pos + 1) as nat)
    } else {
        Seq::empty()
    }
}

/// Where a run ends: within the input, on characters of the class, and at
/// the first character outside it.
pub proof fn lemma_run_bounds(cl: spec_fn(char) -> bool, s: Seq<char>, pos: nat)
    requires
        pos <= s.len(),
    ensures
        pos <= run_end(cl, s, pos) <= s.len(),
        forall|i: int| pos <= i < run_end(cl, s, pos) ==> cl(#[trigger] s[i]),
        !(run_end(cl, s, pos) < s.len() && cl(s[run_end(cl, s, pos) as int])),
    decreases rem(s, pos),
{
    if pos < s.len() && cl(s[pos as int]) {
        lemma_run_bounds(cl, s, (pos + 1) as nat);
    }
}

/// Greedy repetition of a single-character class gathers exactly the run
/// of characters of that class.
pub proof fn lemma_rep_class(q: Parser, cl: spec_fn(char) -> bool, s: Seq<char>, pos: nat)
    requires
        pos <= s.len(),
        class_like(q, cl, s),
    ensures
        sp_rep(q, s, pos) == Step::Good(Vl::List(run_list(cl, s, pos)), run_end(cl, s, pos)),
        run_list(cl, s, pos).len() == run_end(cl, s, pos) - pos,
        all_chars(run_list(cl, s, pos)),
        chars_text(run_list(cl, s, pos)) =~= s.subrange(pos as int, run_end(cl, s, pos) as int),
    decreases rem(s, pos),
{
    lemma_run_bounds(cl, s, pos);
    if pos < s.len() && cl(s[pos as int]) {
        lemma_run_bounds(cl, s, (pos + 1) as nat);
        lemma_rep_class(q, cl, s, (pos + 1) as nat);
        assert(sp(q, s, pos) == Step::Good(Vl::Char(s[pos as int]), pos + 1));
        assert(run_end(cl, s, pos) == run_end(cl, s, (pos + 1) as nat));
        assert(run_list(cl, s, pos) == seq![Vl::Char(s[pos as int])] + run_list(
            cl,
            s,
            (pos + 1) as nat,
        ));
        assert forall|i: int| 0 <= i < run_list(cl, s, pos).len() implies run_list(
            cl,
            s,
            pos,
        )[i] is Char by {
            if i > 0 {
                assert(run_list(cl, s, pos)[i] == run_list(cl, s, (pos + 1) as nat)[i - 1]);
            }
        }
        assert forall|i: int| 0 <= i < run_list(cl, s, pos).len() implies chars_text(
            run_list(cl, s, pos),
        )[i] == s.subrange(pos as int, run_end(cl, s, pos) as int)[i] by {
            if i > 0 {
                assert(run_list(cl, s, pos)[i] == run_list(cl, s, (pos + 1) as nat)[i - 1]);
                assert(chars_text(run_list(cl, s, (pos + 1) as nat))[i - 1] == s.subrange(
                    pos as int + 1,
                    run_end(cl, s, pos) as int,
                )[i - 1]);
            }
        }
        assert(chars_text(run_list(cl, s, pos)) =~= s.subrange(
            pos as int,
            run_end(cl, s, pos) as int,
        ));
    } else {
        assert(sp(q, s, pos) is Bad);
        assert(run_end(cl, s, pos) == pos);
        assert(run_list(cl, s, pos) == Seq::<Vl>::empty());
        assert(chars_text(run_list(cl, s, pos)) =~= s.subrange(pos as int, pos as int));
    }
}

/// The meaning of `whitespaces`: it always succeeds, consuming exactly
/// the whitespace run at the offset and yielding it as one text.
pub open spec fn sp_spaces(s: Seq<char>, pos: nat) -> Step {
    Step::Good(
        Vl::Text(s.subrange(pos as int, run_end(space_cl(), s, pos) as int)),
        run_end(space_cl(), s, pos),
    )
}

/// A `whitespaces`-shaped parser means exactly `sp_spaces`, on every input
/// and offset.
pub proof fn lemma_spaces_meaning(p: Parser, s: Seq<char>, pos: nat)
    requires
        spaces_form(p),
        pos <= s.len(),
    ensures
        sp(p, s, pos) == sp_spaces(s, pos),
{
    let w = *(*p->Apply_0)->Many_0;
    assert forall|c: char| #[trigger] pred_ok(Pred::IsWhitespace, Vl::Char(c)) == space_cl()(
        c,
    ) by {}
    lemma_class_like(w, Pred::IsWhitespace, "expect whitespace"@, space_cl(), s);
    lemma_rep_class(w, space_cl(), s, pos);
    lemma_run_bounds(space_cl(), s, pos);
    assert(sp(*p->Apply_0, s, pos) == Step::Good(
        Vl::List(run_list(space_cl(), s, pos)),
        run_end(space_cl(), s, pos),
    ));
    assert(chars_text(run_list(space_cl(), s, pos)) == s.subrange(
        pos as int,
        run_end(space_cl(), s, pos) as int,
    ));
}

/// The meaning of `number`: the maximal digit run at the offset, read as a
/// signed integer; where the run is empty, or the value does not fit, a
/// failure labelled `expect number` just past the run.
pub open spec fn sp_number(s: Seq<char>, pos: nat) -> Step {
    let e = run_end(digit_cl(), s, pos);
    let t = s.subrange(pos as int, e as int);
    if digits_ok(t) && digits_val(t) <= i64::MAX {
        Step::Good(Vl::Int(digits_val(t)), e)
    } else {
        Step::Bad(e, "expect number"@)
    }
}

/// A `number`-shaped parser means exactly `sp_number`, on every input and
/// offset.
pub proof fn lemma_number_meaning(p: Parser, s: Seq<char>, pos: nat)
    requires
        number_form(p),
        pos <= s.len(),
    ensures
        sp(p, s, pos) == sp_number(s, pos),
{
    let leaf = *(*(*(*p->Label_0)->Chain_0)->Apply_0)->Many_0;
    assert forall|c: char| #[trigger] pred_ok(Pred::IsDigit, Vl::Char(c)) == digit_cl()(c) by {}
    lemma_class_like(leaf, Pred::IsDigit, "expect digit"@, digit_cl(), s);
    lemma_rep_class(leaf, digit_cl(), s, pos);
    lemma_run_bounds(digit_cl(), s, pos);
    let e = run_end(digit_cl(), s, pos);
    let t = s.subrange(pos as int, e as int);
    assert(sp(*(*(*p->Label_0)->Chain_0)->Apply_0, s, pos) == Step::Good(
        Vl::List(run_list(digit_cl(), s, pos)),
        e,
    ));
    assert(chars_text(run_list(digit_cl(), s, pos)) == t);
    assert(sp(*(*p->Label_0)->Chain_0, s, pos) == Step::Good(Vl::Text(t), e));
    assert forall|i: int| 0 <= i < t.len() implies is_digit_ch(#[trigger] t[i]) by {
        assert(t[i] == s[pos + i]);
        assert(digit_cl()(s[pos + i]));
    }
    if digits_ok(t) && digits_val(t) <= i64::MAX {
        assert(sp(*p->Label_0, s, pos) == Step::Good(Vl::Int(digits_val(t)), e));
    } else {
        assert(sp(*p->Label_0, s, pos) == Step::Bad(e, crate::parser::chain_msg(
            ChainFn::TextToInt,
        )));
    }
}

/// The literal `t` occurs in `s` at `pos`.
pub open spec fn lit_at(t: Seq<char>, s: Seq<char>, pos: nat) -> bool {
    pos + t.len() <= s.len() && s.subrange(pos as int, pos + t.len() as int) == t
}

/// The meaning of `bool`: the literal `true` or `false`, read as a
/// boolean; else a failure labelled `expect bool` where matching began.
pub open spec fn sp_bool(s: Seq<char>, pos: nat) -> Step {
    if lit_at("true"@, s, pos) {
        Step::Good(Vl::Bool(true), (pos + "true"@.len()) as nat)
    } else if lit_at("false"@, s, pos) {
        Step::Good(Vl::Bool(false), (pos + "false"@.len()) as nat)
    } else {
        Step::Bad(pos, "expect bool"@)
    }
}

/// A `bool`-shaped parser means exactly `sp_bool`, on every input and
/// offset.
pub proof fn lemma_bool_meaning(p: Parser, s: Seq<char>, pos: nat)
    requires
        bool_form(p),
        pos <= s.len(),
    ensures
        sp(p, s, pos) == sp_bool(s, pos),
{
    let left = *(*p->Label_0)->Or_0;
    let right = *(*p->Label_0)->Or_1;
    let ts = *left->Apply_0;
    let fs = *right->Apply_0;
    if lit_at("true"@, s, pos) {
        assert(sp(ts, s, pos) == Step::Good(Vl::Text("true"@), (pos + "true"@.len()) as nat));
        assert(sp(left, s, pos) == Step::Good(Vl::Bool(true), (pos + "true"@.len()) as nat));
        assert(sp(*p->Label_0, s, pos) == sp(left, s, pos));
        assert(sp(p, s, pos) == sp(left, s, pos));
    } else {
        assert(sp(ts, s, pos) == Step::Bad(pos, str_expect_msg("true"@)));
        assert(sp(left, s, pos) == Step::Bad(pos, str_expect_msg("true"@)));
        if lit_at("false"@, s, pos) {
            assert(sp(fs, s, pos) == Step::Good(
                Vl::Text("false"@),
                (pos + "false"@.len()) as nat,
            ));
            assert(sp(right, s, pos) == Step::Good(
                Vl::Bool(false),
                (pos + "false"@.len()) as nat,
            ));
            assert(sp(*p->Label_0, s, pos) == sp(right, s, pos));
            assert(sp(p, s, pos) == sp(right, s, pos));
        } else {
            assert(sp(fs, s, pos) == Step::Bad(pos, str_expect_msg("false"@)));
            assert(sp(right, s, pos) == Step::Bad(pos, str_expect_msg("false"@)));
            assert(sp(*p->Label_0, s, pos) == Step::Bad(pos, str_expect_msg("false"@)));
            assert(sp(p, s, pos) == Step::Bad(pos, "expect bool"@));
        }
    }
}

/// An identifier's continuation characters: letters, digits, underscore.
pub open spec fn ident_cl() -> spec_fn(char) -> bool {
    |c: char| is_alpha(c) || is_digit_ch(c) || c == '_'
}

/// The meaning of `identifier`: a leading letter or underscore, then the
/// maximal run of letters, digits and underscores, as one text; else a
/// failure labelled `expect identifier`, placed after the offending
/// character, or at the end of the input.
pub open spec fn sp_identifier(s: Seq<char>, pos: nat) -> Step {
    if pos < s.len() && ident_start(s[pos as int]) {
        let e = run_end(ident_cl(), s, (pos + 1) as nat);
        Step::Good(Vl::Text(s.subrange(pos as int, e as int)), e)
    } else {
        Step::Bad(
            if pos < s.len() {
                (pos + 1) as nat
            } else {
                pos
            },
            "expect identifier"@,
        )
    }
}

/// An `identifier`-shaped parser means exactly `sp_identifier`, on every
/// input and offset.
pub proof fn lemma_identifier_meaning(p: Parser, s: Seq<char>, pos: nat)
    requires
        identifier_form(p),
        pos <= s.len(),
    ensures
        sp(p, s, pos) == sp_identifier(s, pos),
{
    let body = *p->Label_0;
    let head = *body->Apply_0->Pair_0;
    let tail = *body->Apply_0->Pair_1;
    let inner = *(*tail->Apply_0)->Many_0;
    let ha = *head->Or_0;
    let hu = *head->Or_1;
    // the head behaves as: one letter-or-underscore character
    lemma_class_meaning(ha, Pred::IsAlphabetic, "expect alphabetic"@, alpha_cl(), s, pos);
    lemma_class_meaning(hu, Pred::CharIs('_'), expect_char_msg('_'), eq_cl('_'), s, pos);
    // the tail's round parser is class-like for the continuation class
    assert forall|p2: nat| #![trigger sp(inner, s, p2)] p2 <= s.len() implies ((p2 < s.len()
        && ident_cl()(s[p2 as int]) ==> sp(inner, s, p2) == Step::Good(
        Vl::Char(s[p2 as int]),
        p2 + 1,
    )) && (!(p2 < s.len() && ident_cl()(s[p2 as int])) ==> sp(inner, s, p2) is Bad)) by {
        lemma_class_meaning(
            *(*inner->Or_0)->Or_0,
            Pred::IsAlphabetic,
            "expect alphabetic"@,
            alpha_cl(),
            s,
            p2,
        );
        lemma_class_meaning(
            *(*inner->Or_0)->Or_1,
            Pred::IsDigit,
            "expect digit"@,
            digit_cl(),
            s,
            p2,
        );
        lemma_class_meaning(
            *inner->Or_1,
            Pred::CharIs('_'),
            expect_char_msg('_'),
            eq_cl('_'),
            s,
            p2,
        );
        if p2 < s.len() && is_alpha(s[p2 as int]) {
            assert(sp(*inner->Or_0, s, p2) == Step::Good(Vl::Char(s[p2 as int]), p2 + 1));
        } else if p2 < s.len() && is_digit_ch(s[p2 as int]) {
            assert(sp(*inner->Or_0, s, p2) == Step::Good(Vl::Char(s[p2 as int]), p2 + 1));
        } else {
            assert(sp(*inner->Or_0, s, p2) is Bad);
        }
    }
    if pos < s.len() && ident_start(s[pos as int]) {
        let c0 = s[pos as int];
        assert(sp(head, s, pos) == Step::Good(Vl::Char(c0), pos + 1));
        lemma_rep_class(inner, ident_cl(), s, (pos + 1) as nat);
        lemma_run_bounds(ident_cl(), s, (pos + 1) as nat);
        let e = run_end(ident_cl(), s, (pos + 1) as nat);
        assert(sp(*tail->Apply_0, s, (pos + 1) as nat) == Step::Good(
            Vl::List(run_list(ident_cl(), s, (pos + 1) as nat)),
            e,
        ));
        assert(sp(tail, s, (pos + 1) as nat) == Step::Good(
            Vl::Text(s.subrange(pos as int + 1, e as int)),
            e,
        ));
        assert(sp(*body->Apply_0, s, pos) == Step::Good(
            Vl::Pair(
                Box::new(Vl::Char(c0)),
                Box::new(Vl::Text(s.subrange(pos as int + 1, e as int))),
            ),
            e,
        ));
        assert(seq![c0] + s.subrange(pos as int + 1, e as int) =~= s.subrange(
            pos as int,
            e as int,
        ));
        assert(sp(body, s, pos) == Step::Good(Vl::Text(s.subrange(pos as int, e as int)), e));
        assert(sp(p, s, pos) == sp(body, s, pos));
    } else {
        if pos < s.len() {
            assert(sp(head, s, pos) == Step::Bad((pos + 1) as nat, expect_char_msg('_')));
            assert(sp(*body->Apply_0, s, pos) == sp(head, s, pos));
            assert(sp(body, s, pos) == sp(head, s, pos));
            assert(sp(p, s, pos) == Step::Bad((pos + 1) as nat, "expect identifier"@));
        } else {
            assert(sp(head, s, pos) == Step::Bad(pos, expect_char_msg('_')));
            assert(sp(*body->Apply_0, s, pos) == sp(head, s, pos));
            assert(sp(body, s, pos) == sp(head, s, pos));
            assert(sp(p, s, pos) == Step::Bad(pos, "expect identifier"@));
        }
    }
}

} // verus!
