//! The parser descriptors: a closed catalog of primitives and combinators.
//!
//! A `Parser` is an immutable, reusable description of how to attempt a
//! parse; it carries no mutable state. Composition is by value: every
//! combinator owns its children. The transform catalogs (`Pred`, `MapFn`,
//! `ChainFn`) are the value-level functions a grammar can apply to parse
//! results; each has an exact spec-level meaning.

use vstd::prelude::*;

use crate::value::{vl_of, vl_seq, Value, Vl};

verus! {

/// A predicate over parse result values, for `filter`.
pub enum Pred {
    /// The value is a whitespace character (space, tab, newline or return).
    IsWhitespace,
    /// The value is an ASCII letter.
    IsAlphabetic,
    /// The value is an ASCII digit.
    IsDigit,
    /// The value is exactly this character.
    CharIs(char),
}

/// A total transform over parse result values, for `map`.
pub enum MapFn {
    /// Collapse a list of characters into a text; leave anything else as it is.
    CollectText,
    /// Join a pair of a character and a text into one text, character first;
    /// leave anything else as it is.
    JoinCharText,
    /// Replace the value by a boolean constant.
    ConstBool(bool),
}

/// A fallible transform over parse result values, for `and_then`.
pub enum ChainFn {
    /// Read a non-empty all-digit text as a signed integer; fail on anything
    /// else or when the value does not fit.
    TextToInt,
}

/// A parser: a static descriptor, composed without limit.
pub enum Parser {
    /// One character, or an end-of-stream failure.
    AnyChar,
    /// A literal, matched as one all-or-nothing unit; on mismatch the error
    /// points at where matching began.
    Str(Vec<char>),
    /// Succeeds with no value only at the end of the input.
    Eos,
    /// Consumes nothing and succeeds with this value.
    Just(Value),
    /// Consumes nothing and fails with this message.
    Fail(Vec<char>),
    /// Transform the success value.
    Apply(Box<Parser>, MapFn),
    /// Transform the success value, turning a transform failure into a parse
    /// error at the position reached.
    Chain(Box<Parser>, ChainFn),
    /// Left then right, keeping both values in order.
    Pair(Box<Parser>, Box<Parser>),
    /// Left then right, keeping only the left value.
    UseLeft(Box<Parser>, Box<Parser>),
    /// Left then right, keeping only the right value.
    UseRight(Box<Parser>, Box<Parser>),
    /// Left delimiter, parent, right delimiter, keeping the parent's value.
    Between(Box<Parser>, Box<Parser>, Box<Parser>),
    /// Try the left; on failure roll back and try the right. If both fail,
    /// report the error with the greater position, ties favouring the right.
    Or(Box<Parser>, Box<Parser>),
    /// One or more repetitions, greedy.
    AtLeastOne(Box<Parser>),
    /// Zero or more repetitions, greedy; never fails.
    Many(Box<Parser>),
    /// Parent then end: each round first tries `end`; once it matches, stop,
    /// keeping its consumption but not its value.
    ManyTill(Box<Parser>, Box<Parser>),
    /// Succeed only if the predicate holds of the value.
    Filter(Box<Parser>, Pred),
    /// Parent, then zero or more separator-parent rounds, separators dropped.
    Split(Box<Parser>, Box<Parser>),
    /// On failure, replace the message and keep the position.
    Label(Box<Parser>, Vec<char>),
}

/// The larger of two naturals.
pub open spec fn nmax(a: nat, b: nat) -> nat {
    if a >= b {
        a
    } else {
        b
    }
}

/// The nesting height of a parser, the termination measure of the
/// interpreters.
pub open spec fn height(p: Parser) -> nat
    decreases p,
{
    match p {
        Parser::AnyChar => 0,
        Parser::Str(_) => 0,
        Parser::Eos => 0,
        Parser::Just(_) => 0,
        Parser::Fail(_) => 0,
        Parser::Apply(q, _) => height(*q) + 1,
        Parser::Chain(q, _) => height(*q) + 1,
        Parser::Pair(a, b) => nmax(height(*a), height(*b)) + 1,
        Parser::UseLeft(a, b) => nmax(height(*a), height(*b)) + 1,
        Parser::UseRight(a, b) => nmax(height(*a), height(*b)) + 1,
        Parser::Between(q, a, b) => nmax(height(*q), nmax(height(*a), height(*b))) + 1,
        Parser::Or(a, b) => nmax(height(*a), height(*b)) + 1,
        Parser::AtLeastOne(q) => height(*q) + 1,
        Parser::Many(q) => height(*q) + 1,
        Parser::ManyTill(q, e) => nmax(height(*q), height(*e)) + 1,
        Parser::Filter(q, _) => height(*q) + 1,
        Parser::Split(q, s) => nmax(height(*q), height(*s)) + 1,
        Parser::Label(q, _) => height(*q) + 1,
    }
}

impl Parser {
    /// Transform this parser's value.
    pub fn map(self, f: MapFn) -> (r: Parser)
        ensures
            r == Parser::Apply(Box::new(self), f),
    {
        Parser::Apply(Box::new(self), f)
    }

    /// Transform this parser's value, fallibly.
    pub fn and_then(self, f: ChainFn) -> (r: Parser)
        ensures
            r == Parser::Chain(Box::new(self), f),
    {
        Parser::Chain(Box::new(self), f)
    }

    /// This parser, then `right`, keeping both values.
    pub fn pair(self, right: Parser) -> (r: Parser)
        ensures
            r == Parser::Pair(Box::new(self), Box::new(right)),
    {
        Parser::Pair(Box::new(self), Box::new(right))
    }

    /// This parser, then `right`, keeping only this parser's value.
    pub fn use_left(self, right: Parser) -> (r: Parser)
        ensures
            r == Parser::UseLeft(Box::new(self), Box::new(right)),
    {
        Parser::UseLeft(Box::new(self), Box::new(right))
    }

    /// This parser, then `right`, keeping only `right`'s value.
    pub fn use_right(self, right: Parser) -> (r: Parser)
        ensures
            r == Parser::UseRight(Box::new(self), Box::new(right)),
    {
        Parser::UseRight(Box::new(self), Box::new(right))
    }

    /// This parser between two delimiters, keeping its own value.
    pub fn between(self, left: Parser, right: Parser) -> (r: Parser)
        ensures
            r == Parser::Between(Box::new(self), Box::new(left), Box::new(right)),
    {
        Parser::Between(Box::new(self), Box::new(left), Box::new(right))
    }

    /// This parser, or `right` if it fails.
    pub fn or(self, right: Parser) -> (r: Parser)
        ensures
            r == Parser::Or(Box::new(self), Box::new(right)),
    {
        Parser::Or(Box::new(self), Box::new(right))
    }

    /// One or more repetitions of this parser.
    pub fn some(self) -> (r: Parser)
        ensures
            r == Parser::AtLeastOne(Box::new(self)),
    {
        Parser::AtLeastOne(Box::new(self))
    }

    /// Zero or more repetitions of this parser.
    pub fn many(self) -> (r: Parser)
        ensures
            r == Parser::Many(Box::new(self)),
    {
        Parser::Many(Box::new(self))
    }

    /// Repetitions of this parser until `end` matches.
    pub fn many_till(self, end: Parser) -> (r: Parser)
        ensures
            r == Parser::ManyTill(Box::new(self), Box::new(end)),
    {
        Parser::ManyTill(Box::new(self), Box::new(end))
    }

    /// This parser, failing unless the predicate holds of its value.
    pub fn filter(self, predicate: Pred) -> (r: Parser)
        ensures
            r == Parser::Filter(Box::new(self), predicate),
    {
        Parser::Filter(Box::new(self), predicate)
    }

    /// This parser repeated, separated by `sep`, separators dropped.
    pub fn split(self, sep: Parser) -> (r: Parser)
        ensures
            r == Parser::Split(Box::new(self), Box::new(sep)),
    {
        Parser::Split(Box::new(self), Box::new(sep))
    }

    /// This parser, with failures re-labelled by `msg`.
    pub fn label(self, msg: Vec<char>) -> (r: Parser)
        ensures
            r == Parser::Label(Box::new(self), msg),
    {
        Parser::Label(Box::new(self), msg)
    }
}

// ===== character classes =====

/// A whitespace character, by the Unicode white-space property: the ASCII
/// spacing characters, next line, no-break space, the ogham space mark,
/// the en-quad..hair-space range, the line and paragraph separators, the
/// narrow and medium mathematical spaces, and the ideographic space.
pub open spec fn is_space(c: char) -> bool {
    ||| c == ' '
    ||| c == '\t'
    ||| c == '\n'
    ||| c == '\u{0B}'
    ||| c == '\u{0C}'
    ||| c == '\r'
    ||| c == '\u{85}'
    ||| c == '\u{A0}'
    ||| c == '\u{1680}'
    ||| ('\u{2000}' <= c && c <= '\u{200A}')
    ||| c == '\u{2028}'
    ||| c == '\u{2029}'
    ||| c == '\u{202F}'
    ||| c == '\u{205F}'
    ||| c == '\u{3000}'
}

/// Whether `c` is a whitespace character, as executable code.
pub fn space_char(c: char) -> (b: bool)
    ensures
        b == is_space(c),
{
    c == ' ' || c == '\t' || c == '\n' || c == '\u{0B}' || c == '\u{0C}' || c == '\r'
        || c == '\u{85}' || c == '\u{A0}' || c == '\u{1680}' || ('\u{2000}' <= c
        && c <= '\u{200A}') || c == '\u{2028}' || c == '\u{2029}' || c == '\u{202F}'
        || c == '\u{205F}' || c == '\u{3000}'
}

/// An ASCII letter.
pub open spec fn is_alpha(c: char) -> bool {
    ('a' <= c && c <= 'z') || ('A' <= c && c <= 'Z')
}

/// An ASCII digit.
pub open spec fn is_digit_ch(c: char) -> bool {
    '0' <= c && c <= '9'
}

/// What a predicate means of a modelled value: always false off characters.
pub open spec fn pred_ok(pr: Pred, v: Vl) -> bool {
    match v {
        Vl::Char(c) => match pr {
            Pred::IsWhitespace => is_space(c),
            Pred::IsAlphabetic => is_alpha(c),
            Pred::IsDigit => is_digit_ch(c),
            Pred::CharIs(d) => c == d,
        },
        _ => false,
    }
}

/// Whether a predicate holds of a value.
pub fn pred_holds(pr: &Pred, v: &Value) -> (b: bool)
    ensures
        b == pred_ok(*pr, vl_of(*v)),
{
    match v {
        Value::Char(c) => match pr {
            Pred::IsWhitespace => space_char(*c),
            Pred::IsAlphabetic => ('a' <= *c && *c <= 'z') || ('A' <= *c && *c <= 'Z'),
            Pred::IsDigit => '0' <= *c && *c <= '9',
            Pred::CharIs(d) => *c == *d,
        },
        _ => false,
    }
}

// ===== map transforms =====

/// Every element of the sequence is a character.
pub open spec fn all_chars(vs: Seq<Vl>) -> bool {
    forall|i: int| 0 <= i < vs.len() ==> vs[i] is Char
}

/// The characters of a sequence of character values.
pub open spec fn chars_text(vs: Seq<Vl>) -> Seq<char> {
    Seq::new(vs.len(), |i: int| vs[i]->Char_0)
}

/// What a map transform means of a modelled value. The transforms are
/// total: on a value of an unexpected shape they give it back unchanged.
pub open spec fn mf_apply(f: MapFn, v: Vl) -> Vl {
    match f {
        MapFn::CollectText => match v {
            Vl::List(vs) => if all_chars(vs) {
                Vl::Text(chars_text(vs))
            } else {
                v
            },
            _ => v,
        },
        MapFn::JoinCharText => match v {
            Vl::Pair(a, b) => match (*a, *b) {
                (Vl::Char(c), Vl::Text(t)) => Vl::Text(seq![c] + t),
                _ => v,
            },
            _ => v,
        },
        MapFn::ConstBool(b) => Vl::Bool(b),
    }
}

// ===== fallible transforms =====

/// A non-empty, all-digit text.
pub open spec fn digits_ok(t: Seq<char>) -> bool {
    t.len() > 0 && forall|i: int| 0 <= i < t.len() ==> is_digit_ch(#[trigger] t[i])
}

/// The numeric value of one digit character.
pub open spec fn digit_val(c: char) -> int {
    c as int - '0' as int
}

/// The numeric value of a digit text, most significant digit first.
pub open spec fn digits_val(t: Seq<char>) -> int
    decreases t.len(),
{
    if t.len() == 0 {
        0
    } else {
        digits_val(t.drop_last()) * 10 + digit_val(t.last())
    }
}

/// What a fallible transform means of a modelled value: the new value, or
/// nothing when the transform rejects it.
pub open spec fn chain_apply(f: ChainFn, v: Vl) -> Option<Vl> {
    match f {
        ChainFn::TextToInt => match v {
            Vl::Text(t) => if digits_ok(t) && digits_val(t) <= i64::MAX {
                Some(Vl::Int(digits_val(t)))
            } else {
                None
            },
            _ => None,
        },
    }
}

/// The error message of a failed transform.
pub open spec fn chain_msg(f: ChainFn) -> Seq<char> {
    match f {
        ChainFn::TextToInt => "invalid integer"@,
    }
}

} // verus!
