//! A parser-combinator engine over character streams.
//!
//! Parsers are immutable descriptors built ahead of time from primitives and
//! combinators; a `Context` is the mutable read head over one input. Every
//! parser invocation is transactional: a failed parse never leaves partial
//! consumption behind. The semantics of every parser is given by the spec
//! interpreter in `semantics`, and the executable interpreter is proved to
//! agree with it.
//!
//! Two design limits follow from keeping every parser's meaning a total,
//! provable function. First, the combinator catalog is closed: parsers form
//! an enum, and the value transforms a grammar may apply (`Pred`, `MapFn`,
//! `ChainFn`) are fixed catalogs with spec-level meanings, not arbitrary
//! closures; there is no type-erased handle and no monadic bind, so a
//! recursive grammar is written as recursive functions over the engine (see
//! `sexpr`) rather than as a self-referential parser value. Second, a
//! repetition combinator whose round succeeds while consuming nothing ends
//! the repetition instead of repeating that round forever; repetition
//! bodies should consume input.


pub mod consumers;
pub mod context;
pub mod interp;
pub mod laws;
pub mod parser;
pub mod result;
pub mod semantics;
pub mod sexpr;
pub mod value;
