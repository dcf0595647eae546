//! The read head over one input: a character sequence and an offset.
//!
//! A `Context` is built once per top-level parse and owned by it. The
//! offset only moves forward, except that a failed parser invocation
//! restores it exactly (see `Parser::parse` in `interp`).

use vstd::prelude::*;

use crate::result::{eos_msg, text, Error};

verus! {

/// The input characters and the current read offset.
pub struct Context {
    pub input: Vec<char>,
    pub pos: usize,
}

impl Context {
    /// The offset never runs past the input.
    pub open spec fn wf(&self) -> bool {
        self.pos <= self.input.len()
    }

    /// The input as a sequence.
    pub open spec fn inp(&self) -> Seq<char> {
        self.input@
    }

    /// The current offset.
    pub open spec fn at(&self) -> nat {
        self.pos as nat
    }

    /// A read head over `input`, at its start.
    pub fn new(input: Vec<char>) -> (r: Context)
        ensures
            r.inp() == input@,
            r.at() == 0,
            r.wf(),
    {
        Context { input, pos: 0 }
    }

    /// A read head over the characters of `str`, at its start.
    pub fn from_str(str: &str) -> (r: Context)
        ensures
            r.inp() == str@,
            r.at() == 0,
            r.wf(),
    {
        Context::new(text(str))
    }

    /// The next character, advancing the offset by one; at the end of the
    /// stream, an end-of-stream error at the current offset, not advancing.
    pub fn next(&mut self) -> (r: Result<char, Error>)
        requires
            old(self).wf(),
        ensures
            final(self).wf(),
            final(self).inp() == old(self).inp(),
            match r {
                Ok(c) => old(self).at() < old(self).inp().len() && c == old(self).inp()[old(
                    self,
                ).at() as int] && final(self).at() == old(self).at() + 1,
                Err(e) => old(self).at() == old(self).inp().len() && final(self).at() == old(
                    self,
                ).at() && e.pos == old(self).pos && e.msg@ == eos_msg(),
            },
    {
        if self.pos < self.input.len() {
            let c = self.input[self.pos];
            self.pos = self.pos + 1;
            Ok(c)
        } else {
            Err(Error::eos(self.pos))
        }
    }

    /// An error at the current offset with the given message.
    pub fn throw_parser_err(&self, msg: Vec<char>) -> (r: Error)
        ensures
            r.pos == self.pos,
            r.msg == msg,
    {
        Error::new(self.pos, msg)
    }
}

} // verus!
