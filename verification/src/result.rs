//! The error model: a position and a message, the only error the engine
//! produces. A failed parse is always reported at a position no greater
//! than the input length.

use vstd::prelude::*;

verus! {

/// A parse failure: where it happened and what was expected.
pub struct Error {
    pub pos: usize,
    pub msg: Vec<char>,
}

/// The fixed message for reading past the end of the input.
pub open spec fn eos_msg() -> Seq<char> {
    "end of stream"@
}

/// The characters of a string slice, in order.
///
/// Relies on `str::chars`: it yields exactly the characters of the string,
/// front to back, which `collect` gathers unchanged into a vector.
#[verifier::external_body]
pub fn text(s: &str) -> (r: Vec<char>)
    ensures
        r@ == s@,
{
    s.chars().collect()
}

impl Error {
    /// An error at `pos` carrying `msg`.
    pub fn new(pos: usize, msg: Vec<char>) -> (r: Error)
        ensures
            r.pos == pos,
            r.msg == msg,
    {
        Error { pos, msg }
    }

    /// The end-of-stream error at `pos`.
    pub fn eos(pos: usize) -> (r: Error)
        ensures
            r.pos == pos,
            r.msg@ == eos_msg(),
    {
        Error { pos, msg: text("end of stream") }
    }

    /// The rendered form `[<position>] <message>`.
    pub fn render(&self) -> (r: Vec<char>)
        ensures
            r@ == rendered(self.pos as nat, self.msg@),
    {
        let mut out: Vec<char> = Vec::new();
        out.push('[');
        let mut digits = usize_text(self.pos);
        out.append(&mut digits);
        out.push(']');
        out.push(' ');
        let mut i: usize = 0;
        while i < self.msg.len()
            invariant
                i <= self.msg.len(),
                out@ =~= seq!['['] + dec_text(self.pos as nat) + seq![']', ' '] + self.msg@.subrange(
                    0,
                    i as int,
                ),
            decreases self.msg.len() - i,
        {
            out.push(self.msg[i]);
            i = i + 1;
        }
        proof {
            assert(self.msg@.subrange(0, self.msg@.len() as int) =~= self.msg@);
            assert(out@ =~= rendered(self.pos as nat, self.msg@));
        }
        out
    }
}

/// The rendered form of an error: `[<position>] <message>`.
pub open spec fn rendered(pos: nat, msg: Seq<char>) -> Seq<char> {
    seq!['['] + dec_text(pos) + seq![']', ' '] + msg
}

/// The decimal digit character for `d`.
pub open spec fn digit_ch(d: nat) -> char
    recommends
        d < 10,
{
    (('0' as u8) + d) as char
}

/// The decimal text of a natural number, most significant digit first.
pub open spec fn dec_text(n: nat) -> Seq<char>
    decreases n,
{
    if n < 10 {
        seq![digit_ch(n)]
    } else {
        dec_text(n / 10) + seq![digit_ch(n % 10)]
    }
}

/// The decimal digit character for `d`, as executable code.
fn digit_char(d: usize) -> (r: char)
    requires
        d < 10,
    ensures
        r == digit_ch(d as nat),
{
    (('0' as u8) + (d as u8)) as char
}

/// The decimal text of a number, most significant digit first.
pub fn usize_text(n: usize) -> (r: Vec<char>)
    ensures
        r@ == dec_text(n as nat),
    decreases n,
{
    if n < 10 {
        let mut out: Vec<char> = Vec::new();
        out.push(digit_char(n));
        proof {
            assert(out@ =~= dec_text(n as nat));
        }
        out
    } else {
        let mut out = usize_text(n / 10);
        out.push(digit_char(n % 10));
        proof {
            assert(out@ =~= dec_text(n as nat));
        }
        out
    }
}

} // verus!
