//! The dynamic result value of a parse, and its mathematical model.
//!
//! The engine is untyped: every parser yields a `Value`. `Vl` is the
//! spec-level model of a `Value`, built from `Seq` and `int` so that
//! contracts can speak of values without naming heap containers.

use vstd::prelude::*;
use vstd::std_specs::vec::axiom_vec_index_decreases;

verus! {

broadcast use vstd::std_specs::vec::axiom_vec_index_decreases;


/// Spec-level model of a parse result value.
pub enum Vl {
    Unit,
    Char(char),
    Bool(bool),
    Int(int),
    Text(Seq<char>),
    List(Seq<Vl>),
    Pair(Box<Vl>, Box<Vl>),
}

/// A value produced by a parser: the engine is untyped, so one enum
/// covers every primitive and combinator result shape.
pub enum Value {
    /// No information; produced by `eos`.
    Unit,
    /// A single character.
    Char(char),
    /// A boolean literal.
    Bool(bool),
    /// A signed integer.
    Int(i64),
    /// A run of characters.
    Text(Vec<char>),
    /// An ordered sequence of values, from a repetition combinator.
    List(Vec<Value>),
    /// Two values in order, from a pairing combinator.
    Pair(Box<Value>, Box<Value>),
}

/// The model of a `Value`: containers become sequences, machine integers
/// become mathematical ones.
pub open spec fn vl_of(v: Value) -> Vl
    decreases v,
{
    match v {
        Value::Unit => Vl::Unit,
        Value::Char(c) => Vl::Char(c),
        Value::Bool(b) => Vl::Bool(b),
        Value::Int(i) => Vl::Int(i as int),
        Value::Text(t) => Vl::Text(t@),
        Value::List(vs) => Vl::List(vl_seq(vs@)),
        Value::Pair(a, b) => Vl::Pair(Box::new(vl_of(*a)), Box::new(vl_of(*b))),
    }
}

/// Model of a sequence of values, element by element.
pub open spec fn vl_seq(vs: Seq<Value>) -> Seq<Vl>
    decreases vs,
{
    if vs.len() == 0 {
        Seq::empty()
    } else {
        seq![vl_of(vs[0])] + vl_seq(vs.drop_first())
    }
}

/// `vl_of` on a single character, stated for broadcast use: the model of a
/// character value is that character.
pub broadcast proof fn vl_of_char(c: char)
    ensures
        #[trigger] vl_of(Value::Char(c)) == Vl::Char(c),
{
}

impl View for Value {
    type V = Vl;

    open spec fn view(&self) -> Vl {
        vl_of(*self)
    }
}

/// `vl_seq` distributes over pushing one element at the back.
pub proof fn lemma_vl_seq_push(vs: Seq<Value>, v: Value)
    ensures
        vl_seq(vs.push(v)) == vl_seq(vs) + seq![vl_of(v)],
    decreases vs,
{
    if vs.len() == 0 {
        let p = vs.push(v);
        assert(p.drop_first() =~= Seq::<Value>::empty());
        assert(p[0] == v);
        assert(vl_seq(p.drop_first()) =~= Seq::<Vl>::empty());
        assert(vl_seq(p) =~= seq![vl_of(v)]);
        assert(vl_seq(vs) + seq![vl_of(v)] =~= seq![vl_of(v)]);
    } else {
        assert(vs.push(v).drop_first() =~= vs.drop_first().push(v));
        lemma_vl_seq_push(vs.drop_first(), v);
        assert(vl_seq(vs.push(v)) =~= vl_seq(vs) + seq![vl_of(v)]);
    }
}

/// `vl_seq` element by element.
pub proof fn lemma_vl_seq_len(vs: Seq<Value>)
    ensures
        vl_seq(vs).len() == vs.len(),
        forall|i: int| 0 <= i < vs.len() ==> vl_seq(vs)[i] == vl_of(vs[i]),
    decreases vs,
{
    if vs.len() > 0 {
        lemma_vl_seq_len(vs.drop_first());
    }
}

impl Value {
    /// A structural copy whose model is the same.
    #[verifier::loop_isolation(false)]
    pub fn duplicate(&self) -> (r: Value)
        ensures
            vl_of(r) == vl_of(*self),
        decreases self,
    {
        match self {
            Value::Unit => Value::Unit,
            Value::Char(c) => Value::Char(*c),
            Value::Bool(b) => Value::Bool(*b),
            Value::Int(i) => Value::Int(*i),
            Value::Text(t) => Value::Text(copy_chars(t)),
            Value::List(vs) => {
                let mut out: Vec<Value> = Vec::new();
                let mut i: usize = 0;
                while i < vs.len()
                    invariant
                        i <= vs.len(),
                        out@.len() == i as int,
                        vl_seq(out@) =~= vl_seq(vs@.subrange(0, i as int)),
                    decreases vs.len() - i,
                {
                    proof {
                        assert(vs@ == self->List_0@);
                        assert(decreases_to!(*self => self->List_0));
                        axiom_vec_index_decreases(*vs, i as int);
                        assert(decreases_to!(*self => vs@[i as int]));
                    }
                    let d = vs[i].duplicate();
                    proof {
                        lemma_vl_seq_push(out@, d);
                        lemma_vl_seq_push(vs@.subrange(0, i as int), vs@[i as int]);
                        assert(vs@.subrange(0, i as int).push(vs@[i as int]) =~= vs@.subrange(
                            0,
                            i as int + 1,
                        ));
                    }
                    out.push(d);
                    i = i + 1;
                }
                proof {
                    assert(vs@.subrange(0, vs@.len() as int) =~= vs@);
                }
                Value::List(out)
            },
            Value::Pair(a, b) => Value::Pair(Box::new(a.duplicate()), Box::new(b.duplicate())),
        }
    }
}

/// A fresh vector with the same characters.
pub fn copy_chars(t: &Vec<char>) -> (r: Vec<char>)
    ensures
        r@ == t@,
{
    let mut out: Vec<char> = Vec::new();
    let mut i: usize = 0;
    while i < t.len()
        invariant
            i <= t.len(),
            out@ =~= t@.subrange(0, i as int),
        decreases t.len() - i,
    {
        out.push(t[i]);
        i = i + 1;
    }
    proof {
        assert(t@.subrange(0, t@.len() as int) =~= t@);
    }
    out
}

} // verus!
