//! The data model: literals, parsed tokens, runtime values, and the stack.

use vstd::prelude::*;

verus! {

/// One literal, as recognized by the literal grammar.
///
/// A float literal is carried as the exact source text that matched the float
/// grammar (optional `-`, digits, `.`, digits). The verified core never
/// computes with floats — only integers take part in arithmetic — so the
/// decimal text, which determines the IEEE value, is the whole content of the
/// literal. The embedding program converts it when rendering.
#[derive(Debug, Clone, PartialEq)]
pub enum Literal {
    Int(i64),
    Float(String),
    Text(String),
}

/// Mathematical model of a [`Literal`]: text fields become character
/// sequences.
pub enum LiteralModel {
    Int(i64),
    Float(Seq<char>),
    Text(Seq<char>),
}

impl View for Literal {
    type V = LiteralModel;

    open spec fn view(&self) -> LiteralModel {
        match self {
            Literal::Int(i) => LiteralModel::Int(*i),
            Literal::Float(s) => LiteralModel::Float(s@),
            Literal::Text(s) => LiteralModel::Text(s@),
        }
    }
}

/// One parsed token: a literal, or a single-code-point identifier kept as a
/// one-character string.
#[derive(Debug, PartialEq)]
pub enum Op {
    Literal(Literal),
    Identifier(String),
}

/// Mathematical model of an [`Op`].
pub enum OpModel {
    Literal(LiteralModel),
    Identifier(Seq<char>),
}

impl View for Op {
    type V = OpModel;

    open spec fn view(&self) -> OpModel {
        match self {
            Op::Literal(l) => OpModel::Literal(l@),
            Op::Identifier(s) => OpModel::Identifier(s@),
        }
    }
}

/// One cell of the runtime stack. Kept distinct from [`Literal`] so that
/// runtime-only value kinds could be added without touching the grammar.
#[derive(Debug, Clone, PartialEq)]
pub enum Value {
    Literal(Literal),
}

/// Mathematical model of a [`Value`].
pub enum ValueModel {
    Literal(LiteralModel),
}

impl View for Value {
    type V = ValueModel;

    open spec fn view(&self) -> ValueModel {
        match self {
            Value::Literal(l) => ValueModel::Literal(l@),
        }
    }
}

/// The evaluator's value stack: last element is the top.
pub type AeplStack = Vec<Value>;

/// Relies on `String::push`: appends the given character to the end of the
/// string.
#[verifier::external_body]
pub(crate) fn push_char(s: &mut String, c: char)
    ensures
        final(s)@ == old(s)@.push(c),
{
    s.push(c);
}

/// A one-character string.
pub(crate) fn char_to_string(c: char) -> (r: String)
    ensures
        r@ == seq![c],
{
    let mut s = String::new();
    push_char(&mut s, c);
    proof {
        assert(Seq::<char>::empty().push(c) =~= seq![c]);
    }
    s
}

/// The model of a token list.
pub open spec fn ops_model(ops: Seq<Op>) -> Seq<OpModel> {
    ops.map_values(|op: Op| op@)
}

/// The model of a value stack.
pub open spec fn stack_model(vals: Seq<Value>) -> Seq<ValueModel> {
    vals.map_values(|v: Value| v@)
}

} // verus!
