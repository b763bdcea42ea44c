//! The builtin registry: a fixed, read-only table from single-code-point
//! identifiers to stack operations.

use vstd::prelude::*;

use crate::types::char_to_string;
use crate::types::stack_model;
use crate::types::AeplStack;
use crate::types::Literal;
use crate::types::LiteralModel;
use crate::types::Value;
use crate::types::ValueModel;

verus! {

/// Identifier of the multiply builtin (heavy multiplication x).
pub const MULTIPLY_ID: char = '\u{2716}';

/// Identifier of the add builtin (heavy plus sign).
pub const ADD_ID: char = '\u{2795}';

/// Identifier of the subtract builtin (heavy minus sign).
pub const SUBTRACT_ID: char = '\u{2796}';

/// Identifier of the discard builtin (party popper).
pub const DISCARD_ID: char = '\u{1F389}';

/// The builtin stack operations of the core language.
#[derive(Debug, Clone, Copy, PartialEq, Eq, Structural)]
pub enum BuiltinOp {
    Multiply,
    Add,
    Subtract,
    Discard,
}

/// The name-to-operation table of the core language: which builtin, if any, a
/// given identifier denotes.
pub open spec fn builtin_of(id: Seq<char>) -> Option<BuiltinOp> {
    if id == seq![MULTIPLY_ID] {
        Some(BuiltinOp::Multiply)
    } else if id == seq![ADD_ID] {
        Some(BuiltinOp::Add)
    } else if id == seq![SUBTRACT_ID] {
        Some(BuiltinOp::Subtract)
    } else if id == seq![DISCARD_ID] {
        Some(BuiltinOp::Discard)
    } else {
        None
    }
}

/// The integer an arithmetic builtin pushes: the wrapping 64-bit product, sum
/// or difference of its operands (the first popped operand is the right one).
pub open spec fn arith_result(b: BuiltinOp, x: i64, y: i64) -> i64 {
    match b {
        BuiltinOp::Multiply => vstd::wrapping::i64_specs::wrapping_mul(x, y),
        BuiltinOp::Add => vstd::wrapping::i64_specs::wrapping_add(x, y),
        _ => vstd::wrapping::i64_specs::wrapping_sub(x, y),
    }
}

/// The effect of one builtin on the model of the stack.
///
/// The arithmetic builtins pop two values and, when both are integers, push
/// the 64-bit wrapping result of the operation; when either operand is not an
/// integer, the popped operands are dropped and nothing is pushed. With fewer
/// than two values on the stack they do nothing. Discard pops one value and
/// does nothing on an empty stack.
pub open spec fn builtin_effect(b: BuiltinOp, st: Seq<ValueModel>) -> Seq<ValueModel> {
    match b {
        BuiltinOp::Discard => if st.len() >= 1 {
            st.drop_last()
        } else {
            st
        },
        _ => if st.len() >= 2 {
            let rest = st.drop_last().drop_last();
            match (st[st.len() - 2], st.last()) {
                (
                    ValueModel::Literal(LiteralModel::Int(x)),
                    ValueModel::Literal(LiteralModel::Int(y)),
                ) => rest.push(ValueModel::Literal(LiteralModel::Int(arith_result(b, x, y)))),
                _ => rest,
            }
        } else {
            st
        },
    }
}

/// Pop two values; if both are integers, push their wrapping product.
fn multiply(stack: &mut AeplStack)
    ensures
        stack_model(final(stack)@) == builtin_effect(
            BuiltinOp::Multiply,
            stack_model(old(stack)@),
        ),
{
    if stack.len() >= 2 {
        let b = stack.pop().unwrap();
        let a = stack.pop().unwrap();
        proof {
            assert(stack_model(old(stack)@.drop_last().drop_last()) =~= stack_model(
                old(stack)@,
            ).drop_last().drop_last());
        }
        if let (Value::Literal(Literal::Int(x)), Value::Literal(Literal::Int(y))) = (&a, &b) {
            stack.push(Value::Literal(Literal::Int((*x).wrapping_mul(*y))));
        }
        proof {
            assert(stack_model(final(stack)@) =~= builtin_effect(
                BuiltinOp::Multiply,
                stack_model(old(stack)@),
            ));
        }
    }
}

/// Pop two values; if both are integers, push their wrapping sum.
fn add(stack: &mut AeplStack)
    ensures
        stack_model(final(stack)@) == builtin_effect(BuiltinOp::Add, stack_model(old(stack)@)),
{
    if stack.len() >= 2 {
        let b = stack.pop().unwrap();
        let a = stack.pop().unwrap();
        proof {
            assert(stack_model(old(stack)@.drop_last().drop_last()) =~= stack_model(
                old(stack)@,
            ).drop_last().drop_last());
        }
        if let (Value::Literal(Literal::Int(x)), Value::Literal(Literal::Int(y))) = (&a, &b) {
            stack.push(Value::Literal(Literal::Int((*x).wrapping_add(*y))));
        }
        proof {
            assert(stack_model(final(stack)@) =~= builtin_effect(
                BuiltinOp::Add,
                stack_model(old(stack)@),
            ));
        }
    }
}

/// Pop two values; if both are integers, push their wrapping difference.
fn subtract(stack: &mut AeplStack)
    ensures
        stack_model(final(stack)@) == builtin_effect(
            BuiltinOp::Subtract,
            stack_model(old(stack)@),
        ),
{
    if stack.len() >= 2 {
        let b = stack.pop().unwrap();
        let a = stack.pop().unwrap();
        proof {
            assert(stack_model(old(stack)@.drop_last().drop_last()) =~= stack_model(
                old(stack)@,
            ).drop_last().drop_last());
        }
        if let (Value::Literal(Literal::Int(x)), Value::Literal(Literal::Int(y))) = (&a, &b) {
            stack.push(Value::Literal(Literal::Int((*x).wrapping_sub(*y))));
        }
        proof {
            assert(stack_model(final(stack)@) =~= builtin_effect(
                BuiltinOp::Subtract,
                stack_model(old(stack)@),
            ));
        }
    }
}

/// Pop one value and drop it; on an empty stack do nothing.
fn pop(stack: &mut AeplStack)
    ensures
        stack_model(final(stack)@) == builtin_effect(
            BuiltinOp::Discard,
            stack_model(old(stack)@),
        ),
{
    if stack.len() >= 1 {
        stack.pop();
        proof {
            assert(stack_model(final(stack)@) =~= stack_model(old(stack)@).drop_last());
        }
    }
}

/// Invoke one builtin with exclusive mutable access to the stack.
pub fn apply_builtin(b: BuiltinOp, stack: &mut AeplStack)
    ensures
        stack_model(final(stack)@) == builtin_effect(b, stack_model(old(stack)@)),
{
    match b {
        BuiltinOp::Multiply => multiply(stack),
        BuiltinOp::Add => crate::builtins::add(stack),
        BuiltinOp::Subtract => subtract(stack),
        BuiltinOp::Discard => pop(stack),
    }
}

/// The builtin registry: the explicitly constructed, immutable
/// name-to-operation table, built once and then only read.
pub struct Builtins {
    entries: Vec<(String, BuiltinOp)>,
}

impl Builtins {
    /// The registry holds exactly the four builtins of the core language,
    /// each under its own identifier.
    pub closed spec fn wf(&self) -> bool {
        &&& self.entries@.len() == 4
        &&& self.entries@[0].0@ == seq![MULTIPLY_ID]
        &&& self.entries@[0].1 == BuiltinOp::Multiply
        &&& self.entries@[1].0@ == seq![ADD_ID]
        &&& self.entries@[1].1 == BuiltinOp::Add
        &&& self.entries@[2].0@ == seq![SUBTRACT_ID]
        &&& self.entries@[2].1 == BuiltinOp::Subtract
        &&& self.entries@[3].0@ == seq![DISCARD_ID]
        &&& self.entries@[3].1 == BuiltinOp::Discard
    }

    /// Look an identifier up in the registry: exactly the table
    /// [`builtin_of`].
    pub fn lookup(&self, id: &String) -> (r: Option<BuiltinOp>)
        requires
            self.wf(),
        ensures
            r == builtin_of(id@),
    {
        proof {
            lemma_singleton_seq_neq(MULTIPLY_ID, ADD_ID);
            lemma_singleton_seq_neq(MULTIPLY_ID, SUBTRACT_ID);
            lemma_singleton_seq_neq(MULTIPLY_ID, DISCARD_ID);
            lemma_singleton_seq_neq(ADD_ID, SUBTRACT_ID);
            lemma_singleton_seq_neq(ADD_ID, DISCARD_ID);
            lemma_singleton_seq_neq(SUBTRACT_ID, DISCARD_ID);
        }
        let mut k: usize = 0;
        while k < self.entries.len()
            invariant
                self.wf(),
                k <= self.entries@.len(),
                forall|m: int| 0 <= m < k ==> self.entries@[m].0@ != id@,
            decreases self.entries@.len() - k,
        {
            if self.entries[k].0 == *id {
                return Some(self.entries[k].1);
            }
            k = k + 1;
        }
        None
    }
}

/// Two one-character strings with different characters differ.
proof fn lemma_singleton_seq_neq(a: char, b: char)
    requires
        a != b,
    ensures
        seq![a] != seq![b],
{
    assert(seq![a][0] == a);
    assert(seq![b][0] == b);
}

/// Build the builtin registry of the core language.
pub fn get_builtins() -> (r: Builtins)
    ensures
        r.wf(),
{
    let mut entries: Vec<(String, BuiltinOp)> = Vec::new();
    entries.push((char_to_string(MULTIPLY_ID), BuiltinOp::Multiply));
    entries.push((char_to_string(ADD_ID), BuiltinOp::Add));
    entries.push((char_to_string(SUBTRACT_ID), BuiltinOp::Subtract));
    entries.push((char_to_string(DISCARD_ID), BuiltinOp::Discard));
    Builtins { entries }
}

} // verus!
