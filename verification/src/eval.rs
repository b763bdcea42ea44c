//! The stack evaluator: walks a parsed token list in reverse order over a
//! value stack.

use vstd::prelude::*;

use crate::builtins::apply_builtin;
use crate::builtins::builtin_effect;
use crate::builtins::builtin_of;
use crate::builtins::Builtins;
use crate::builtins::BuiltinOp;
use crate::types::ops_model;
use crate::types::stack_model;
use crate::types::AeplStack;
use crate::types::Op;
use crate::types::OpModel;
use crate::types::Value;
use crate::types::ValueModel;

verus! {

/// The effect of one token on the model of the stack: a literal is pushed; an
/// identifier with a registered builtin applies it; an unknown identifier
/// leaves the stack unchanged.
pub open spec fn step_effect(op: OpModel, st: Seq<ValueModel>) -> Seq<ValueModel> {
    match op {
        OpModel::Literal(l) => st.push(ValueModel::Literal(l)),
        OpModel::Identifier(id) => match builtin_of(id) {
            Some(b) => builtin_effect(b, st),
            None => st,
        },
    }
}

/// Evaluation of a token list in reverse order: the last token is applied
/// first, then the one before it, down to the first.
pub open spec fn eval_model(ops: Seq<OpModel>, st: Seq<ValueModel>) -> Seq<ValueModel>
    decreases ops.len(),
{
    if ops.len() == 0 {
        st
    } else {
        eval_model(ops.drop_last(), step_effect(ops.last(), st))
    }
}

/// Forward (postfix / RPN) evaluation of a token list: the first token is
/// applied first.
pub open spec fn eval_model_forward(ops: Seq<OpModel>, st: Seq<ValueModel>) -> Seq<ValueModel>
    decreases ops.len(),
{
    if ops.len() == 0 {
        st
    } else {
        eval_model_forward(ops.drop_first(), step_effect(ops.first(), st))
    }
}

/// Reverse-order evaluation law: evaluating a token list in reverse order is
/// exactly forward postfix evaluation of the reversed list. This is what makes
/// the prefix surface syntax evaluate with standard stack-machine semantics.
pub proof fn lemma_eval_reverse_is_rpn(ops: Seq<OpModel>, st: Seq<ValueModel>)
    ensures
        eval_model(ops, st) == eval_model_forward(ops.reverse(), st),
    decreases ops.len(),
{
    if ops.len() > 0 {
        assert(ops.reverse().first() == ops.last());
        assert(ops.reverse().drop_first() =~= ops.drop_last().reverse());
        lemma_eval_reverse_is_rpn(ops.drop_last(), step_effect(ops.last(), st));
    }
}

/// An identifier with no registered builtin is a no-op: dropping it from the
/// token list, wherever it stands, leaves the result of evaluation unchanged,
/// so one unknown identifier never keeps the remaining tokens from being
/// evaluated.
pub proof fn lemma_unknown_identifier_skipped(
    pre: Seq<OpModel>,
    id: Seq<char>,
    post: Seq<OpModel>,
    st: Seq<ValueModel>,
)
    requires
        builtin_of(id) is None,
    ensures
        eval_model(pre + seq![OpModel::Identifier(id)] + post, st) == eval_model(pre + post, st),
    decreases post.len(),
{
    let opv = OpModel::Identifier(id);
    if post.len() == 0 {
        assert(pre + seq![opv] + post =~= pre + seq![opv]);
        assert((pre + seq![opv]).drop_last() =~= pre);
        assert((pre + seq![opv]).last() == opv);
        assert(pre + post =~= pre);
        assert(step_effect(opv, st) == st);
    } else {
        let l = post.last();
        assert((pre + seq![opv] + post).last() == l);
        assert((pre + seq![opv] + post).drop_last() =~= pre + seq![opv] + post.drop_last());
        assert((pre + post).last() == l);
        assert((pre + post).drop_last() =~= pre + post.drop_last());
        lemma_unknown_identifier_skipped(pre, id, post.drop_last(), step_effect(l, st));
    }
}

/// Evaluate a parsed token list over the given stack, consulting the builtin
/// registry: the token list is walked in reverse order, literals are pushed,
/// identifiers dispatch to their builtin, and unknown identifiers are skipped.
pub fn eval_ops(stack: &mut AeplStack, ops: Vec<Op>, builtins: &Builtins)
    requires
        builtins.wf(),
    ensures
        stack_model(final(stack)@) == eval_model(ops_model(ops@), stack_model(old(stack)@)),
{
    let ghost all_ops = ops_model(ops@);
    let ghost st0 = stack_model(stack@);
    let mut rest = ops;
    while rest.len() > 0
        invariant
            builtins.wf(),
            eval_model(all_ops, st0) == eval_model(ops_model(rest@), stack_model(stack@)),
        decreases rest@.len(),
    {
        let ghost prev_rest = rest@;
        let ghost prev_stack = stack_model(stack@);
        let op = rest.pop().unwrap();
        proof {
            assert(ops_model(prev_rest).drop_last() =~= ops_model(rest@));
            assert(ops_model(prev_rest).last() == op@);
        }
        match op {
            Op::Literal(lit) => {
                stack.push(Value::Literal(lit));
                proof {
                    assert(stack_model(stack@) =~= step_effect(
                        OpModel::Literal(lit@),
                        prev_stack,
                    ));
                }
            },
            Op::Identifier(id) => {
                match builtins.lookup(&id) {
                    Some(b) => {
                        apply_builtin(b, stack);
                    },
                    None => {
                    },
                }
            },
        }
    }
    proof {
        assert(ops_model(rest@) =~= Seq::<OpModel>::empty());
    }
}

} // verus!
