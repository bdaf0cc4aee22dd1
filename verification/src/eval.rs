//! The evaluator: a tree walk over the syntax tree with a mutable variable
//! environment.
//!
//! The evaluator performs no I/O itself. Each `print` and each `wait` is
//! recorded, in source order, as one entry of an effect trace; a host
//! replays the trace, writing each printed value as a line and blocking for
//! each wait. Errors abort the whole evaluation immediately.

use vstd::prelude::*;

use crate::environment::Environment;
use crate::node::{nodes_view, Node, NodeV};

verus! {

/// One observable side effect, in the order the program performs them.
#[derive(Debug, Clone, Copy, PartialEq, Eq, Structural)]
pub enum Effect {
    /// One line of output: the decimal value followed by a newline.
    Print(i32),
    /// A blocking delay of the given number of seconds.
    Wait(i32),
}

/// How evaluation can fail. Every failure is fatal: it aborts the whole
/// run with no partial result.
#[derive(Debug, Clone, Copy, PartialEq, Eq, Structural)]
pub enum EvalError {
    /// A variable was referenced before any declaration bound it.
    UndefinedVariable,
    /// A division whose divisor evaluated to zero.
    DivisionByZero,
    /// An arithmetic result outside the supported integer range.
    Overflow,
}

/// The outcome of a successful evaluation: the value produced, the
/// environment as the evaluation left it, and the ordered effect trace.
pub struct Evaluation {
    pub value: i32,
    pub env: Map<Seq<char>, i32>,
    pub effects: Seq<Effect>,
}

/// Division as the machine division operator behaves: the quotient of the
/// magnitudes, truncated toward zero, with the sign of the true quotient.
pub open spec fn trunc_div(a: int, b: int) -> int
    recommends
        b != 0,
{
    if (a < 0) != (b < 0) {
        -((vstd::math::abs(a) as int) / (vstd::math::abs(b) as int))
    } else {
        (vstd::math::abs(a) as int) / (vstd::math::abs(b) as int)
    }
}

/// Whether an unbounded result fits the supported integer range.
pub open spec fn fits(v: int) -> bool {
    i32::MIN <= v <= i32::MAX
}

/// What a node evaluates to in a given environment: its value, the
/// environment it leaves behind, and its effect trace — or the error that
/// aborts the run. Operands are evaluated left first, then right, for every
/// binary operator; a division checks its divisor only after both operands
/// have run.
pub open spec fn eval_spec(n: NodeV, env: Map<Seq<char>, i32>) -> Result<Evaluation, EvalError>
    decreases n,
{
    match n {
        NodeV::Number(v) => Ok(Evaluation { value: v, env, effects: Seq::empty() }),
        NodeV::Variable(name) => if env.contains_key(name) {
            Ok(Evaluation { value: env[name], env, effects: Seq::empty() })
        } else {
            Err(EvalError::UndefinedVariable)
        },
        NodeV::Add(l, r) => match eval_spec(*l, env) {
            Ok(left) => match eval_spec(*r, left.env) {
                Ok(right) => if fits(left.value + right.value) {
                    Ok(
                        Evaluation {
                            value: (left.value + right.value) as i32,
                            env: right.env,
                            effects: left.effects + right.effects,
                        },
                    )
                } else {
                    Err(EvalError::Overflow)
                },
                Err(e) => Err(e),
            },
            Err(e) => Err(e),
        },
        NodeV::Subtract(l, r) => match eval_spec(*l, env) {
            Ok(left) => match eval_spec(*r, left.env) {
                Ok(right) => if fits(left.value - right.value) {
                    Ok(
                        Evaluation {
                            value: (left.value - right.value) as i32,
                            env: right.env,
                            effects: left.effects + right.effects,
                        },
                    )
                } else {
                    Err(EvalError::Overflow)
                },
                Err(e) => Err(e),
            },
            Err(e) => Err(e),
        },
        NodeV::Multiply(l, r) => match eval_spec(*l, env) {
            Ok(left) => match eval_spec(*r, left.env) {
                Ok(right) => if fits(left.value * right.value) {
                    Ok(
                        Evaluation {
                            value: (left.value * right.value) as i32,
                            env: right.env,
                            effects: left.effects + right.effects,
                        },
                    )
                } else {
                    Err(EvalError::Overflow)
                },
                Err(e) => Err(e),
            },
            Err(e) => Err(e),
        },
        NodeV::Divide(l, r) => match eval_spec(*l, env) {
            Ok(left) => match eval_spec(*r, left.env) {
                Ok(right) => if right.value == 0 {
                    Err(EvalError::DivisionByZero)
                } else if fits(trunc_div(left.value as int, right.value as int)) {
                    Ok(
                        Evaluation {
                            value: trunc_div(left.value as int, right.value as int) as i32,
                            env: right.env,
                            effects: left.effects + right.effects,
                        },
                    )
                } else {
                    Err(EvalError::Overflow)
                },
                Err(e) => Err(e),
            },
            Err(e) => Err(e),
        },
        NodeV::Wait(v) => Ok(Evaluation { value: 0, env, effects: seq![Effect::Wait(v)] }),
        NodeV::Print(e) => match eval_spec(*e, env) {
            Ok(inner) => Ok(
                Evaluation {
                    value: 0,
                    env: inner.env,
                    effects: inner.effects.push(Effect::Print(inner.value)),
                },
            ),
            Err(er) => Err(er),
        },
        NodeV::Sequence(items) => eval_seq_spec(items, env),
        NodeV::VariableDeclaration(name, e) => match eval_spec(*e, env) {
            Ok(inner) => Ok(
                Evaluation {
                    value: inner.value,
                    env: inner.env.insert(name, inner.value),
                    effects: inner.effects,
                },
            ),
            Err(er) => Err(er),
        },
    }
}

/// What a statement list evaluates to: each entry runs in order, threading
/// the environment through and concatenating the effect traces; the value
/// is the last entry's value, or zero for an empty list.
pub open spec fn eval_seq_spec(items: Seq<NodeV>, env: Map<Seq<char>, i32>) -> Result<
    Evaluation,
    EvalError,
>
    decreases items,
{
    if items.len() == 0 {
        Ok(Evaluation { value: 0, env, effects: Seq::empty() })
    } else {
        match eval_spec(items[0], env) {
            Ok(first) => match eval_seq_spec(items.drop_first(), first.env) {
                Ok(rest) => Ok(
                    Evaluation {
                        value: if items.len() == 1 {
                            first.value
                        } else {
                            rest.value
                        },
                        env: rest.env,
                        effects: first.effects + rest.effects,
                    },
                ),
                Err(e) => Err(e),
            },
            Err(e) => Err(e),
        }
    }
}

/// Continuing a partly evaluated statement list: the effects already
/// recorded, the value of the last statement already run, the environment
/// as it stands, and the statements still to run.
pub open spec fn seq_resume(
    done: Seq<Effect>,
    last: i32,
    env: Map<Seq<char>, i32>,
    remaining: Seq<NodeV>,
) -> Result<Evaluation, EvalError> {
    match eval_seq_spec(remaining, env) {
        Ok(rest) => Ok(
            Evaluation {
                value: if remaining.len() == 0 {
                    last
                } else {
                    rest.value
                },
                env: rest.env,
                effects: done + rest.effects,
            },
        ),
        Err(e) => Err(e),
    }
}

/// The division step alone: machine division truncates toward zero, a zero
/// divisor is an error of its own, and a quotient outside the integer
/// range overflows.
fn divide_values(left: i32, right: i32) -> (r: Result<i32, EvalError>)
    ensures
        r == (if right == 0 {
            Err::<i32, EvalError>(EvalError::DivisionByZero)
        } else if fits(trunc_div(left as int, right as int)) {
            Ok::<i32, EvalError>(trunc_div(left as int, right as int) as i32)
        } else {
            Err::<i32, EvalError>(EvalError::Overflow)
        }),
{
    if right == 0 {
        return Err(EvalError::DivisionByZero);
    }
    match left.checked_div(right) {
        Some(v) => Ok(v),
        None => Err(EvalError::Overflow),
    }
}

/// Evaluates a node: yields its value, threads declarations through
/// `variables`, and appends the node's side effects to `effects` in source
/// order. On an error the evaluation stops at once; `effects` then still
/// extends its old contents, holding whatever was recorded before the
/// error.
pub fn evaluate(node: &Node, variables: &mut Environment, effects: &mut Vec<Effect>) -> (r: Result<
    i32,
    EvalError,
>)
    ensures
        match r {
            Ok(v) => {
                &&& eval_spec(node@, old(variables)@) is Ok
                &&& eval_spec(node@, old(variables)@) matches Ok(ev) ==> {
                    &&& ev.value == v
                    &&& final(variables)@ == ev.env
                    &&& final(effects)@ == old(effects)@ + ev.effects
                }
            },
            Err(e) => {
                &&& eval_spec(node@, old(variables)@) == Err::<Evaluation, EvalError>(e)
                &&& old(effects)@.is_prefix_of(final(effects)@)
            },
        },
    decreases node,
{
    match node {
        Node::Number(v) => {
            proof {
                assert(final(effects)@ =~= old(effects)@ + Seq::<Effect>::empty());
            }
            Ok(*v)
        },
        Node::Variable(name) => {
            match variables.get(name) {
                Some(v) => {
                    proof {
                        assert(final(effects)@ =~= old(effects)@ + Seq::<Effect>::empty());
                    }
                    Ok(v)
                },
                None => Err(EvalError::UndefinedVariable),
            }
        },
        Node::Add(l, r) => {
            let left = match evaluate(l, variables, effects) {
                Ok(v) => v,
                Err(e) => {
                    return Err(e);
                },
            };
            let right = match evaluate(r, variables, effects) {
                Ok(v) => v,
                Err(e) => {
                    return Err(e);
                },
            };
            match left.checked_add(right) {
                Some(v) => Ok(v),
                None => Err(EvalError::Overflow),
            }
        },
        Node::Subtract(l, r) => {
            let left = match evaluate(l, variables, effects) {
                Ok(v) => v,
                Err(e) => {
                    return Err(e);
                },
            };
            let right = match evaluate(r, variables, effects) {
                Ok(v) => v,
                Err(e) => {
                    return Err(e);
                },
            };
            match left.checked_sub(right) {
                Some(v) => Ok(v),
                None => Err(EvalError::Overflow),
            }
        },
        Node::Multiply(l, r) => {
            let left = match evaluate(l, variables, effects) {
                Ok(v) => v,
                Err(e) => {
                    return Err(e);
                },
            };
            let right = match evaluate(r, variables, effects) {
                Ok(v) => v,
                Err(e) => {
                    return Err(e);
                },
            };
            match left.checked_mul(right) {
                Some(v) => Ok(v),
                None => Err(EvalError::Overflow),
            }
        },
        Node::Divide(l, r) => {
            let left = match evaluate(l, variables, effects) {
                Ok(v) => v,
                Err(e) => {
                    return Err(e);
                },
            };
            let right = match evaluate(r, variables, effects) {
                Ok(v) => v,
                Err(e) => {
                    return Err(e);
                },
            };
            divide_values(left, right)
        },
        Node::Wait(v) => {
            effects.push(Effect::Wait(*v));
            proof {
                assert(final(effects)@ =~= old(effects)@ + seq![Effect::Wait(*v)]);
            }
            Ok(0)
        },
        Node::Print(e) => {
            let v = match evaluate(e, variables, effects) {
                Ok(v) => v,
                Err(er) => {
                    return Err(er);
                },
            };
            effects.push(Effect::Print(v));
            Ok(0)
        },
        Node::VariableDeclaration(name, e) => {
            let v = match evaluate(e, variables, effects) {
                Ok(v) => v,
                Err(er) => {
                    return Err(er);
                },
            };
            variables.insert(name.clone(), v);
            Ok(v)
        },
        Node::Sequence(items) => {
            proof {
                crate::node::lemma_sequence_view(*items);
            }
            evaluate_sequence(items, variables, effects)
        },
    }
}

/// Evaluates the entries of a statement list in order, threading the
/// environment through and recording effects as it goes; the result is the
/// last entry's value, or zero for an empty list.
#[verifier::loop_isolation(false)]
fn evaluate_sequence(items: &Vec<Node>, variables: &mut Environment, effects: &mut Vec<
    Effect,
>) -> (r: Result<i32, EvalError>)
    ensures
        match r {
            Ok(v) => {
                &&& eval_seq_spec(nodes_view(items@), old(variables)@) is Ok
                &&& eval_seq_spec(nodes_view(items@), old(variables)@) matches Ok(ev) ==> {
                    &&& ev.value == v
                    &&& final(variables)@ == ev.env
                    &&& final(effects)@ == old(effects)@ + ev.effects
                }
            },
            Err(e) => {
                &&& eval_seq_spec(nodes_view(items@), old(variables)@) == Err::<
                    Evaluation,
                    EvalError,
                >(e)
                &&& old(effects)@.is_prefix_of(final(effects)@)
            },
        },
    decreases items,
{
    let ghost sv = nodes_view(items@);
    let mut last: i32 = 0;
            let mut i: usize = 0;
            proof {
                assert(sv.skip(0) =~= sv);
                assert(effects@.skip(old(effects)@.len() as int) =~= Seq::<Effect>::empty());
                if let Ok(rest) = eval_seq_spec(sv, old(variables)@) {
                    assert(Seq::<Effect>::empty() + rest.effects =~= rest.effects);
                }
            }
            while i < items.len()
                invariant
                    i <= items@.len(),
                    old(effects)@.is_prefix_of(effects@),
                    eval_seq_spec(sv, old(variables)@) == seq_resume(
                        effects@.skip(old(effects)@.len() as int),
                        last,
                        variables@,
                        sv.skip(i as int),
                    ),
                decreases items@.len() - i,
            {
                let ghost env_before = variables@;
                let ghost done_before = effects@.skip(old(effects)@.len() as int);
                let v = match evaluate(&items[i], variables, effects) {
                    Ok(v) => v,
                    Err(e) => {
                        proof {
                            assert(sv[i as int] == items@[i as int]@);
                            assert(sv.skip(i as int)[0] == sv[i as int]);
                            assert(old(effects)@ =~= effects@.subrange(
                                0,
                                old(effects)@.len() as int,
                            ));
                        }
                        return Err(e);
                    },
                };
                proof {
                    assert(sv[i as int] == items@[i as int]@);
                    assert(sv.skip(i as int)[0] == sv[i as int]);
                    assert(sv.skip(i as int).drop_first() =~= sv.skip(i as int + 1));
                    let ev = eval_spec(sv[i as int], env_before)->Ok_0;
                    assert(old(effects)@ =~= effects@.subrange(0, old(effects)@.len() as int));
                    assert(effects@.skip(old(effects)@.len() as int) =~= done_before + ev.effects);
                    if let Ok(rest2) = eval_seq_spec(sv.skip(i as int + 1), ev.env) {
                        assert(done_before + (ev.effects + rest2.effects) =~= (done_before
                            + ev.effects) + rest2.effects);
                    }
                }
                last = v;
                i = i + 1;
            }
            proof {
                assert(sv.skip(i as int) =~= Seq::<NodeV>::empty());
                assert(effects@.skip(old(effects)@.len() as int) + Seq::<Effect>::empty()
                    =~= effects@.skip(old(effects)@.len() as int));
                assert(old(effects)@ + effects@.skip(old(effects)@.len() as int) =~= effects@);
    }
    Ok(last)
}

} // verus!
