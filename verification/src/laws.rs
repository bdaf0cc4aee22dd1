//! Laws of the pipeline, stated and proved over the specification
//! functions: how the lexer treats unsupported characters, when lexing is
//! total, and how a statement list orders its values and effects.

use vstd::prelude::*;

use crate::eval::{eval_seq_spec, eval_spec, EvalError, Evaluation, Effect};
use crate::lexer::{
    is_alpha, is_digit, is_symbol, lex_fold, lex_init, lex_spec, lex_step, LexState,
};
use crate::node::NodeV;
use crate::parser::{
    parse_spec, sp_expression, sp_expression_more, sp_factor, sp_program, sp_term, sp_term_more,
    ParseOut,
};
use crate::token::TokenV;

verus! {

/// Lexing a concatenation is lexing the first part, then the second from
/// the state the first part left.
proof fn lemma_lex_fold_append(st: LexState, a: Seq<char>, b: Seq<char>)
    ensures
        lex_fold(st, a + b) == (match lex_fold(st, a) {
            None => None,
            Some(st1) => lex_fold(st1, b),
        }),
    decreases b.len(),
{
    if b.len() == 0 {
        assert(a + b =~= a);
    } else {
        assert((a + b).drop_last() =~= a + b.drop_last());
        assert((a + b).last() == b.last());
        lemma_lex_fold_append(st, a, b.drop_last());
    }
}

/// Law: every character outside the supported alphabet is lexed exactly as
/// a space is — it flushes both buffers and emits nothing — so unsupported
/// characters never change the tokens emitted for the text around them.
pub proof fn lemma_unsupported_char_lexes_as_space(prefix: Seq<char>, suffix: Seq<char>, c: char)
    requires
        !is_digit(c),
        !is_alpha(c),
        !is_symbol(c),
    ensures
        lex_spec(prefix + seq![c] + suffix) == lex_spec(prefix + seq![' '] + suffix),
{
    lemma_lex_fold_append(lex_init(), prefix + seq![c], suffix);
    lemma_lex_fold_append(lex_init(), prefix + seq![' '], suffix);
    lemma_lex_fold_append(lex_init(), prefix, seq![c]);
    lemma_lex_fold_append(lex_init(), prefix, seq![' ']);
    assert(seq![c].drop_last() =~= Seq::<char>::empty());
    assert(seq![' '].drop_last() =~= Seq::<char>::empty());
    if let Some(st1) = lex_fold(lex_init(), prefix) {
        assert(lex_fold(st1, Seq::<char>::empty()) == Some(st1));
        assert(lex_fold(st1, seq![c]) == lex_step(st1, c));
        assert(lex_fold(st1, seq![' ']) == lex_step(st1, ' '));
        assert(lex_step(st1, c) == lex_step(st1, ' '));
    }
}

/// The fold keeps the digit buffer empty over digit-free text, and then
/// never fails.
proof fn lemma_lex_fold_no_digits(st: LexState, s: Seq<char>)
    requires
        st.num.len() == 0,
        forall|i: int| 0 <= i < s.len() ==> !is_digit(#[trigger] s[i]),
    ensures
        lex_fold(st, s) matches Some(st2) && st2.num.len() == 0,
    decreases s.len(),
{
    if s.len() > 0 {
        assert(forall|i: int| 0 <= i < s.drop_last().len() ==> !is_digit(#[trigger] s.drop_last()[i]));
        lemma_lex_fold_no_digits(st, s.drop_last());
    }
}

/// Law: lexing is total but for numeric overflow — on any text without
/// digits, whatever other characters it holds, lexing succeeds.
pub proof fn lemma_lex_total_without_digits(s: Seq<char>)
    requires
        forall|i: int| 0 <= i < s.len() ==> !is_digit(#[trigger] s[i]),
    ensures
        lex_spec(s) is Some,
{
    lemma_lex_fold_no_digits(lex_init(), s);
}

/// Law: a statement list runs in source order. Appending one more
/// statement runs it last, in the environment the earlier statements left;
/// the list's value becomes that statement's value; and its effects are
/// appended after the earlier effects, whose order is kept. An error in
/// the earlier statements stands regardless of what was appended.
pub proof fn lemma_sequence_runs_in_order(
    items: Seq<NodeV>,
    last_item: NodeV,
    env: Map<Seq<char>, i32>,
)
    ensures
        match eval_seq_spec(items, env) {
            Ok(prior) => eval_seq_spec(items.push(last_item), env) == (match eval_spec(
                last_item,
                prior.env,
            ) {
                Ok(fin) => Ok::<Evaluation, EvalError>(
                    Evaluation {
                        value: fin.value,
                        env: fin.env,
                        effects: prior.effects + fin.effects,
                    },
                ),
                Err(e) => Err::<Evaluation, EvalError>(e),
            }),
            Err(e) => eval_seq_spec(items.push(last_item), env) == Err::<Evaluation, EvalError>(e),
        },
    decreases items.len(),
{
    let pushed = items.push(last_item);
    if items.len() == 0 {
        assert(pushed[0] == last_item);
        assert(pushed.drop_first() =~= Seq::<NodeV>::empty());
        if let Ok(fin) = eval_spec(last_item, env) {
            assert(eval_seq_spec(Seq::<NodeV>::empty(), fin.env) == Ok::<Evaluation, EvalError>(
                Evaluation { value: 0, env: fin.env, effects: Seq::empty() },
            ));
            assert(fin.effects + Seq::<Effect>::empty() =~= fin.effects);
            assert(Seq::<Effect>::empty() + fin.effects =~= fin.effects);
            assert(eval_seq_spec(pushed, env) == Ok::<Evaluation, EvalError>(
                Evaluation { value: fin.value, env: fin.env, effects: fin.effects },
            ));
        }
    } else {
        assert(pushed[0] == items[0]);
        assert(pushed.len() == items.len() + 1);
        assert(pushed.drop_first() =~= items.drop_first().push(last_item));
        if let Ok(first) = eval_spec(items[0], env) {
            lemma_sequence_runs_in_order(items.drop_first(), last_item, first.env);
            match eval_seq_spec(items.drop_first(), first.env) {
                Ok(prior_rest) => {
                    let prior = Evaluation {
                        value: if items.len() == 1 {
                            first.value
                        } else {
                            prior_rest.value
                        },
                        env: prior_rest.env,
                        effects: first.effects + prior_rest.effects,
                    };
                    assert(eval_seq_spec(items, env) == Ok::<Evaluation, EvalError>(prior));
                    match eval_spec(last_item, prior_rest.env) {
                        Ok(fin) => {
                            assert(first.effects + (prior_rest.effects + fin.effects)
                                =~= (first.effects + prior_rest.effects) + fin.effects);
                            assert(eval_seq_spec(pushed, env) == Ok::<Evaluation, EvalError>(
                                Evaluation {
                                    value: fin.value,
                                    env: fin.env,
                                    effects: prior.effects + fin.effects,
                                },
                            ));
                        },
                        Err(e) => {
                            assert(eval_seq_spec(pushed.drop_first(), first.env)
                                == Err::<Evaluation, EvalError>(e));
                            assert(eval_seq_spec(pushed, env) == Err::<Evaluation, EvalError>(e));
                        },
                    }
                },
                Err(e) => {
                    assert(eval_seq_spec(items, env) == Err::<Evaluation, EvalError>(e));
                    assert(eval_seq_spec(pushed.drop_first(), first.env) == Err::<
                        Evaluation,
                        EvalError,
                    >(e));
                    assert(eval_seq_spec(pushed, env) == Err::<Evaluation, EvalError>(e));
                },
            }
        }
    }
}

/// Law: multiplication binds tighter than addition. For any three
/// literals, the token sequence `a + b * c` parses as `a + (b * c)`: the
/// multiplication is grouped under the right operand of the addition.
pub proof fn lemma_multiplication_binds_tighter(a: i32, b: i32, c: i32)
    ensures
        parse_spec(
            seq![
                TokenV::Number(a),
                TokenV::Plus,
                TokenV::Number(b),
                TokenV::Multiply,
                TokenV::Number(c),
            ],
        ) == ParseOut::Parsed(
            NodeV::Sequence(
                seq![
                    NodeV::Add(
                        Box::new(NodeV::Number(a)),
                        Box::new(
                            NodeV::Multiply(
                                Box::new(NodeV::Number(b)),
                                Box::new(NodeV::Number(c)),
                            ),
                        ),
                    ),
                ],
            ),
            5nat,
        ),
{
    let toks = seq![
        TokenV::Number(a),
        TokenV::Plus,
        TokenV::Number(b),
        TokenV::Multiply,
        TokenV::Number(c),
    ];
    let product = NodeV::Multiply(Box::new(NodeV::Number(b)), Box::new(NodeV::Number(c)));
    let sum = NodeV::Add(Box::new(NodeV::Number(a)), Box::new(product));
    assert(sp_factor(toks, 0) == ParseOut::Parsed(NodeV::Number(a), 1nat));
    assert(sp_term_more(toks, NodeV::Number(a), 1nat) == ParseOut::Parsed(NodeV::Number(a), 1nat));
    assert(sp_term(toks, 0) == ParseOut::Parsed(NodeV::Number(a), 1nat));
    assert(sp_factor(toks, 2) == ParseOut::Parsed(NodeV::Number(b), 3nat));
    assert(sp_factor(toks, 4) == ParseOut::Parsed(NodeV::Number(c), 5nat));
    assert(sp_term_more(toks, product, 5nat) == ParseOut::Parsed(product, 5nat));
    assert(sp_term_more(toks, NodeV::Number(b), 3nat) == ParseOut::Parsed(product, 5nat));
    assert(sp_term(toks, 2) == ParseOut::Parsed(product, 5nat));
    assert(sp_expression_more(toks, sum, 5nat) == ParseOut::Parsed(sum, 5nat));
    assert(sp_expression_more(toks, NodeV::Number(a), 1nat) == ParseOut::Parsed(sum, 5nat));
    assert(sp_expression(toks, 0) == ParseOut::Parsed(sum, 5nat));
    assert(sp_program(toks, 5nat, seq![sum]) == ParseOut::Parsed(NodeV::Sequence(seq![sum]), 5nat));
    assert(sp_program(toks, 0, Seq::empty()) == ParseOut::Parsed(NodeV::Sequence(seq![sum]), 5nat))
        by {
        assert(Seq::<NodeV>::empty().push(sum) =~= seq![sum]);
    };
}

/// Law: a `wait` statement stands in the trace before every effect of the
/// statements after it — whatever a host replays in trace order performs
/// the delay before their prints become observable.
pub proof fn lemma_wait_precedes_successor_effects(
    seconds: i32,
    rest: Seq<NodeV>,
    env: Map<Seq<char>, i32>,
)
    ensures
        eval_seq_spec(seq![NodeV::Wait(seconds)] + rest, env) == (match eval_seq_spec(rest, env) {
            Ok(after) => Ok::<Evaluation, EvalError>(
                Evaluation {
                    value: if rest.len() == 0 {
                        0
                    } else {
                        after.value
                    },
                    env: after.env,
                    effects: seq![Effect::Wait(seconds)] + after.effects,
                },
            ),
            Err(e) => Err::<Evaluation, EvalError>(e),
        }),
{
    let whole = seq![NodeV::Wait(seconds)] + rest;
    assert(whole.len() == 1 + rest.len());
    assert(whole[0] == NodeV::Wait(seconds));
    assert(whole.drop_first() =~= rest);
    assert(eval_spec(whole[0], env) == Ok::<Evaluation, EvalError>(
        Evaluation { value: 0, env, effects: seq![Effect::Wait(seconds)] },
    ));
    match eval_seq_spec(rest, env) {
        Ok(after) => {
            assert(eval_seq_spec(whole, env) == Ok::<Evaluation, EvalError>(
                Evaluation {
                    value: if rest.len() == 0 {
                        0
                    } else {
                        after.value
                    },
                    env: after.env,
                    effects: seq![Effect::Wait(seconds)] + after.effects,
                },
            ));
        },
        Err(e) => {
            assert(eval_seq_spec(whole, env) == Err::<Evaluation, EvalError>(e));
        },
    }
}

} // verus!
