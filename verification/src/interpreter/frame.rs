//! Facts about the meaning of evaluation that the evaluator's proof rests on:
//! an evaluation reads the tape only at the draws that it makes, and a run of
//! steps that has failed or returned stays as it is.
use crate::interpreter::semantics::{
    bind, builtin_result, call_user, counter_name, eval_each, eval_node, iterate, round_number, rounds_of,
    run_block, Failure, Machine,
};
use crate::interpreter::value::{Builtin, Datum, Procedure};
use crate::parser::Term;
use vstd::prelude::*;

verus! {

/// Whether two tapes hold the same draws at the places from `lo` up to, and
/// without, `hi`.
pub open spec fn agree(t1: Seq<nat>, t2: Seq<nat>, lo: nat, hi: nat) -> bool {
    forall|i: int| lo <= i < hi ==> #[trigger] same_at(t1, t2, i)
}

/// Whether two tapes hold the same draw at one place.
pub open spec fn same_at(t1: Seq<nat>, t2: Seq<nat>, i: int) -> bool {
    0 <= i < t1.len() && i < t2.len() && t1[i] == t2[i]
}

/// A tape agrees with each tape that it is the beginning of, up to its own
/// length.
pub proof fn lemma_prefix_agrees(t1: Seq<nat>, t2: Seq<nat>, lo: nat, hi: nat)
    requires
        t1.is_prefix_of(t2),
        hi <= t1.len(),
    ensures
        agree(t1, t2, lo, hi),
{
}

/// Tapes that agree on a range agree on each range inside it.
pub proof fn lemma_agree_within(t1: Seq<nat>, t2: Seq<nat>, lo: nat, hi: nat, from: nat, to: nat)
    requires
        agree(t1, t2, lo, hi),
        lo <= from,
        to <= hi,
    ensures
        agree(t1, t2, from, to),
{
}

/// A built-in operation makes at most one draw, and reads the tape only
/// there.
pub proof fn lemma_builtin_frame(b: Builtin, args: Seq<Datum>, m: Machine, t1: Seq<nat>, t2: Seq<nat>)
    ensures
        builtin_result(b, args, m, t1).machine.draws >= m.draws,
        agree(t1, t2, m.draws, builtin_result(b, args, m, t1).machine.draws) ==> builtin_result(b, args, m, t2)
            == builtin_result(b, args, m, t1),
{
    let out = builtin_result(b, args, m, t1);
    if agree(t1, t2, m.draws, out.machine.draws) && out.machine.draws > m.draws {
        assert(same_at(t1, t2, m.draws as int));
    }
}

/// An evaluation never takes draws back, and reads the tape only at the draws
/// that it makes.
pub proof fn lemma_node_frame(depth: nat, node: Term, m: Machine, t1: Seq<nat>, t2: Seq<nat>)
    ensures
        eval_node(depth, node, m, t1).machine.draws >= m.draws,
        agree(t1, t2, m.draws, eval_node(depth, node, m, t1).machine.draws) ==> eval_node(depth, node, m, t2)
            == eval_node(depth, node, m, t1),
    decreases depth, node, 1nat,
{
    let out = eval_node(depth, node, m, t1);
    match node {
        Term::List(elems) => {
            lemma_each_frame(depth, elems, elems.len(), m, t1, t2);
        },
        Term::Binop { lhs, op, rhs } => {
            lemma_node_frame(depth, *lhs, m, t1, t2);
            let left = eval_node(depth, *lhs, m, t1);
            if left.value is Ok {
                lemma_node_frame(depth, *rhs, left.machine, t1, t2);
                if agree(t1, t2, m.draws, out.machine.draws) {
                    lemma_agree_within(t1, t2, m.draws, out.machine.draws, m.draws, left.machine.draws);
                    lemma_agree_within(t1, t2, m.draws, out.machine.draws, left.machine.draws, out.machine.draws);
                }
            }
        },
        Term::Call { f, args } => {
            lemma_call_node_frame(depth, node, m, t1, t2);
        },
        Term::If { condition, body } => {
            lemma_node_frame(depth, *condition, m, t1, t2);
            let guard = eval_node(depth, *condition, m, t1);
            if guard.value == Ok::<Datum, Failure>(Datum::Bool(true)) {
                lemma_node_frame(depth, *body, guard.machine, t1, t2);
                if agree(t1, t2, m.draws, out.machine.draws) {
                    lemma_agree_within(t1, t2, m.draws, out.machine.draws, m.draws, guard.machine.draws);
                    lemma_agree_within(t1, t2, m.draws, out.machine.draws, guard.machine.draws, out.machine.draws);
                }
            }
        },
        Term::Loop { repeat, body } => {
            lemma_node_frame(depth, *repeat, m, t1, t2);
            let count = eval_node(depth, *repeat, m, t1);
            match count.value {
                Ok(Datum::Number(n)) => {
                    lemma_iterate_frame(depth, *body, rounds_of(n), count.machine, t1, t2);
                    if agree(t1, t2, m.draws, out.machine.draws) {
                        lemma_agree_within(t1, t2, m.draws, out.machine.draws, m.draws, count.machine.draws);
                        lemma_agree_within(
                            t1,
                            t2,
                            m.draws,
                            out.machine.draws,
                            count.machine.draws,
                            out.machine.draws,
                        );
                    }
                },
                _ => {},
            }
        },
        Term::Block(stmts) => {
            lemma_block_frame(depth, stmts, stmts.len(), m, t1, t2);
        },
        _ => {},
    }
}

/// As `lemma_node_frame`, of a call.
pub proof fn lemma_call_node_frame(depth: nat, node: Term, m: Machine, t1: Seq<nat>, t2: Seq<nat>)
    requires
        node is Call,
    ensures
        eval_node(depth, node, m, t1).machine.draws >= m.draws,
        agree(t1, t2, m.draws, eval_node(depth, node, m, t1).machine.draws) ==> eval_node(depth, node, m, t2)
            == eval_node(depth, node, m, t1),
    decreases depth, node, 0nat,
{
    let f = *node->Call_f;
    let args = node->Call_args;
    let out = eval_node(depth, node, m, t1);
    lemma_node_frame(depth, f, m, t1, t2);
    let callee = eval_node(depth, f, m, t1);
    if callee.value is Ok {
        lemma_each_frame(depth, args, args.len(), callee.machine, t1, t2);
        let given = eval_each(depth, args, args.len(), callee.machine, t1);
        if given.values is Ok {
            match callee.value->Ok_0 {
                Datum::Function(Procedure::Native(f)) => {
                    lemma_builtin_frame(f.function, given.values->Ok_0, given.machine, t1, t2);
                },
                Datum::Function(Procedure::User { params, body }) => {
                    if given.values->Ok_0.len() == params.len() && depth > 0 {
                        lemma_call_frame((depth - 1) as nat, params, body, given.values->Ok_0, given.machine, t1, t2);
                    }
                },
                _ => {},
            }
        }
        if agree(t1, t2, m.draws, out.machine.draws) {
            lemma_agree_within(t1, t2, m.draws, out.machine.draws, m.draws, callee.machine.draws);
            lemma_agree_within(t1, t2, m.draws, out.machine.draws, callee.machine.draws, given.machine.draws);
            lemma_agree_within(t1, t2, m.draws, out.machine.draws, given.machine.draws, out.machine.draws);
        }
    }
}

/// As `lemma_node_frame`, of the evaluation of several trees in turn.
pub proof fn lemma_each_frame(depth: nat, nodes: Seq<Term>, k: nat, m: Machine, t1: Seq<nat>, t2: Seq<nat>)
    ensures
        eval_each(depth, nodes, k, m, t1).machine.draws >= m.draws,
        agree(t1, t2, m.draws, eval_each(depth, nodes, k, m, t1).machine.draws) ==> eval_each(depth, nodes, k, m, t2)
            == eval_each(depth, nodes, k, m, t1),
    decreases depth, nodes, k,
{
    let out = eval_each(depth, nodes, k, m, t1);
    if k == 0 || k > nodes.len() {
    } else {
        lemma_each_frame(depth, nodes, (k - 1) as nat, m, t1, t2);
        let before = eval_each(depth, nodes, (k - 1) as nat, m, t1);
        if before.values is Ok {
            lemma_node_frame(depth, nodes[k - 1], before.machine, t1, t2);
            if agree(t1, t2, m.draws, out.machine.draws) {
                lemma_agree_within(t1, t2, m.draws, out.machine.draws, m.draws, before.machine.draws);
                lemma_agree_within(t1, t2, m.draws, out.machine.draws, before.machine.draws, out.machine.draws);
            }
        }
    }
}

/// As `lemma_node_frame`, of the statements of a block.
pub proof fn lemma_block_frame(depth: nat, stmts: Seq<Term>, k: nat, m: Machine, t1: Seq<nat>, t2: Seq<nat>)
    ensures
        run_block(depth, stmts, k, m, t1).machine.draws >= m.draws,
        agree(t1, t2, m.draws, run_block(depth, stmts, k, m, t1).machine.draws) ==> run_block(depth, stmts, k, m, t2)
            == run_block(depth, stmts, k, m, t1),
    decreases depth, stmts, k,
{
    let out = run_block(depth, stmts, k, m, t1);
    if k == 0 || k > stmts.len() {
    } else {
        lemma_block_frame(depth, stmts, (k - 1) as nat, m, t1, t2);
        let before = run_block(depth, stmts, (k - 1) as nat, m, t1);
        if before.value is Ok && before.value != Ok::<Datum, Failure>(Datum::Return) {
            lemma_node_frame(depth, stmts[k - 1], before.machine, t1, t2);
            if agree(t1, t2, m.draws, out.machine.draws) {
                lemma_agree_within(t1, t2, m.draws, out.machine.draws, m.draws, before.machine.draws);
                lemma_agree_within(t1, t2, m.draws, out.machine.draws, before.machine.draws, out.machine.draws);
            }
        }
    }
}

/// As `lemma_node_frame`, of the rounds of a `repeat`.
pub proof fn lemma_iterate_frame(depth: nat, body: Term, k: nat, m: Machine, t1: Seq<nat>, t2: Seq<nat>)
    ensures
        iterate(depth, body, k, m, t1).machine.draws >= m.draws,
        agree(t1, t2, m.draws, iterate(depth, body, k, m, t1).machine.draws) ==> iterate(depth, body, k, m, t2)
            == iterate(depth, body, k, m, t1),
    decreases depth, body, k + 2,
{
    let out = iterate(depth, body, k, m, t1);
    if k == 0 {
    } else {
        lemma_iterate_frame(depth, body, (k - 1) as nat, m, t1, t2);
        let before = iterate(depth, body, (k - 1) as nat, m, t1);
        if before.value is Ok {
            let counted = before.machine.with_env(
                before.machine.env.insert(counter_name(), Datum::Number(round_number(k))),
            );
            lemma_node_frame(depth, body, counted, t1, t2);
            if agree(t1, t2, m.draws, out.machine.draws) {
                lemma_agree_within(t1, t2, m.draws, out.machine.draws, m.draws, before.machine.draws);
                lemma_agree_within(t1, t2, m.draws, out.machine.draws, before.machine.draws, out.machine.draws);
            }
        }
    }
}

/// As `lemma_node_frame`, of a call of a procedure of the program.
pub proof fn lemma_call_frame(
    depth: nat,
    params: Seq<Seq<char>>,
    body: Term,
    values: Seq<Datum>,
    m: Machine,
    t1: Seq<nat>,
    t2: Seq<nat>,
)
    ensures
        call_user(depth, params, body, values, m, t1).machine.draws >= m.draws,
        agree(t1, t2, m.draws, call_user(depth, params, body, values, m, t1).machine.draws) ==> call_user(
            depth,
            params,
            body,
            values,
            m,
            t2,
        ) == call_user(depth, params, body, values, m, t1),
    decreases depth, body, 2nat,
{
    lemma_node_frame(depth, body, m.with_env(bind(m.env, params, values, params.len())), t1, t2);
}

/// An evaluation that made its draws on a tape comes out the same on every
/// tape that begins with that one.
pub proof fn lemma_node_stays(depth: nat, node: Term, m: Machine, t1: Seq<nat>, t2: Seq<nat>)
    requires
        t1.is_prefix_of(t2),
        eval_node(depth, node, m, t1).machine.draws <= t1.len(),
    ensures
        eval_node(depth, node, m, t2) == eval_node(depth, node, m, t1),
{
    lemma_prefix_agrees(t1, t2, m.draws, eval_node(depth, node, m, t1).machine.draws);
    lemma_node_frame(depth, node, m, t1, t2);
}

/// As `lemma_node_stays`, of the evaluation of several trees in turn.
pub proof fn lemma_each_stays(depth: nat, nodes: Seq<Term>, k: nat, m: Machine, t1: Seq<nat>, t2: Seq<nat>)
    requires
        t1.is_prefix_of(t2),
        eval_each(depth, nodes, k, m, t1).machine.draws <= t1.len(),
    ensures
        eval_each(depth, nodes, k, m, t2) == eval_each(depth, nodes, k, m, t1),
{
    lemma_prefix_agrees(t1, t2, m.draws, eval_each(depth, nodes, k, m, t1).machine.draws);
    lemma_each_frame(depth, nodes, k, m, t1, t2);
}

/// As `lemma_node_stays`, of the statements of a block.
pub proof fn lemma_block_stays(depth: nat, stmts: Seq<Term>, k: nat, m: Machine, t1: Seq<nat>, t2: Seq<nat>)
    requires
        t1.is_prefix_of(t2),
        run_block(depth, stmts, k, m, t1).machine.draws <= t1.len(),
    ensures
        run_block(depth, stmts, k, m, t2) == run_block(depth, stmts, k, m, t1),
{
    lemma_prefix_agrees(t1, t2, m.draws, run_block(depth, stmts, k, m, t1).machine.draws);
    lemma_block_frame(depth, stmts, k, m, t1, t2);
}

/// As `lemma_node_stays`, of the rounds of a `repeat`.
pub proof fn lemma_iterate_stays(depth: nat, body: Term, k: nat, m: Machine, t1: Seq<nat>, t2: Seq<nat>)
    requires
        t1.is_prefix_of(t2),
        iterate(depth, body, k, m, t1).machine.draws <= t1.len(),
    ensures
        iterate(depth, body, k, m, t2) == iterate(depth, body, k, m, t1),
{
    lemma_prefix_agrees(t1, t2, m.draws, iterate(depth, body, k, m, t1).machine.draws);
    lemma_iterate_frame(depth, body, k, m, t1, t2);
}

/// Once the evaluation of several trees in turn has failed, it stays as it
/// is, however many more of them are taken.
pub proof fn lemma_each_stuck(depth: nat, nodes: Seq<Term>, k: nat, more: nat, m: Machine, tape: Seq<nat>)
    requires
        k <= more <= nodes.len(),
        eval_each(depth, nodes, k, m, tape).values is Err,
    ensures
        eval_each(depth, nodes, more, m, tape) == eval_each(depth, nodes, k, m, tape),
    decreases more,
{
    if more > k {
        lemma_each_stuck(depth, nodes, k, (more - 1) as nat, m, tape);
    }
}

/// Once a block has failed or returned, it stays as it is, however many more
/// of its statements are taken.
pub proof fn lemma_block_stuck(depth: nat, stmts: Seq<Term>, k: nat, more: nat, m: Machine, tape: Seq<nat>)
    requires
        k <= more <= stmts.len(),
        run_block(depth, stmts, k, m, tape).value is Err || run_block(depth, stmts, k, m, tape).value == Ok::<
            Datum,
            Failure,
        >(Datum::Return),
    ensures
        run_block(depth, stmts, more, m, tape) == run_block(depth, stmts, k, m, tape),
    decreases more,
{
    if more > k {
        lemma_block_stuck(depth, stmts, k, (more - 1) as nat, m, tape);
    }
}

/// Once a round of a `repeat` has failed, the loop stays as it is, however
/// many more rounds are taken.
pub proof fn lemma_iterate_stuck(depth: nat, body: Term, k: nat, more: nat, m: Machine, tape: Seq<nat>)
    requires
        k <= more,
        iterate(depth, body, k, m, tape).value is Err,
    ensures
        iterate(depth, body, more, m, tape) == iterate(depth, body, k, m, tape),
    decreases more,
{
    if more > k {
        lemma_iterate_stuck(depth, body, k, (more - 1) as nat, m, tape);
    }
}

} // verus!
