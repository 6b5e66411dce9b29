//! Laws of the language, proved of the meaning that the evaluator and the
//! parser are verified against.
use crate::drawer::Stroke;
use crate::interpreter::builtins::{builtin_named, initial_env, named_from, registry};
use crate::interpreter::frame::{agree, lemma_node_frame};
use crate::interpreter::run;
use crate::interpreter::semantics::{
    bind, binop_result, builtin_result, call_user, counter_name, draw, eval_each, eval_node, iterate, restore,
    round_number, rounds_of, run_block, Failure, Machine,
};
use crate::interpreter::value::{Builtin, Datum, LangFn, Procedure};
use crate::number::{Comparison, Number};
use crate::parser::{Binop, Term};
use vstd::prelude::*;

verus! {

/// A call of a procedure by its name, with the given arguments.
pub open spec fn call_of(name: Seq<char>, args: Seq<Term>) -> Term {
    Term::Call { f: Box::new(Term::Variable(name)), args }
}

/// The program `forward a + b`, for two numbers.
pub open spec fn forward_sum(a: Number, b: Number) -> Term {
    Term::Block(
        seq![
            call_of(
                "forward"@,
                seq![Term::Binop { lhs: Box::new(Term::Number(a)), op: Binop::Add, rhs: Box::new(Term::Number(b)) }],
            ),
        ],
    )
}

/// The program `repeat c [ forward n ]`, for two numbers.
pub open spec fn repeat_forward(c: Number, n: Number) -> Term {
    Term::Block(
        seq![
            Term::Loop {
                repeat: Box::new(Term::Number(c)),
                body: Box::new(Term::Block(seq![call_of("forward"@, seq![Term::Number(n)])])),
            },
        ],
    )
}

/// `forward` names the built-in procedure that moves forward.
pub proof fn lemma_forward_is_bound()
    ensures
        builtin_named("forward"@) == Some(LangFn { arity: 1, function: Builtin::Forward }),
        initial_env().contains_key("forward"@),
        initial_env()["forward"@] == Datum::Function(
            Procedure::Native(LangFn { arity: 1, function: Builtin::Forward }),
        ),
{
    assert(registry()[0].0[0] == "forward"@);
    assert(registry()[0].0.contains("forward"@));
}

/// Whatever the random draws, `forward a + b` draws exactly one move
/// forward, by the sum of the two numbers.
pub proof fn law_forward_sum(a: Number, b: Number, depth: nat, tape: Seq<nat>)
    ensures
        run(forward_sum(a, b), depth, tape) == Ok::<Seq<Stroke>, Failure>(seq![Stroke::Forward(a.plus(b))]),
{
    lemma_forward_is_bound();
    let m = Machine { env: initial_env(), drawing: Seq::empty(), draws: 0 };
    let sum = Term::Binop { lhs: Box::new(Term::Number(a)), op: Binop::Add, rhs: Box::new(Term::Number(b)) };
    let call = call_of("forward"@, seq![sum]);
    let stmts = seq![call];
    assert(eval_node(depth, sum, m, tape) == m.done(Datum::Number(a.plus(b)))) by {
        reveal_with_fuel(eval_node, 2);
    }
    assert(eval_each(depth, seq![sum], 1, m, tape).values == Ok::<Seq<Datum>, Failure>(
        seq![Datum::Number(a.plus(b))],
    ) && eval_each(depth, seq![sum], 1, m, tape).machine == m) by {
        reveal_with_fuel(eval_each, 2);
        assert(Seq::<Datum>::empty().push(Datum::Number(a.plus(b))) =~= seq![Datum::Number(a.plus(b))]);
    }
    assert(eval_node(depth, call, m, tape) == m.emit(Stroke::Forward(a.plus(b))).done(Datum::Nothing)) by {
        reveal_with_fuel(eval_node, 2);
    }
    assert(run_block(depth, stmts, 1, m, tape) == eval_node(depth, call, m, tape)) by {
        reveal_with_fuel(run_block, 2);
    }
    assert(Seq::<Stroke>::empty().push(Stroke::Forward(a.plus(b))) =~= seq![Stroke::Forward(a.plus(b))]);
}

/// A binary operation on values of the wrong types fails: `and` and `or`
/// take two booleans, every other operator two numbers, and nothing is
/// converted.
pub proof fn law_mismatched_operands_fail(v1: Datum, op: Binop, v2: Datum)
    ensures
        (op == Binop::And || op == Binop::Or) ==> (binop_result(v1, op, v2) is Ok <==> v1 is Bool && v2 is Bool),
        (op != Binop::And && op != Binop::Or) ==> (binop_result(v1, op, v2) is Ok <==> v1 is Number && v2
            is Number),
        binop_result(v1, op, v2) is Err ==> binop_result(v1, op, v2) == Err::<Datum, Failure>(
            Failure::TypeMismatch,
        ),
{
}

/// Where both operands of a binary operation have values, and the values
/// are of the wrong types, the evaluation of the operation fails.
pub proof fn law_mismatched_operation_fails(
    depth: nat,
    lhs: Term,
    op: Binop,
    rhs: Term,
    m: Machine,
    tape: Seq<nat>,
)
    requires
        eval_node(depth, lhs, m, tape).value is Ok,
        eval_node(depth, rhs, eval_node(depth, lhs, m, tape).machine, tape).value is Ok,
        binop_result(
            eval_node(depth, lhs, m, tape).value->Ok_0,
            op,
            eval_node(depth, rhs, eval_node(depth, lhs, m, tape).machine, tape).value->Ok_0,
        ) is Err,
    ensures
        eval_node(depth, Term::Binop { lhs: Box::new(lhs), op, rhs: Box::new(rhs) }, m, tape).value == Err::<
            Datum,
            Failure,
        >(Failure::TypeMismatch),
{
    law_mismatched_operands_fail(
        eval_node(depth, lhs, m, tape).value->Ok_0,
        op,
        eval_node(depth, rhs, eval_node(depth, lhs, m, tape).machine, tape).value->Ok_0,
    );
}

/// An `if` whose condition has a value that is not a boolean fails, and the
/// body is not evaluated.
pub proof fn law_guard_must_be_boolean(depth: nat, condition: Term, body: Term, m: Machine, tape: Seq<nat>)
    requires
        eval_node(depth, condition, m, tape).value is Ok,
        !(eval_node(depth, condition, m, tape).value->Ok_0 is Bool),
    ensures
        eval_node(depth, Term::If { condition: Box::new(condition), body: Box::new(body) }, m, tape)
            == eval_node(depth, condition, m, tape).machine.failed(Failure::NonBooleanGuard),
{
}

/// `pick` on a list that is not empty gives one of its items, whatever the
/// random draws; on an empty list it fails.
pub proof fn law_pick_gives_a_member(items: Seq<Datum>, m: Machine, tape: Seq<nat>)
    ensures
        items.len() > 0 ==> builtin_result(Builtin::Pick, seq![Datum::List(items)], m, tape).value is Ok
            && items.contains(builtin_result(Builtin::Pick, seq![Datum::List(items)], m, tape).value->Ok_0),
        items.len() == 0 ==> builtin_result(Builtin::Pick, seq![Datum::List(items)], m, tape) == m.failed(
            Failure::EmptyListPick,
        ),
{
    if items.len() > 0 {
        let at = draw(tape, m.draws, items.len()) as int;
        assert(items[at] == builtin_result(Builtin::Pick, seq![Datum::List(items)], m, tape).value->Ok_0);
    }
}

/// `random` of a number that truncates to a positive integer gives the
/// number of an integer from 0 up to, and without, that integer, whatever
/// the random draws.
pub proof fn law_random_is_in_range(n: Number, m: Machine, tape: Seq<nat>)
    requires
        n.truncation() > 0,
    ensures
        exists|r: i32|
            0 <= r < n.truncation() && builtin_result(Builtin::Random, seq![Datum::Number(n)], m, tape).value
                == Ok::<Datum, Failure>(Datum::Number(#[trigger] Number::of_int(r))),
{
    let r = draw(tape, m.draws, n.truncation() as nat) as i32;
    assert(builtin_result(Builtin::Random, seq![Datum::Number(n)], m, tape).value == Ok::<Datum, Failure>(
        Datum::Number(Number::of_int(r)),
    ));
}

/// After a call of a procedure of the program, each of its parameters is as
/// it was before the call: bound to what it was bound to, or unbound if it
/// was unbound. Every other name is as the body left it.
pub proof fn law_call_restores_parameters(
    depth: nat,
    params: Seq<Seq<char>>,
    body: Term,
    values: Seq<Datum>,
    m: Machine,
    tape: Seq<nat>,
    name: Seq<char>,
)
    requires
        call_user(depth, params, body, values, m, tape).value is Ok,
    ensures
        params.contains(name) ==> {
            let after = call_user(depth, params, body, values, m, tape).machine.env;
            after.contains_key(name) == m.env.contains_key(name) && (m.env.contains_key(name) ==> after[name]
                == m.env[name])
        },
        !params.contains(name) ==> {
            let after = call_user(depth, params, body, values, m, tape).machine.env;
            let bound = m.with_env(bind(m.env, params, values, params.len()));
            let inside = eval_node(depth, body, bound, tape).machine.env;
            after.contains_key(name) == inside.contains_key(name) && (inside.contains_key(name) ==> after[name]
                == inside[name])
        },
{
}

/// A `repeat` leaves the counter as it found it when its rounds began:
/// bound to what it was bound to, or unbound if it was unbound. So the
/// rounds of a loop inside the body of another do not change what the outer
/// loop's body reads from the counter afterwards.
pub proof fn law_repeat_restores_counter(depth: nat, repeat: Term, body: Term, m: Machine, tape: Seq<nat>)
    requires
        eval_node(depth, Term::Loop { repeat: Box::new(repeat), body: Box::new(body) }, m, tape).value is Ok,
    ensures
        ({
            let began = eval_node(depth, repeat, m, tape).machine.env;
            let after = eval_node(
                depth,
                Term::Loop { repeat: Box::new(repeat), body: Box::new(body) },
                m,
                tape,
            ).machine.env;
            after.contains_key(counter_name()) == began.contains_key(counter_name()) && (began.contains_key(
                counter_name(),
            ) ==> after[counter_name()] == began[counter_name()])
        }),
{
    let names = seq![counter_name()];
    assert(names[0] == counter_name());
    assert(names.contains(counter_name()));
}

/// Round `k` of a `repeat`, counted from 1, evaluates the body with the
/// counter bound to the number `k`.
pub proof fn law_round_reads_its_number(depth: nat, body: Term, k: nat, m: Machine, tape: Seq<nat>)
    requires
        0 < k <= i32::MAX,
        iterate(depth, body, (k - 1) as nat, m, tape).value is Ok,
    ensures
        ({
            let before = iterate(depth, body, (k - 1) as nat, m, tape).machine;
            let start = before.with_env(before.env.insert(counter_name(), Datum::Number(Number::of_int(k as i32))));
            &&& start.env[counter_name()] == Datum::Number(Number::of_int(k as i32))
            &&& iterate(depth, body, k, m, tape).value is Ok ==> iterate(depth, body, k, m, tape).machine
                == eval_node(depth, body, start, tape).machine
            &&& iterate(depth, body, k, m, tape).value is Err ==> iterate(depth, body, k, m, tape) == eval_node(
                depth,
                body,
                start,
                tape,
            )
        }),
{
}

/// The drawing of `k` moves forward by `n`.
pub open spec fn forwards(k: nat, n: Number) -> Seq<Stroke> {
    Seq::new(k, |i: int| Stroke::Forward(n))
}

/// The bindings in which `forward` is the built-in procedure and the
/// counter is whatever a loop has made it.
pub open spec fn forward_kept(env: Map<Seq<char>, Datum>) -> bool {
    env.contains_key("forward"@) && env["forward"@] == Datum::Function(
        Procedure::Native(LangFn { arity: 1, function: Builtin::Forward }),
    )
}

/// In bindings that know `forward`, the block `[ forward n ]` draws one
/// move forward by `n` and changes nothing else.
pub proof fn lemma_forward_block(n: Number, depth: nat, m: Machine, tape: Seq<nat>)
    requires
        forward_kept(m.env),
    ensures
        eval_node(depth, Term::Block(seq![call_of("forward"@, seq![Term::Number(n)])]), m, tape) == m.emit(
            Stroke::Forward(n),
        ).done(Datum::Nothing),
{
    let call = call_of("forward"@, seq![Term::Number(n)]);
    assert(eval_each(depth, seq![Term::Number(n)], 1, m, tape).values == Ok::<Seq<Datum>, Failure>(
        seq![Datum::Number(n)],
    ) && eval_each(depth, seq![Term::Number(n)], 1, m, tape).machine == m) by {
        reveal_with_fuel(eval_each, 2);
        assert(Seq::<Datum>::empty().push(Datum::Number(n)) =~= seq![Datum::Number(n)]);
    }
    assert(eval_node(depth, call, m, tape) == m.emit(Stroke::Forward(n)).done(Datum::Nothing)) by {
        reveal_with_fuel(eval_node, 2);
    }
    assert(run_block(depth, seq![call], 1, m, tape) == eval_node(depth, call, m, tape)) by {
        reveal_with_fuel(run_block, 2);
    }
}

/// The first `k` rounds of `repeat .. [ forward n ]` draw `k` moves forward
/// by `n`.
pub proof fn lemma_forward_rounds(n: Number, depth: nat, m: Machine, tape: Seq<nat>, k: nat)
    requires
        forward_kept(m.env),
    ensures
        iterate(depth, Term::Block(seq![call_of("forward"@, seq![Term::Number(n)])]), k, m, tape).value is Ok,
        iterate(depth, Term::Block(seq![call_of("forward"@, seq![Term::Number(n)])]), k, m, tape).machine.drawing
            == m.drawing + forwards(k, n),
        forward_kept(
            iterate(depth, Term::Block(seq![call_of("forward"@, seq![Term::Number(n)])]), k, m, tape).machine.env,
        ),
    decreases k,
{
    let body = Term::Block(seq![call_of("forward"@, seq![Term::Number(n)])]);
    if k == 0 {
        assert(m.drawing + forwards(0, n) =~= m.drawing);
    } else {
        lemma_forward_rounds(n, depth, m, tape, (k - 1) as nat);
        let before = iterate(depth, body, (k - 1) as nat, m, tape).machine;
        let counted = before.with_env(before.env.insert(counter_name(), Datum::Number(round_number(k))));
        assert(forward_kept(counted.env)) by {
            reveal_strlit("forward");
            reveal_strlit("repcount");
            assert("forward"@.len() != "repcount"@.len());
        }
        lemma_forward_block(n, depth, counted, tape);
        assert((m.drawing + forwards((k - 1) as nat, n)).push(Stroke::Forward(n)) =~= m.drawing + forwards(k, n));
    }
}

/// Whatever the random draws, `repeat c [ forward n ]` draws as many moves
/// forward by `n` as `c` has rounds, and nothing else: none where `c`
/// truncates to zero or less.
pub proof fn law_repeat_forward(c: Number, n: Number, depth: nat, tape: Seq<nat>)
    ensures
        run(repeat_forward(c, n), depth, tape) == Ok::<Seq<Stroke>, Failure>(forwards(rounds_of(c), n)),
{
    lemma_forward_is_bound();
    let m = Machine { env: initial_env(), drawing: Seq::empty(), draws: 0 };
    let body = Term::Block(seq![call_of("forward"@, seq![Term::Number(n)])]);
    let whole = Term::Loop { repeat: Box::new(Term::Number(c)), body: Box::new(body) };
    lemma_forward_rounds(n, depth, m, tape, rounds_of(c));
    let rounds = iterate(depth, body, rounds_of(c), m, tape);
    assert(eval_node(depth, whole, m, tape).value is Ok && eval_node(depth, whole, m, tape).machine.drawing
        == rounds.machine.drawing) by {
        reveal_with_fuel(eval_node, 2);
    }
    assert(run_block(depth, seq![whole], 1, m, tape) == eval_node(depth, whole, m, tape)) by {
        reveal_with_fuel(run_block, 2);
    }
    assert(Seq::<Stroke>::empty() + forwards(rounds_of(c), n) =~= forwards(rounds_of(c), n));
}

/// The program `repeat a [ repeat b [ forward :repcount ] back :repcount ]`,
/// for two numbers: a loop in a loop, both of which read the counter.
pub open spec fn nested_repeat(a: Number, b: Number) -> Term {
    Term::Block(seq![Term::Loop { repeat: Box::new(Term::Number(a)), body: Box::new(outer_body(b)) }])
}

/// The body of the outer loop of `nested_repeat`.
pub open spec fn outer_body(b: Number) -> Term {
    Term::Block(
        seq![
            Term::Loop { repeat: Box::new(Term::Number(b)), body: Box::new(inner_body()) },
            call_of("back"@, seq![Term::Variable(counter_name())]),
        ],
    )
}

/// The body of the inner loop of `nested_repeat`.
pub open spec fn inner_body() -> Term {
    Term::Block(seq![call_of("forward"@, seq![Term::Variable(counter_name())])])
}

/// Moves forward by 1, 2, and so on up to `j`.
pub open spec fn counted_forwards(j: nat) -> Seq<Stroke>
    decreases j,
{
    if j == 0 {
        Seq::empty()
    } else {
        counted_forwards((j - 1) as nat).push(Stroke::Forward(round_number(j)))
    }
}

/// What `i` rounds of the outer loop of `nested_repeat` draw, where the
/// inner loop has `inner` rounds: in round `r`, moves forward by 1 up to
/// `inner`, and then a move back by `r`.
pub open spec fn nested_drawing(i: nat, inner: nat) -> Seq<Stroke>
    decreases i,
{
    if i == 0 {
        Seq::empty()
    } else {
        nested_drawing((i - 1) as nat, inner) + counted_forwards(inner).push(Stroke::Back(round_number(i)))
    }
}

/// Bindings in which `forward` and `back` are the built-in procedures.
pub open spec fn moves_kept(env: Map<Seq<char>, Datum>) -> bool {
    &&& forward_kept(env)
    &&& env.contains_key("back"@)
    &&& env["back"@] == Datum::Function(Procedure::Native(LangFn { arity: 1, function: Builtin::Back }))
}

/// The counter is none of the names of the procedures that move.
pub proof fn lemma_counter_is_no_move()
    ensures
        counter_name() != "forward"@,
        counter_name() != "back"@,
        "back"@ != "forward"@,
{
    reveal_strlit("forward");
    reveal_strlit("back");
    reveal_strlit("repcount");
    assert("forward"@.len() == 7 && "back"@.len() == 4 && "repcount"@.len() == 8);
}

/// An evaluation starts with `forward` and `back` bound to the built-in
/// procedures.
pub proof fn lemma_moves_are_bound()
    ensures
        moves_kept(initial_env()),
{
    lemma_forward_is_bound();
    reveal_strlit("forward");
    reveal_strlit("fd");
    reveal_strlit("back");
    assert("forward"@.len() == 7 && "back"@.len() == 4 && "fd"@.len() == 2);
    let first = registry()[0].0;
    assert(!first.contains("back"@)) by {
        if first.contains("back"@) {
            let k = choose|k: int| 0 <= k < first.len() && first[k] == "back"@;
            assert(first[k] == "forward"@ || first[k] == "fd"@);
        }
    }
    assert(registry()[1].0[0] == "back"@);
    assert(registry()[1].0.contains("back"@));
    assert(named_from(registry(), 0, "back"@) == named_from(registry(), 1, "back"@));
    assert(builtin_named("back"@) == Some(LangFn { arity: 1, function: Builtin::Back })) by {
        reveal_with_fuel(named_from, 3);
    }
}

/// Where a move is bound and the counter is bound to a number, the block
/// `[ move :repcount ]` draws the move by that number and changes nothing
/// else.
pub proof fn lemma_move_by_counter(
    name: Seq<char>,
    f: LangFn,
    n: Number,
    depth: nat,
    m: Machine,
    tape: Seq<nat>,
)
    requires
        f.function == Builtin::Forward || f.function == Builtin::Back,
        m.env.contains_key(name),
        m.env[name] == Datum::Function(Procedure::Native(f)),
        m.env.contains_key(counter_name()),
        m.env[counter_name()] == Datum::Number(n),
    ensures
        eval_node(depth, call_of(name, seq![Term::Variable(counter_name())]), m, tape) == m.emit(
            if f.function == Builtin::Forward {
                Stroke::Forward(n)
            } else {
                Stroke::Back(n)
            },
        ).done(Datum::Nothing),
{
    let arg = Term::Variable(counter_name());
    assert(eval_each(depth, seq![arg], 1, m, tape).values == Ok::<Seq<Datum>, Failure>(seq![Datum::Number(n)])
        && eval_each(depth, seq![arg], 1, m, tape).machine == m) by {
        reveal_with_fuel(eval_each, 2);
        assert(Seq::<Datum>::empty().push(Datum::Number(n)) =~= seq![Datum::Number(n)]);
    }
    reveal_with_fuel(eval_node, 2);
}

/// The first `j` rounds of the inner loop of `nested_repeat` draw moves
/// forward by 1 up to `j`, and bind nothing but the counter.
pub proof fn lemma_inner_rounds(depth: nat, m: Machine, tape: Seq<nat>, j: nat)
    requires
        moves_kept(m.env),
    ensures
        iterate(depth, inner_body(), j, m, tape).value is Ok,
        iterate(depth, inner_body(), j, m, tape).machine.drawing == m.drawing + counted_forwards(j),
        iterate(depth, inner_body(), j, m, tape).machine.draws == m.draws,
        iterate(depth, inner_body(), j, m, tape).machine.env == (if j == 0 {
            m.env
        } else {
            m.env.insert(counter_name(), Datum::Number(round_number(j)))
        }),
    decreases j,
{
    if j == 0 {
        assert(m.drawing + counted_forwards(0) =~= m.drawing);
    } else {
        lemma_inner_rounds(depth, m, tape, (j - 1) as nat);
        lemma_counter_is_no_move();
        let before = iterate(depth, inner_body(), (j - 1) as nat, m, tape).machine;
        let counted = before.with_env(before.env.insert(counter_name(), Datum::Number(round_number(j))));
        let call = call_of("forward"@, seq![Term::Variable(counter_name())]);
        lemma_move_by_counter(
            "forward"@,
            LangFn { arity: 1, function: Builtin::Forward },
            round_number(j),
            depth,
            counted,
            tape,
        );
        assert(run_block(depth, seq![call], 1, counted, tape) == eval_node(depth, call, counted, tape)) by {
            reveal_with_fuel(run_block, 2);
        }
        assert(eval_node(depth, inner_body(), counted, tape) == counted.emit(
            Stroke::Forward(round_number(j)),
        ).done(Datum::Nothing));
        assert(iterate(depth, inner_body(), j, m, tape) == counted.emit(Stroke::Forward(round_number(j))).done(
            Datum::Nothing,
        ));
        assert(counted.env =~= m.env.insert(counter_name(), Datum::Number(round_number(j))));
        assert((m.drawing + counted_forwards((j - 1) as nat)).push(Stroke::Forward(round_number(j)))
            =~= m.drawing + counted_forwards(j));
    }
}

/// In a round of the outer loop, the body of `nested_repeat` draws the
/// inner loop's moves forward and then a move back by the outer loop's own
/// count: the inner loop has left the counter as the outer loop bound it.
pub proof fn lemma_outer_round(b: Number, n: Number, depth: nat, m: Machine, tape: Seq<nat>)
    requires
        moves_kept(m.env),
        m.env.contains_key(counter_name()),
        m.env[counter_name()] == Datum::Number(n),
    ensures
        eval_node(depth, outer_body(b), m, tape) == (Machine {
            drawing: m.drawing + counted_forwards(rounds_of(b)).push(Stroke::Back(n)),
            ..m
        }).done(Datum::Nothing),
{
    let inner = Term::Loop { repeat: Box::new(Term::Number(b)), body: Box::new(inner_body()) };
    let back = call_of("back"@, seq![Term::Variable(counter_name())]);
    let stmts = seq![inner, back];
    lemma_inner_rounds(depth, m, tape, rounds_of(b));
    lemma_counter_is_no_move();
    let rounds = iterate(depth, inner_body(), rounds_of(b), m, tape);
    let names = seq![counter_name()];
    assert forall|x: Seq<char>| names.contains(x) <==> x == counter_name() by {
        if x == counter_name() {
            assert(names[0] == x);
        }
    }
    assert(restore(rounds.machine.env, m.env, names) =~= m.env);
    let after = Machine { drawing: m.drawing + counted_forwards(rounds_of(b)), ..m };
    assert(eval_node(depth, inner, m, tape) == after.done(Datum::Nothing)) by {
        reveal_with_fuel(eval_node, 2);
    }
    lemma_move_by_counter("back"@, LangFn { arity: 1, function: Builtin::Back }, n, depth, after, tape);
    assert(run_block(depth, stmts, 2, m, tape) == eval_node(depth, back, after, tape)) by {
        reveal_with_fuel(run_block, 3);
    }
    assert((m.drawing + counted_forwards(rounds_of(b))).push(Stroke::Back(n)) =~= m.drawing + counted_forwards(
        rounds_of(b),
    ).push(Stroke::Back(n)));
}

/// The first `i` rounds of the outer loop of `nested_repeat`.
pub proof fn lemma_outer_rounds(b: Number, depth: nat, m: Machine, tape: Seq<nat>, i: nat)
    requires
        moves_kept(m.env),
    ensures
        iterate(depth, outer_body(b), i, m, tape).value is Ok,
        iterate(depth, outer_body(b), i, m, tape).machine.drawing == m.drawing + nested_drawing(i, rounds_of(b)),
        moves_kept(iterate(depth, outer_body(b), i, m, tape).machine.env),
    decreases i,
{
    if i == 0 {
        assert(m.drawing + nested_drawing(0, rounds_of(b)) =~= m.drawing);
    } else {
        lemma_outer_rounds(b, depth, m, tape, (i - 1) as nat);
        lemma_counter_is_no_move();
        let before = iterate(depth, outer_body(b), (i - 1) as nat, m, tape).machine;
        let counted = before.with_env(before.env.insert(counter_name(), Datum::Number(round_number(i))));
        lemma_outer_round(b, round_number(i), depth, counted, tape);
        assert((m.drawing + nested_drawing((i - 1) as nat, rounds_of(b))) + counted_forwards(rounds_of(b)).push(
            Stroke::Back(round_number(i)),
        ) =~= m.drawing + nested_drawing(i, rounds_of(b)));
    }
}

/// Two loops, one in the other, each read their own count from the
/// counter: whatever the random draws,
/// `repeat a [ repeat b [ forward :repcount ] back :repcount ]` draws, in
/// each round of the outer loop, the inner loop's moves forward by 1, 2 and
/// so on, and then a move back by the number of the outer round.
pub proof fn law_nested_repeats_keep_their_counts(a: Number, b: Number, depth: nat, tape: Seq<nat>)
    ensures
        run(nested_repeat(a, b), depth, tape) == Ok::<Seq<Stroke>, Failure>(
            nested_drawing(rounds_of(a), rounds_of(b)),
        ),
{
    lemma_moves_are_bound();
    let m = Machine { env: initial_env(), drawing: Seq::empty(), draws: 0 };
    let whole = Term::Loop { repeat: Box::new(Term::Number(a)), body: Box::new(outer_body(b)) };
    lemma_outer_rounds(b, depth, m, tape, rounds_of(a));
    let rounds = iterate(depth, outer_body(b), rounds_of(a), m, tape);
    assert(eval_node(depth, whole, m, tape).value is Ok && eval_node(depth, whole, m, tape).machine.drawing
        == rounds.machine.drawing) by {
        reveal_with_fuel(eval_node, 2);
    }
    assert(run_block(depth, seq![whole], 1, m, tape) == eval_node(depth, whole, m, tape)) by {
        reveal_with_fuel(run_block, 2);
    }
    assert(Seq::<Stroke>::empty() + nested_drawing(rounds_of(a), rounds_of(b)) =~= nested_drawing(
        rounds_of(a),
        rounds_of(b),
    ));
}

/// The body of the procedure of `guarded_move`: `if :x < c [ stop ] fd d`.
pub open spec fn guarded_body(c: Number, d: Number) -> Term {
    Term::Block(
        seq![
            Term::If {
                condition: Box::new(
                    Term::Binop {
                        lhs: Box::new(Term::Variable("x"@)),
                        op: Binop::Less,
                        rhs: Box::new(Term::Number(c)),
                    },
                ),
                body: Box::new(Term::Block(seq![call_of("stop"@, Seq::empty())])),
            },
            call_of("fd"@, seq![Term::Number(d)]),
        ],
    )
}

/// The program `to proc :x if :x < c [ stop ] fd d end proc v`, for three
/// numbers.
pub open spec fn guarded_move(c: Number, d: Number, v: Number) -> Term {
    Term::Block(
        seq![
            Term::ProcDef { proc_name: "proc"@, params: seq!["x"@], body: Box::new(guarded_body(c, d)) },
            call_of("proc"@, seq![Term::Number(v)]),
        ],
    )
}

/// `stop` and `fd` name built-in procedures, and `proc` and `x` are other
/// names.
pub proof fn lemma_stop_and_fd_are_bound()
    ensures
        initial_env().contains_key("stop"@),
        initial_env()["stop"@] == Datum::Function(Procedure::Native(LangFn { arity: 0, function: Builtin::Stop })),
        initial_env().contains_key("fd"@),
        initial_env()["fd"@] == Datum::Function(Procedure::Native(LangFn { arity: 1, function: Builtin::Forward })),
        "proc"@ != "stop"@ && "proc"@ != "fd"@ && "proc"@ != "x"@,
        "x"@ != "stop"@ && "x"@ != "fd"@,
{
    reveal_strlit("forward");
    reveal_strlit("fd");
    reveal_strlit("back");
    reveal_strlit("bk");
    reveal_strlit("left");
    reveal_strlit("lt");
    reveal_strlit("right");
    reveal_strlit("rt");
    reveal_strlit("setcolor");
    reveal_strlit("clearscreen");
    reveal_strlit("cs");
    reveal_strlit("pick");
    reveal_strlit("random");
    reveal_strlit("stop");
    reveal_strlit("proc");
    reveal_strlit("x");
    let stop = "stop"@;
    assert(stop.len() == 4 && stop[0] == 's');
    assert("forward"@.len() == 7 && "fd"@.len() == 2 && "bk"@.len() == 2 && "lt"@.len() == 2);
    assert("right"@.len() == 5 && "rt"@.len() == 2 && "setcolor"@.len() == 8 && "clearscreen"@.len() == 11);
    assert("cs"@.len() == 2 && "random"@.len() == 6);
    assert("back"@[0] == 'b' && "left"@[0] == 'l' && "pick"@[0] == 'p');
    assert("proc"@.len() == 4 && "proc"@[0] == 'p' && "x"@.len() == 1);
    assert forall|i: int| 0 <= i < 8 implies !(#[trigger] registry()[i]).0.contains(stop) by {
        let names = registry()[i].0;
        if names.contains(stop) {
            let k = choose|k: int| 0 <= k < names.len() && names[k] == stop;
            assert(names[k].len() == 4 && names[k][0] == 's');
        }
    }
    assert(registry()[8].0[0] == stop);
    assert(registry()[8].0.contains(stop));
    assert(named_from(registry(), 0, stop) == Some(LangFn { arity: 0, function: Builtin::Stop })) by {
        reveal_with_fuel(named_from, 10);
    }
    assert(registry()[0].0[1] == "fd"@);
    assert(registry()[0].0.contains("fd"@));
}

/// Early return: whatever the random draws, the program
/// `to proc :x if :x < c [ stop ] fd d end proc v` draws nothing where `v`
/// is less than `c`, because `stop` ends the body of the procedure before
/// its move; and it draws the one move where `v` is not less than `c`.
pub proof fn law_stop_ends_the_procedure(c: Number, d: Number, v: Number, depth: nat, tape: Seq<nat>)
    requires
        depth > 0,
    ensures
        run(guarded_move(c, d, v), depth, tape) == Ok::<Seq<Stroke>, Failure>(
            if v.order(c) == Comparison::Less {
                Seq::empty()
            } else {
                seq![Stroke::Forward(d)]
            },
        ),
{
    lemma_stop_and_fd_are_bound();
    let m0 = Machine { env: initial_env(), drawing: Seq::empty(), draws: 0 };
    let body = guarded_body(c, d);
    let user = Datum::Function(Procedure::User { params: seq!["x"@], body });
    let def = Term::ProcDef { proc_name: "proc"@, params: seq!["x"@], body: Box::new(body) };
    let call = call_of("proc"@, seq![Term::Number(v)]);
    let m1 = m0.with_env(m0.env.insert("proc"@, user));
    let inner = (depth - 1) as nat;
    // the body, with the parameter bound
    let m2 = m1.with_env(m1.env.insert("x"@, Datum::Number(v)));
    let guard = Term::Binop {
        lhs: Box::new(Term::Variable("x"@)),
        op: Binop::Less,
        rhs: Box::new(Term::Number(c)),
    };
    let stop = call_of("stop"@, Seq::empty());
    let test = Term::If { condition: Box::new(guard), body: Box::new(Term::Block(seq![stop])) };
    let fd = call_of("fd"@, seq![Term::Number(d)]);
    let less = v.order(c) == Comparison::Less;
    assert(eval_node(inner, guard, m2, tape) == m2.done(Datum::Bool(less))) by {
        reveal_with_fuel(eval_node, 2);
    }
    assert(eval_each(inner, Seq::<Term>::empty(), 0, m2, tape).values == Ok::<Seq<Datum>, Failure>(Seq::empty()));
    assert(eval_node(inner, stop, m2, tape) == m2.done(Datum::Return)) by {
        reveal_with_fuel(eval_node, 2);
    }
    assert(run_block(inner, seq![stop], 1, m2, tape) == m2.done(Datum::Return)) by {
        reveal_with_fuel(run_block, 2);
    }
    assert(eval_node(inner, test, m2, tape) == m2.done(
        if less {
            Datum::Return
        } else {
            Datum::Nothing
        },
    )) by {
        reveal_with_fuel(eval_node, 2);
    }
    assert(eval_each(inner, seq![Term::Number(d)], 1, m2, tape).values == Ok::<Seq<Datum>, Failure>(
        seq![Datum::Number(d)],
    ) && eval_each(inner, seq![Term::Number(d)], 1, m2, tape).machine == m2) by {
        reveal_with_fuel(eval_each, 2);
        assert(Seq::<Datum>::empty().push(Datum::Number(d)) =~= seq![Datum::Number(d)]);
    }
    assert(eval_node(inner, fd, m2, tape) == m2.emit(Stroke::Forward(d)).done(Datum::Nothing)) by {
        reveal_with_fuel(eval_node, 2);
    }
    let after = if less {
        m2.done(Datum::Return)
    } else {
        m2.emit(Stroke::Forward(d)).done(Datum::Nothing)
    };
    assert(run_block(inner, seq![test, fd], 2, m2, tape) == after) by {
        reveal_with_fuel(run_block, 3);
    }
    assert(eval_node(inner, body, m2, tape) == after);
    // the call
    assert(bind(m1.env, seq!["x"@], seq![Datum::Number(v)], 1) == m2.env) by {
        reveal_with_fuel(bind, 2);
    }
    assert(call_user(inner, seq!["x"@], body, seq![Datum::Number(v)], m1, tape).value is Ok);
    assert(call_user(inner, seq!["x"@], body, seq![Datum::Number(v)], m1, tape).machine.drawing
        == after.machine.drawing);
    assert(eval_each(depth, seq![Term::Number(v)], 1, m1, tape).values == Ok::<Seq<Datum>, Failure>(
        seq![Datum::Number(v)],
    ) && eval_each(depth, seq![Term::Number(v)], 1, m1, tape).machine == m1) by {
        reveal_with_fuel(eval_each, 2);
        assert(Seq::<Datum>::empty().push(Datum::Number(v)) =~= seq![Datum::Number(v)]);
    }
    assert(eval_node(depth, call, m1, tape) == call_user(
        inner,
        seq!["x"@],
        body,
        seq![Datum::Number(v)],
        m1,
        tape,
    )) by {
        reveal_with_fuel(eval_node, 2);
    }
    assert(eval_node(depth, def, m0, tape) == m1.done(Datum::Nothing));
    assert(run_block(depth, seq![def, call], 2, m0, tape) == eval_node(depth, call, m1, tape)) by {
        reveal_with_fuel(run_block, 3);
    }
    assert(Seq::<Stroke>::empty().push(Stroke::Forward(d)) =~= seq![Stroke::Forward(d)]);
}

/// An evaluation that makes no random draw comes out the same on every
/// tape: chance has no part in it.
pub proof fn law_without_draws_the_tape_is_idle(depth: nat, node: Term, m: Machine, t1: Seq<nat>, t2: Seq<nat>)
    requires
        eval_node(depth, node, m, t1).machine.draws == m.draws,
    ensures
        eval_node(depth, node, m, t2) == eval_node(depth, node, m, t1),
{
    assert(agree(t1, t2, m.draws, m.draws));
    lemma_node_frame(depth, node, m, t1, t2);
}

/// A built-in operation changes no binding: it draws, or gives a value.
pub proof fn law_builtins_keep_bindings(b: Builtin, args: Seq<Datum>, m: Machine, tape: Seq<nat>)
    ensures
        builtin_result(b, args, m, tape).machine.env == m.env,
        m.drawing.is_prefix_of(builtin_result(b, args, m, tape).machine.drawing),
{
}

/// The drawing is only ever added to: what was drawn before an evaluation
/// is the beginning of what is drawn after it, whether it ends with a value
/// or with a failure.
pub proof fn law_drawing_is_append_only(depth: nat, node: Term, m: Machine, tape: Seq<nat>)
    ensures
        m.drawing.is_prefix_of(eval_node(depth, node, m, tape).machine.drawing),
    decreases depth, node, 1nat,
{
    match node {
        Term::List(elems) => {
            lemma_each_appends(depth, elems, elems.len(), m, tape);
        },
        Term::Binop { lhs, op, rhs } => {
            law_drawing_is_append_only(depth, *lhs, m, tape);
            let left = eval_node(depth, *lhs, m, tape);
            if left.value is Ok {
                law_drawing_is_append_only(depth, *rhs, left.machine, tape);
            }
        },
        Term::Call { f, args } => {
            lemma_call_appends(depth, node, m, tape);
        },
        Term::If { condition, body } => {
            law_drawing_is_append_only(depth, *condition, m, tape);
            let guard = eval_node(depth, *condition, m, tape);
            if guard.value == Ok::<Datum, Failure>(Datum::Bool(true)) {
                law_drawing_is_append_only(depth, *body, guard.machine, tape);
            }
        },
        Term::Loop { repeat, body } => {
            law_drawing_is_append_only(depth, *repeat, m, tape);
            let count = eval_node(depth, *repeat, m, tape);
            match count.value {
                Ok(Datum::Number(n)) => {
                    lemma_rounds_append(depth, *body, rounds_of(n), count.machine, tape);
                },
                _ => {},
            }
        },
        Term::Block(stmts) => {
            lemma_block_appends(depth, stmts, stmts.len(), m, tape);
        },
        _ => {},
    }
}

/// The beginning of the beginning of a drawing is a beginning of it.
pub proof fn lemma_prefix_of_prefix(a: Seq<Stroke>, b: Seq<Stroke>, c: Seq<Stroke>)
    requires
        a.is_prefix_of(b),
        b.is_prefix_of(c),
    ensures
        a.is_prefix_of(c),
{
    assert(a =~= c.subrange(0, a.len() as int)) by {
        assert forall|i: int| 0 <= i < a.len() implies a[i] == c[i] by {
            assert(b.subrange(0, a.len() as int)[i] == b[i]);
            assert(c.subrange(0, b.len() as int)[i] == c[i]);
        }
    }
}

/// As `law_drawing_is_append_only`, of a call.
pub proof fn lemma_call_appends(depth: nat, node: Term, m: Machine, tape: Seq<nat>)
    requires
        node is Call,
    ensures
        m.drawing.is_prefix_of(eval_node(depth, node, m, tape).machine.drawing),
    decreases depth, node, 0nat,
{
    let f = *node->Call_f;
    let args = node->Call_args;
    let out = eval_node(depth, node, m, tape);
    law_drawing_is_append_only(depth, f, m, tape);
    let callee = eval_node(depth, f, m, tape);
    if callee.value is Ok {
        lemma_each_appends(depth, args, args.len(), callee.machine, tape);
        let given = eval_each(depth, args, args.len(), callee.machine, tape);
        lemma_prefix_of_prefix(m.drawing, callee.machine.drawing, given.machine.drawing);
        let drawn = given.machine.drawing;
        assert(drawn.is_prefix_of(drawn)) by {
            assert(drawn.subrange(0, drawn.len() as int) =~= drawn);
        }
        if given.values is Ok {
            match callee.value->Ok_0 {
                Datum::Function(Procedure::Native(f)) => {
                    law_builtins_keep_bindings(f.function, given.values->Ok_0, given.machine, tape);
                },
                Datum::Function(Procedure::User { params, body }) => {
                    if given.values->Ok_0.len() == params.len() && depth > 0 {
                        let bound = given.machine.with_env(
                            bind(given.machine.env, params, given.values->Ok_0, params.len()),
                        );
                        law_drawing_is_append_only((depth - 1) as nat, body, bound, tape);
                        assert(call_user(
                            (depth - 1) as nat,
                            params,
                            body,
                            given.values->Ok_0,
                            given.machine,
                            tape,
                        ).machine.drawing == eval_node((depth - 1) as nat, body, bound, tape).machine.drawing);
                    }
                },
                _ => {},
            }
            assert(given.machine.drawing.is_prefix_of(out.machine.drawing));
            lemma_prefix_of_prefix(m.drawing, given.machine.drawing, out.machine.drawing);
        }
    }
}

/// As `law_drawing_is_append_only`, of the evaluation of several trees in
/// turn.
pub proof fn lemma_each_appends(depth: nat, nodes: Seq<Term>, k: nat, m: Machine, tape: Seq<nat>)
    ensures
        m.drawing.is_prefix_of(eval_each(depth, nodes, k, m, tape).machine.drawing),
    decreases depth, nodes, k,
{
    if k == 0 || k > nodes.len() {
    } else {
        lemma_each_appends(depth, nodes, (k - 1) as nat, m, tape);
        let before = eval_each(depth, nodes, (k - 1) as nat, m, tape);
        if before.values is Ok {
            law_drawing_is_append_only(depth, nodes[k - 1], before.machine, tape);
        }
    }
}

/// As `law_drawing_is_append_only`, of the statements of a block.
pub proof fn lemma_block_appends(depth: nat, stmts: Seq<Term>, k: nat, m: Machine, tape: Seq<nat>)
    ensures
        m.drawing.is_prefix_of(run_block(depth, stmts, k, m, tape).machine.drawing),
    decreases depth, stmts, k,
{
    if k == 0 || k > stmts.len() {
    } else {
        lemma_block_appends(depth, stmts, (k - 1) as nat, m, tape);
        let before = run_block(depth, stmts, (k - 1) as nat, m, tape);
        if before.value is Ok && before.value != Ok::<Datum, Failure>(Datum::Return) {
            law_drawing_is_append_only(depth, stmts[k - 1], before.machine, tape);
        }
    }
}

/// As `law_drawing_is_append_only`, of the rounds of a `repeat`.
pub proof fn lemma_rounds_append(depth: nat, body: Term, k: nat, m: Machine, tape: Seq<nat>)
    ensures
        m.drawing.is_prefix_of(iterate(depth, body, k, m, tape).machine.drawing),
    decreases depth, body, k + 2,
{
    if k > 0 {
        lemma_rounds_append(depth, body, (k - 1) as nat, m, tape);
        let before = iterate(depth, body, (k - 1) as nat, m, tape);
        if before.value is Ok {
            let counted = before.machine.with_env(
                before.machine.env.insert(counter_name(), Datum::Number(round_number(k))),
            );
            law_drawing_is_append_only(depth, body, counted, tape);
        }
    }
}

} // verus!
