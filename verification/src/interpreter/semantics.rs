//! What evaluation means.
//!
//! The meaning of a tree is a function from the state of the machine before
//! to the value and the state of the machine after. `pick` and `random` read
//! their answers from a tape: the sequence of random draws of one run, in the
//! order in which they are made. Whatever the tape holds, a draw is brought
//! into the range it is asked for, so every tape gives a meaning.
//!
//! A procedure of the program may call itself without end. The machine
//! bounds how deep such calls may nest, and evaluation fails with
//! `EvalError::DepthExceeded` where a call would go deeper.
use crate::drawer::Stroke;
use crate::interpreter::value::{Builtin, Datum, Procedure};
use crate::number::{Comparison, Number};
use crate::parser::{Binop, Term};
use vstd::prelude::*;

verus! {

/// Why an evaluation failed.
#[derive(Debug, PartialEq, Eq)]
pub enum EvalError {
    /// A name was read that nothing is bound to: the name.
    UnboundVariable(String),
    /// An operand or an argument has the wrong type.
    TypeMismatch,
    /// A procedure was called with the wrong number of arguments.
    ArityMismatch,
    /// Something that is not a procedure was called.
    NotCallable,
    /// `pick` was given an empty list.
    EmptyListPick,
    /// The condition of an `if` is not a boolean.
    NonBooleanGuard,
    /// The count of a `repeat` is not a number.
    NonNumericRepeatCount,
    /// `random` was given a bound that truncates to zero or less.
    EmptyRandomRange,
    /// Calls of the program's procedures nest deeper than the machine allows.
    DepthExceeded,
}

/// The mathematical value of an `EvalError`.
pub enum Failure {
    UnboundVariable(Seq<char>),
    TypeMismatch,
    ArityMismatch,
    NotCallable,
    EmptyListPick,
    NonBooleanGuard,
    NonNumericRepeatCount,
    EmptyRandomRange,
    DepthExceeded,
}

impl View for EvalError {
    type V = Failure;

    open spec fn view(&self) -> Failure {
        match self {
            EvalError::UnboundVariable(name) => Failure::UnboundVariable(name@),
            EvalError::TypeMismatch => Failure::TypeMismatch,
            EvalError::ArityMismatch => Failure::ArityMismatch,
            EvalError::NotCallable => Failure::NotCallable,
            EvalError::EmptyListPick => Failure::EmptyListPick,
            EvalError::NonBooleanGuard => Failure::NonBooleanGuard,
            EvalError::NonNumericRepeatCount => Failure::NonNumericRepeatCount,
            EvalError::EmptyRandomRange => Failure::EmptyRandomRange,
            EvalError::DepthExceeded => Failure::DepthExceeded,
        }
    }
}

impl Failure {
    /// The failure, in words.
    pub open spec fn description(self) -> Seq<char> {
        match self {
            Failure::UnboundVariable(name) => "unbound variable "@ + name,
            Failure::TypeMismatch => "operand or argument of the wrong type"@,
            Failure::ArityMismatch => "wrong number of arguments"@,
            Failure::NotCallable => "can only call procedures"@,
            Failure::EmptyListPick => "pick of an empty list"@,
            Failure::NonBooleanGuard => "the condition of an if is not a boolean"@,
            Failure::NonNumericRepeatCount => "the count of a repeat is not a number"@,
            Failure::EmptyRandomRange => "random of a number below one"@,
            Failure::DepthExceeded => "procedure calls are nested too deep"@,
        }
    }
}

impl EvalError {
    /// The failure, in words.
    pub fn describe(&self) -> (r: String)
        ensures
            r@ == self@.description(),
    {
        match self {
            EvalError::UnboundVariable(name) => String::from_str("unbound variable ").concat(name.as_str()),
            EvalError::TypeMismatch => String::from_str("operand or argument of the wrong type"),
            EvalError::ArityMismatch => String::from_str("wrong number of arguments"),
            EvalError::NotCallable => String::from_str("can only call procedures"),
            EvalError::EmptyListPick => String::from_str("pick of an empty list"),
            EvalError::NonBooleanGuard => String::from_str("the condition of an if is not a boolean"),
            EvalError::NonNumericRepeatCount => String::from_str("the count of a repeat is not a number"),
            EvalError::EmptyRandomRange => String::from_str("random of a number below one"),
            EvalError::DepthExceeded => String::from_str("procedure calls are nested too deep"),
        }
    }
}

impl Clone for EvalError {
    fn clone(&self) -> (r: Self)
        ensures
            r@ == self@,
    {
        match self {
            EvalError::UnboundVariable(name) => EvalError::UnboundVariable(name.clone()),
            EvalError::TypeMismatch => EvalError::TypeMismatch,
            EvalError::ArityMismatch => EvalError::ArityMismatch,
            EvalError::NotCallable => EvalError::NotCallable,
            EvalError::EmptyListPick => EvalError::EmptyListPick,
            EvalError::NonBooleanGuard => EvalError::NonBooleanGuard,
            EvalError::NonNumericRepeatCount => EvalError::NonNumericRepeatCount,
            EvalError::EmptyRandomRange => EvalError::EmptyRandomRange,
            EvalError::DepthExceeded => EvalError::DepthExceeded,
        }
    }
}

/// The state of the machine: the bindings, the drawing commands given so far,
/// and how many random draws have been made.
pub struct Machine {
    pub env: Map<Seq<char>, Datum>,
    pub drawing: Seq<Stroke>,
    pub draws: nat,
}

/// How an evaluation ended: with a value or a failure, and the state of the
/// machine at that point.
pub struct Outcome {
    pub value: Result<Datum, Failure>,
    pub machine: Machine,
}

/// How the evaluation of several trees in turn ended.
pub struct Outcomes {
    pub values: Result<Seq<Datum>, Failure>,
    pub machine: Machine,
}

impl Machine {
    /// The machine with other bindings.
    pub open spec fn with_env(self, env: Map<Seq<char>, Datum>) -> Machine {
        Machine { env, ..self }
    }

    /// The machine after one more drawing command.
    pub open spec fn emit(self, stroke: Stroke) -> Machine {
        Machine { drawing: self.drawing.push(stroke), ..self }
    }

    /// The machine after one more random draw.
    pub open spec fn after_draw(self) -> Machine {
        Machine { draws: self.draws + 1, ..self }
    }

    /// An evaluation that ends in this state with a value.
    pub open spec fn done(self, value: Datum) -> Outcome {
        Outcome { value: Ok(value), machine: self }
    }

    /// An evaluation that ends in this state with a failure.
    pub open spec fn failed(self, error: Failure) -> Outcome {
        Outcome { value: Err(error), machine: self }
    }
}

/// The name that a `repeat` binds to the number of the current round.
pub open spec fn counter_name() -> Seq<char> {
    "repcount"@
}

/// The draw at one place of the tape, brought into `0..bound`.
pub open spec fn draw(tape: Seq<nat>, at: nat, bound: nat) -> nat {
    if at < tape.len() && tape[at as int] < bound {
        tape[at as int]
    } else {
        0
    }
}

/// What a binary operator makes of two values.
pub open spec fn binop_result(v1: Datum, op: Binop, v2: Datum) -> Result<Datum, Failure> {
    match op {
        Binop::And | Binop::Or => match (v1, v2) {
            (Datum::Bool(b1), Datum::Bool(b2)) => Ok(
                Datum::Bool(
                    if op == Binop::And {
                        b1 && b2
                    } else {
                        b1 || b2
                    },
                ),
            ),
            _ => Err(Failure::TypeMismatch),
        },
        _ => match (v1, v2) {
            (Datum::Number(n1), Datum::Number(n2)) => Ok(
                match op {
                    Binop::Less => Datum::Bool(n1.order(n2) == Comparison::Less),
                    Binop::LessEqual => Datum::Bool(
                        n1.order(n2) == Comparison::Less || n1.order(n2) == Comparison::Equal,
                    ),
                    Binop::Greater => Datum::Bool(n1.order(n2) == Comparison::Greater),
                    Binop::GreaterEqual => Datum::Bool(
                        n1.order(n2) == Comparison::Greater || n1.order(n2) == Comparison::Equal,
                    ),
                    Binop::EqualEqual => Datum::Bool(n1.order(n2) == Comparison::Equal),
                    Binop::Add => Datum::Number(n1.plus(n2)),
                    Binop::Sub => Datum::Number(n1.minus(n2)),
                    Binop::Mul => Datum::Number(n1.times(n2)),
                    _ => Datum::Number(n1.over(n2)),
                },
            ),
            _ => Err(Failure::TypeMismatch),
        },
    }
}

/// How many arguments a built-in operation takes.
pub open spec fn arity_of(b: Builtin) -> nat {
    match b {
        Builtin::ClearScreen | Builtin::Stop | Builtin::PenUp | Builtin::PenDown => 0,
        _ => 1,
    }
}

/// What a built-in operation does with its arguments.
pub open spec fn builtin_result(b: Builtin, args: Seq<Datum>, m: Machine, tape: Seq<nat>) -> Outcome {
    if args.len() != arity_of(b) {
        m.failed(Failure::ArityMismatch)
    } else {
        match b {
            Builtin::ClearScreen => m.emit(Stroke::ClearScreen).done(Datum::Nothing),
            Builtin::PenUp => m.emit(Stroke::PenUp).done(Datum::Nothing),
            Builtin::PenDown => m.emit(Stroke::PenDown).done(Datum::Nothing),
            Builtin::Stop => m.done(Datum::Return),
            Builtin::SetColor => match args[0] {
                Datum::Text(s) => m.emit(Stroke::SetColor(s)).done(Datum::Nothing),
                _ => m.failed(Failure::TypeMismatch),
            },
            Builtin::Label => match args[0] {
                Datum::Text(s) => m.emit(Stroke::Label(s)).done(Datum::Nothing),
                _ => m.failed(Failure::TypeMismatch),
            },
            Builtin::Pick => match args[0] {
                Datum::List(items) => if items.len() == 0 {
                    m.failed(Failure::EmptyListPick)
                } else {
                    m.after_draw().done(items[draw(tape, m.draws, items.len()) as int])
                },
                _ => m.failed(Failure::TypeMismatch),
            },
            _ => match args[0] {
                Datum::Number(n) => match b {
                    Builtin::Forward => m.emit(Stroke::Forward(n)).done(Datum::Nothing),
                    Builtin::Back => m.emit(Stroke::Back(n)).done(Datum::Nothing),
                    Builtin::LeftTurn => m.emit(Stroke::LeftTurn(n)).done(Datum::Nothing),
                    Builtin::RightTurn => m.emit(Stroke::RightTurn(n)).done(Datum::Nothing),
                    Builtin::SetFontSize => m.emit(Stroke::SetFontSize(n)).done(Datum::Nothing),
                    Builtin::SetTurtle => m.emit(Stroke::SetTurtle(n.truncation())).done(Datum::Nothing),
                    _ => if n.truncation() <= 0 {
                        m.failed(Failure::EmptyRandomRange)
                    } else {
                        m.after_draw().done(
                            Datum::Number(
                                Number::of_int(draw(tape, m.draws, n.truncation() as nat) as i32),
                            ),
                        )
                    },
                },
                _ => m.failed(Failure::TypeMismatch),
            },
        }
    }
}

/// The bindings after the first `k` names have been bound to the first `k`
/// values, in order.
pub open spec fn bind(env: Map<Seq<char>, Datum>, names: Seq<Seq<char>>, values: Seq<Datum>, k: nat) -> Map<
    Seq<char>,
    Datum,
>
    decreases k,
{
    if k == 0 {
        env
    } else {
        bind(env, names, values, (k - 1) as nat).insert(names[k - 1], values[k - 1])
    }
}

/// The bindings `after`, but with each of `names` as it was in `before`:
/// bound to what it was bound to there, or unbound if it was unbound there.
pub open spec fn restore(after: Map<Seq<char>, Datum>, before: Map<Seq<char>, Datum>, names: Seq<Seq<char>>) -> Map<
    Seq<char>,
    Datum,
> {
    Map::new(
        |x: Seq<char>|
            if names.contains(x) {
                before.contains_key(x)
            } else {
                after.contains_key(x)
            },
        |x: Seq<char>|
            if names.contains(x) {
                before[x]
            } else {
                after[x]
            },
    )
}

/// The meaning of a tree.
///
/// `depth` is how deep calls of the program's procedures may still nest.
pub open spec fn eval_node(depth: nat, node: Term, m: Machine, tape: Seq<nat>) -> Outcome
    decreases depth, node, 0nat,
{
    match node {
        Term::Text(s) => m.done(Datum::Text(s)),
        Term::Number(n) => m.done(Datum::Number(n)),
        Term::Variable(x) => if m.env.contains_key(x) {
            m.done(m.env[x])
        } else {
            m.failed(Failure::UnboundVariable(x))
        },
        Term::List(elems) => {
            let items = eval_each(depth, elems, elems.len(), m, tape);
            match items.values {
                Ok(values) => items.machine.done(Datum::List(values)),
                Err(e) => items.machine.failed(e),
            }
        },
        Term::Binop { lhs, op, rhs } => {
            let left = eval_node(depth, *lhs, m, tape);
            match left.value {
                Err(_) => left,
                Ok(v1) => {
                    let right = eval_node(depth, *rhs, left.machine, tape);
                    match right.value {
                        Err(_) => right,
                        Ok(v2) => Outcome { value: binop_result(v1, op, v2), machine: right.machine },
                    }
                },
            }
        },
        Term::Call { f, args } => {
            let callee = eval_node(depth, *f, m, tape);
            match callee.value {
                Err(_) => callee,
                Ok(p) => {
                    let given = eval_each(depth, args, args.len(), callee.machine, tape);
                    match given.values {
                        Err(e) => given.machine.failed(e),
                        Ok(values) => match p {
                            Datum::Function(Procedure::Native(f)) => builtin_result(
                                f.function,
                                values,
                                given.machine,
                                tape,
                            ),
                            Datum::Function(Procedure::User { params, body }) => if values.len() != params.len() {
                                given.machine.failed(Failure::ArityMismatch)
                            } else if depth == 0 {
                                given.machine.failed(Failure::DepthExceeded)
                            } else {
                                call_user((depth - 1) as nat, params, body, values, given.machine, tape)
                            },
                            _ => given.machine.failed(Failure::NotCallable),
                        },
                    }
                },
            }
        },
        Term::If { condition, body } => {
            let guard = eval_node(depth, *condition, m, tape);
            match guard.value {
                Err(_) => guard,
                Ok(Datum::Bool(true)) => eval_node(depth, *body, guard.machine, tape),
                Ok(Datum::Bool(false)) => guard.machine.done(Datum::Nothing),
                Ok(_) => guard.machine.failed(Failure::NonBooleanGuard),
            }
        },
        Term::Loop { repeat, body } => {
            let count = eval_node(depth, *repeat, m, tape);
            match count.value {
                Err(_) => count,
                Ok(Datum::Number(n)) => {
                    let rounds = iterate(depth, *body, rounds_of(n), count.machine, tape);
                    match rounds.value {
                        Err(_) => rounds,
                        Ok(_) => rounds.machine.with_env(
                            restore(rounds.machine.env, count.machine.env, seq![counter_name()]),
                        ).done(Datum::Nothing),
                    }
                },
                Ok(_) => count.machine.failed(Failure::NonNumericRepeatCount),
            }
        },
        Term::ProcDef { proc_name, params, body } => m.with_env(
            m.env.insert(proc_name, Datum::Function(Procedure::User { params, body: *body })),
        ).done(Datum::Nothing),
        Term::Block(stmts) => run_block(depth, stmts, stmts.len(), m, tape),
    }
}

/// The number that the counter is bound to in round `k`.
pub open spec fn round_number(k: nat) -> Number {
    Number::of_int(
        if k <= i32::MAX {
            k as i32
        } else {
            i32::MAX
        },
    )
}

/// How many rounds a `repeat` with this count makes: the count truncated to
/// an integer, and none if that is negative.
pub open spec fn rounds_of(n: Number) -> nat {
    if n.truncation() > 0 {
        n.truncation() as nat
    } else {
        0
    }
}

/// The evaluation of the first `k` of `nodes` in turn, each in the state that
/// the one before it left. It ends at the first failure.
pub open spec fn eval_each(depth: nat, nodes: Seq<Term>, k: nat, m: Machine, tape: Seq<nat>) -> Outcomes
    decreases depth, nodes, k,
{
    if k == 0 || k > nodes.len() {
        Outcomes { values: Ok(Seq::empty()), machine: m }
    } else {
        let before = eval_each(depth, nodes, (k - 1) as nat, m, tape);
        match before.values {
            Err(_) => before,
            Ok(values) => {
                let last = eval_node(depth, nodes[k - 1], before.machine, tape);
                match last.value {
                    Err(e) => Outcomes { values: Err(e), machine: last.machine },
                    Ok(v) => Outcomes { values: Ok(values.push(v)), machine: last.machine },
                }
            },
        }
    }
}

/// The evaluation of the first `k` statements of a block. The value is that
/// of the last statement evaluated, or `Nothing` where there is none. A
/// statement whose value is `Return` ends the block: none after it is
/// evaluated, and `Return` is the value of the block.
pub open spec fn run_block(depth: nat, stmts: Seq<Term>, k: nat, m: Machine, tape: Seq<nat>) -> Outcome
    decreases depth, stmts, k,
{
    if k == 0 || k > stmts.len() {
        m.done(Datum::Nothing)
    } else {
        let before = run_block(depth, stmts, (k - 1) as nat, m, tape);
        match before.value {
            Err(_) => before,
            Ok(Datum::Return) => before,
            Ok(_) => eval_node(depth, stmts[k - 1], before.machine, tape),
        }
    }
}

/// The first `k` rounds of a `repeat`. Round `i`, counted from 1, binds the
/// counter to `i` and evaluates the body; the body's value is dropped.
pub open spec fn iterate(depth: nat, body: Term, k: nat, m: Machine, tape: Seq<nat>) -> Outcome
    decreases depth, body, k,
{
    if k == 0 {
        m.done(Datum::Nothing)
    } else {
        let before = iterate(depth, body, (k - 1) as nat, m, tape);
        match before.value {
            Err(_) => before,
            Ok(_) => {
                let counted = before.machine.with_env(
                    before.machine.env.insert(counter_name(), Datum::Number(round_number(k))),
                );
                let round = eval_node(depth, body, counted, tape);
                match round.value {
                    Err(_) => round,
                    Ok(_) => round.machine.done(Datum::Nothing),
                }
            },
        }
    }
}

/// A call of a procedure of the program, with as many values as it has
/// parameters. The parameters are bound to the values, the body is
/// evaluated, and then each parameter is as it was before the call. The
/// value of the call is `Nothing`, whatever the body's value.
pub open spec fn call_user(
    depth: nat,
    params: Seq<Seq<char>>,
    body: Term,
    values: Seq<Datum>,
    m: Machine,
    tape: Seq<nat>,
) -> Outcome
    decreases depth, body, 1nat,
{
    let inside = eval_node(depth, body, m.with_env(bind(m.env, params, values, params.len())), tape);
    match inside.value {
        Err(_) => inside,
        Ok(_) => inside.machine.with_env(restore(inside.machine.env, m.env, params)).done(Datum::Nothing),
    }
}

} // verus!
