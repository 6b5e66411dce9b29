//! The built-in procedures: their names, and what each of them does.
use crate::drawer::DrawCmd;
use crate::interpreter::semantics::{arity_of, builtin_result, EvalError, Outcome};
use crate::interpreter::value::{data, Builtin, Datum, LangFn, LogoFn, Procedure, Value};
use crate::interpreter::{value_of, Interpreter};
use crate::number::{number_from_int, truncation_of};
use vstd::prelude::*;

verus! {

/// The table of built-in procedures: for each one, every name that it goes
/// by, the operation and its arity.
pub open spec fn registry() -> Seq<(Seq<Seq<char>>, LangFn)> {
    seq![
        (seq!["forward"@, "fd"@], LangFn { arity: 1, function: Builtin::Forward }),
        (seq!["back"@, "bk"@], LangFn { arity: 1, function: Builtin::Back }),
        (seq!["left"@, "lt"@], LangFn { arity: 1, function: Builtin::LeftTurn }),
        (seq!["right"@, "rt"@], LangFn { arity: 1, function: Builtin::RightTurn }),
        (seq!["setcolor"@], LangFn { arity: 1, function: Builtin::SetColor }),
        (seq!["clearscreen"@, "cs"@], LangFn { arity: 0, function: Builtin::ClearScreen }),
        (seq!["pick"@], LangFn { arity: 1, function: Builtin::Pick }),
        (seq!["random"@], LangFn { arity: 1, function: Builtin::Random }),
        (seq!["stop"@], LangFn { arity: 0, function: Builtin::Stop }),
        (seq!["penup"@, "pu"@], LangFn { arity: 0, function: Builtin::PenUp }),
        (seq!["pendown"@, "pd"@], LangFn { arity: 0, function: Builtin::PenDown }),
        (seq!["label"@], LangFn { arity: 1, function: Builtin::Label }),
        (seq!["setfontsize"@], LangFn { arity: 1, function: Builtin::SetFontSize }),
        (seq!["setturtle"@], LangFn { arity: 1, function: Builtin::SetTurtle }),
    ]
}

/// The procedure that a name stands for among the entries of a table from
/// `from` on: that of the first entry that lists the name.
pub open spec fn named_from(table: Seq<(Seq<Seq<char>>, LangFn)>, from: nat, name: Seq<char>) -> Option<LangFn>
    decreases table.len() - from,
{
    if from >= table.len() {
        None
    } else if table[from as int].0.contains(name) {
        Some(table[from as int].1)
    } else {
        named_from(table, from + 1, name)
    }
}

/// The built-in procedure that a name stands for, if it stands for one.
pub open spec fn builtin_named(name: Seq<char>) -> Option<LangFn> {
    named_from(registry(), 0, name)
}

/// The bindings that every evaluation starts with: each name of each
/// built-in procedure, bound to that procedure.
pub open spec fn initial_env() -> Map<Seq<char>, Datum> {
    Map::new(
        |name: Seq<char>| builtin_named(name) is Some,
        |name: Seq<char>| Datum::Function(Procedure::Native(builtin_named(name)->0)),
    )
}

/// The table declares for each procedure the number of arguments that its
/// operation asks for.
pub proof fn law_declared_arities()
    ensures
        forall|i: int|
            0 <= i < registry().len() ==> (#[trigger] registry()[i]).1.arity == arity_of(registry()[i].1.function),
        forall|name: Seq<char>|
            (#[trigger] builtin_named(name)) is Some ==> builtin_named(name)->0.arity == arity_of(
                builtin_named(name)->0.function,
            ),
{
    assert forall|name: Seq<char>| (#[trigger] builtin_named(name)) is Some implies builtin_named(name)->0.arity
        == arity_of(builtin_named(name)->0.function) by {
        lemma_named_is_listed(0, name);
    }
}

/// A procedure that a name stands for is one of the table's.
pub proof fn lemma_named_is_listed(from: nat, name: Seq<char>)
    ensures
        named_from(registry(), from, name) matches Some(f) ==> exists|i: int|
            0 <= i < registry().len() && (#[trigger] registry()[i]).1 == f,
    decreases registry().len() - from,
{
    if from < registry().len() && !registry()[from as int].0.contains(name) {
        lemma_named_is_listed(from + 1, name);
    }
}

/// The names of one entry of the table, as character sequences.
pub open spec fn names_of(names: Seq<&'static str>) -> Seq<Seq<char>> {
    Seq::new(names.len(), |i: int| names[i]@)
}

/// Whether a table of names and values is the registry.
pub open spec fn is_registry(table: Seq<(Vec<&'static str>, Value)>) -> bool {
    &&& table.len() == registry().len()
    &&& forall|i: int|
        0 <= i < table.len() ==> names_of((#[trigger] table[i]).0@) == registry()[i].0 && table[i].1@
            == Datum::Function(Procedure::Native(registry()[i].1))
}

fn native(arity: usize, function: Builtin) -> (r: Value)
    ensures
        r@ == Datum::Function(Procedure::Native(LangFn { arity, function })),
{
    Value::Function(LogoFn::LangFn(LangFn { arity, function }))
}

/// The table of built-in procedures.
pub fn get_builtins() -> (builtins: Vec<(Vec<&'static str>, Value)>)
    ensures
        is_registry(builtins@),
{
    let mut builtins: Vec<(Vec<&'static str>, Value)> = Vec::new();
    builtins.push((vec!["forward", "fd"], native(1, Builtin::Forward)));
    builtins.push((vec!["back", "bk"], native(1, Builtin::Back)));
    builtins.push((vec!["left", "lt"], native(1, Builtin::LeftTurn)));
    builtins.push((vec!["right", "rt"], native(1, Builtin::RightTurn)));
    builtins.push((vec!["setcolor"], native(1, Builtin::SetColor)));
    builtins.push((vec!["clearscreen", "cs"], native(0, Builtin::ClearScreen)));
    builtins.push((vec!["pick"], native(1, Builtin::Pick)));
    builtins.push((vec!["random"], native(1, Builtin::Random)));
    builtins.push((vec!["stop"], native(0, Builtin::Stop)));
    builtins.push((vec!["penup", "pu"], native(0, Builtin::PenUp)));
    builtins.push((vec!["pendown", "pd"], native(0, Builtin::PenDown)));
    builtins.push((vec!["label"], native(1, Builtin::Label)));
    builtins.push((vec!["setfontsize"], native(1, Builtin::SetFontSize)));
    builtins.push((vec!["setturtle"], native(1, Builtin::SetTurtle)));
    proof {
        assert forall|i: int| 0 <= i < builtins@.len() implies names_of((#[trigger] builtins@[i]).0@)
            == registry()[i].0 by {
            assert(names_of(builtins@[i].0@) =~= registry()[i].0);
        }
    }
    builtins
}

/// How many arguments a built-in operation takes.
pub fn arity(b: Builtin) -> (r: usize)
    ensures
        r == arity_of(b),
{
    match b {
        Builtin::ClearScreen | Builtin::Stop | Builtin::PenUp | Builtin::PenDown => 0,
        _ => 1,
    }
}

/// Carries out a built-in operation on the arguments that a call gave it.
pub fn apply_builtin(inter: &mut Interpreter, b: Builtin, args: Vec<Value>) -> (r: Result<Value, EvalError>)
    ensures
        final(inter).follows(*old(inter)),
        builtin_result(b, data(args@), old(inter)@, final(inter).tape()) == (Outcome {
            value: value_of(r),
            machine: final(inter)@,
        }),
{
    if args.len() != arity(b) {
        return Err(EvalError::ArityMismatch);
    }
    match b {
        Builtin::ClearScreen => {
            inter.emit(DrawCmd::ClearScreen);
            Ok(Value::Nothing)
        },
        Builtin::PenUp => {
            inter.emit(DrawCmd::PenUp);
            Ok(Value::Nothing)
        },
        Builtin::PenDown => {
            inter.emit(DrawCmd::PenDown);
            Ok(Value::Nothing)
        },
        Builtin::Stop => Ok(Value::Return),
        Builtin::SetColor => match &args[0] {
            Value::String(s) => {
                inter.emit(DrawCmd::SetColor(s.clone()));
                Ok(Value::Nothing)
            },
            _ => Err(EvalError::TypeMismatch),
        },
        Builtin::Label => match &args[0] {
            Value::String(s) => {
                inter.emit(DrawCmd::Label(s.clone()));
                Ok(Value::Nothing)
            },
            _ => Err(EvalError::TypeMismatch),
        },
        Builtin::Pick => match &args[0] {
            Value::List(list) => {
                proof {
                    args[0].lemma_list_datum();
                }
                if list.len() == 0 {
                    Err(EvalError::EmptyListPick)
                } else {
                    let index = inter.draw_below(list.len());
                    Ok(list[index].clone())
                }
            },
            _ => Err(EvalError::TypeMismatch),
        },
        Builtin::Forward => match &args[0] {
            Value::Number(n) => {
                inter.emit(DrawCmd::Forward(*n));
                Ok(Value::Nothing)
            },
            _ => Err(EvalError::TypeMismatch),
        },
        Builtin::Back => match &args[0] {
            Value::Number(n) => {
                inter.emit(DrawCmd::Back(*n));
                Ok(Value::Nothing)
            },
            _ => Err(EvalError::TypeMismatch),
        },
        Builtin::LeftTurn => match &args[0] {
            Value::Number(n) => {
                inter.emit(DrawCmd::LeftTurn(*n));
                Ok(Value::Nothing)
            },
            _ => Err(EvalError::TypeMismatch),
        },
        Builtin::RightTurn => match &args[0] {
            Value::Number(n) => {
                inter.emit(DrawCmd::RightTurn(*n));
                Ok(Value::Nothing)
            },
            _ => Err(EvalError::TypeMismatch),
        },
        Builtin::SetFontSize => match &args[0] {
            Value::Number(n) => {
                inter.emit(DrawCmd::SetFontSize(*n));
                Ok(Value::Nothing)
            },
            _ => Err(EvalError::TypeMismatch),
        },
        Builtin::SetTurtle => match &args[0] {
            Value::Number(n) => {
                inter.emit(DrawCmd::SetTurtle(truncation_of(*n)));
                Ok(Value::Nothing)
            },
            _ => Err(EvalError::TypeMismatch),
        },
        Builtin::Random => match &args[0] {
            Value::Number(n) => {
                let bound = truncation_of(*n);
                if bound <= 0 {
                    Err(EvalError::EmptyRandomRange)
                } else {
                    let r = inter.draw_below(bound as usize);
                    Ok(Value::Number(number_from_int(r as i32)))
                }
            },
            _ => Err(EvalError::TypeMismatch),
        },
    }
}

} // verus!
