use logo::drawer::DrawCmd;
use logo::interpreter::semantics::EvalError;
use logo::interpreter::value::{Builtin, LangFn, LogoFn, Value};
use logo::interpreter::{evaluate, Interpreter, DEFAULT_DEPTH};
use logo::number::Number;
use logo::parser::{parse_logo_source, AstNode, Binop};

fn num(x: f64) -> Number {
    Number { bits: x.to_bits() }
}

fn float(n: Number) -> f64 {
    f64::from_bits(n.bits)
}

fn draw(source: &str) -> Result<Vec<DrawCmd>, EvalError> {
    let ast = parse_logo_source(source);
    assert!(ast.is_ok(), "{:?}", ast);
    evaluate(&ast.unwrap())
}

fn forwards(source: &str) -> Vec<f64> {
    draw(source)
        .unwrap()
        .into_iter()
        .map(|cmd| match cmd {
            DrawCmd::Forward(n) => float(n),
            other => panic!("not a move forward: {:?}", other),
        })
        .collect()
}

#[test]
fn simple_forward() {
    let source = "forward 1 + 2";
    let ast = parse_logo_source(source);
    assert!(ast.is_ok());
    let ast = ast.unwrap();
    assert_eq!(evaluate(&ast), Ok(vec![DrawCmd::Forward(Number { bits: 3.0f64.to_bits() })]))
}

#[test]
fn repeat_forward() {
    let source = "repeat 4 [ forward 1 ]";
    let ast = parse_logo_source(source);
    assert!(ast.is_ok());
    let ast = ast.unwrap();
    assert_eq!(
        evaluate(&ast),
        Ok(vec![
            DrawCmd::Forward(Number { bits: 1.0f64.to_bits() }),
            DrawCmd::Forward(Number { bits: 1.0f64.to_bits() }),
            DrawCmd::Forward(Number { bits: 1.0f64.to_bits() }),
            DrawCmd::Forward(Number { bits: 1.0f64.to_bits() })
        ])
    )
}

#[test]
fn procedure_with_stop() {
    let source = "to proc :x if :x < 1 [ stop ] fd 1 end proc 0";
    let ast = parse_logo_source(source);
    assert!(ast.is_ok());
    let ast = ast.unwrap();
    assert_eq!(evaluate(&ast), Ok(vec![]))
}

#[test]
fn procedure_without_stop_goes_on() {
    assert_eq!(forwards("to proc :x if :x < 1 [ stop ] fd 1 end proc 1"), vec![1.0]);
}

#[test]
fn forward_of_a_sum_of_literals() {
    for (a, b) in [(1.0, 2.0), (0.1, 0.2), (1e10, 0.5), (2.5, 100.25), (0.0, 0.0)] {
        assert_eq!(forwards(&format!("forward {} + {}", a, b)), vec![a + b]);
    }
    assert_eq!(forwards("forward -1.5 + -2"), vec![-3.5]);
}

#[test]
fn repeat_draws_as_often_as_the_count_says() {
    for k in [0usize, 1, 2, 7, 100] {
        assert_eq!(forwards(&format!("repeat {} [ forward 2.5 ]", k)), vec![2.5; k]);
    }
}

#[test]
fn repeat_count_is_truncated() {
    assert_eq!(forwards("repeat 2.9 [ fd 1 ]"), vec![1.0, 1.0]);
    assert_eq!(forwards("repeat 0.9 [ fd 1 ]"), Vec::<f64>::new());
    assert_eq!(forwards("repeat -3 [ fd 1 ]"), Vec::<f64>::new());
    assert_eq!(forwards("repeat 0 / 0 [ fd 1 ]"), Vec::<f64>::new());
}

#[test]
fn arithmetic_is_that_of_doubles() {
    assert_eq!(forwards("fd 7 / 2"), vec![3.5]);
    assert_eq!(forwards("fd 2 * 3 - 1"), vec![5.0]);
    assert_eq!(forwards("fd 1 + 2 * 3"), vec![7.0]);
    assert_eq!(forwards("fd 10 - 2 - 3"), vec![11.0]);
    assert_eq!(forwards("fd (10 - 2) - 3"), vec![5.0]);
    assert_eq!(forwards("fd 0.1 + 0.2"), vec![0.1 + 0.2]);
    assert_eq!(forwards("fd 0.1 * 3"), vec![0.1 * 3.0]);
    assert_eq!(forwards("fd 1 / 3"), vec![1.0 / 3.0]);
    assert_eq!(forwards("fd 5 - 7.25"), vec![-2.25]);
}

#[test]
fn division_by_zero_is_not_an_error() {
    assert_eq!(forwards("fd 1 / 0"), vec![f64::INFINITY]);
    assert_eq!(forwards("fd -1 / 0"), vec![f64::NEG_INFINITY]);
    assert!(forwards("fd 0 / 0")[0].is_nan());
}

#[test]
fn comparisons() {
    assert_eq!(forwards("if 1 < 2 [ fd 1 ] if 2 < 2 [ fd 2 ] if 3 < 2 [ fd 3 ]"), vec![1.0]);
    assert_eq!(forwards("if 1 <= 2 [ fd 1 ] if 2 <= 2 [ fd 2 ] if 3 <= 2 [ fd 3 ]"), vec![1.0, 2.0]);
    assert_eq!(forwards("if 1 > 2 [ fd 1 ] if 2 > 2 [ fd 2 ] if 3 > 2 [ fd 3 ]"), vec![3.0]);
    assert_eq!(forwards("if 1 >= 2 [ fd 1 ] if 2 >= 2 [ fd 2 ] if 3 >= 2 [ fd 3 ]"), vec![2.0, 3.0]);
    assert_eq!(forwards("if 1 == 2 [ fd 1 ] if 2 == 2 [ fd 2 ] if 3 == 2 [ fd 3 ]"), vec![2.0]);
}

#[test]
fn a_nan_compares_with_nothing() {
    assert_eq!(forwards("if 0 / 0 == 0 / 0 [ fd 1 ] if 0 / 0 < 1 [ fd 2 ] if 0 / 0 >= 1 [ fd 3 ]"), Vec::<f64>::new());
}

#[test]
fn zero_equals_minus_zero() {
    assert_eq!(forwards("if 0 == -0 [ fd 1 ]"), vec![1.0]);
}

#[test]
fn logical_operators() {
    assert_eq!(forwards("if 1 < 2 and 2 < 3 [ fd 1 ] if 1 < 2 and 3 < 2 [ fd 2 ]"), vec![1.0]);
    assert_eq!(forwards("if 2 < 1 or 2 < 3 [ fd 1 ] if 2 < 1 or 3 < 2 [ fd 2 ]"), vec![1.0]);
}

#[test]
fn binop_on_values() {
    assert_eq!(
        Interpreter::eval_binop(Value::Number(num(6.0)), &Binop::Mul, Value::Number(num(7.0))),
        Ok(Value::Number(num(42.0)))
    );
    assert_eq!(
        Interpreter::eval_binop(Value::Number(num(6.0)), &Binop::Sub, Value::Number(num(7.0))),
        Ok(Value::Number(num(-1.0)))
    );
    assert_eq!(
        Interpreter::eval_binop(Value::Number(num(6.0)), &Binop::Div, Value::Number(num(4.0))),
        Ok(Value::Number(num(1.5)))
    );
    assert_eq!(
        Interpreter::eval_binop(Value::Number(num(6.0)), &Binop::Add, Value::Number(num(4.0))),
        Ok(Value::Number(num(10.0)))
    );
    assert_eq!(
        Interpreter::eval_binop(Value::Number(num(6.0)), &Binop::Less, Value::Number(num(4.0))),
        Ok(Value::Bool(false))
    );
    assert_eq!(
        Interpreter::eval_binop(Value::Number(num(4.0)), &Binop::Less, Value::Number(num(6.0))),
        Ok(Value::Bool(true))
    );
    assert_eq!(
        Interpreter::eval_binop(Value::Bool(true), &Binop::And, Value::Bool(false)),
        Ok(Value::Bool(false))
    );
    assert_eq!(
        Interpreter::eval_binop(Value::Bool(true), &Binop::Or, Value::Bool(false)),
        Ok(Value::Bool(true))
    );
}

#[test]
fn mismatched_operands_fail() {
    let ops = [
        Binop::And,
        Binop::Or,
        Binop::Less,
        Binop::LessEqual,
        Binop::Greater,
        Binop::GreaterEqual,
        Binop::EqualEqual,
        Binop::Add,
        Binop::Sub,
        Binop::Mul,
        Binop::Div,
    ];
    for op in ops {
        assert_eq!(
            Interpreter::eval_binop(Value::String("true".to_string()), &op, Value::Number(num(1.0))),
            Err(EvalError::TypeMismatch)
        );
        assert_eq!(
            Interpreter::eval_binop(Value::Bool(true), &op, Value::Number(num(1.0))),
            Err(EvalError::TypeMismatch)
        );
        assert_eq!(
            Interpreter::eval_binop(Value::Number(num(1.0)), &op, Value::Nothing),
            Err(EvalError::TypeMismatch)
        );
    }
    assert_eq!(
        Interpreter::eval_binop(Value::Number(num(1.0)), &Binop::And, Value::Number(num(1.0))),
        Err(EvalError::TypeMismatch)
    );
    assert_eq!(
        Interpreter::eval_binop(Value::Bool(true), &Binop::Add, Value::Bool(true)),
        Err(EvalError::TypeMismatch)
    );
    assert_eq!(draw("fd \"true + 1"), Err(EvalError::TypeMismatch));
    assert_eq!(draw("if 1 and 2 [ fd 1 ]"), Err(EvalError::TypeMismatch));
}

#[test]
fn guard_must_be_boolean() {
    assert_eq!(draw("if 1 [ fd 1 ]"), Err(EvalError::NonBooleanGuard));
    assert_eq!(draw("if \"true [ fd 1 ]"), Err(EvalError::NonBooleanGuard));
    assert_eq!(draw("if [ ] [ fd 1 ]"), Err(EvalError::NonBooleanGuard));
}

#[test]
fn repeat_count_must_be_a_number() {
    assert_eq!(draw("repeat \"four [ fd 1 ]"), Err(EvalError::NonNumericRepeatCount));
    assert_eq!(draw("repeat 1 < 2 [ fd 1 ]"), Err(EvalError::NonNumericRepeatCount));
}

#[test]
fn unbound_variable() {
    assert_eq!(draw("fd :nowhere"), Err(EvalError::UnboundVariable("nowhere".to_string())));
    assert_eq!(draw("print 1"), Err(EvalError::UnboundVariable("print".to_string())));
}

#[test]
fn wrong_number_of_arguments() {
    assert_eq!(draw("fd"), Err(EvalError::ArityMismatch));
    assert_eq!(draw("setcolor"), Err(EvalError::ArityMismatch));
    for (name, count) in [("fd", 2), ("penup", 1), ("stop", 1), ("pick", 0), ("random", 3)] {
        let call = AstNode::Call {
            f: Box::new(AstNode::Variable(name.to_string())),
            args: vec![Box::new(AstNode::Number(num(1.0))); count],
        };
        assert_eq!(evaluate(&call), Err(EvalError::ArityMismatch));
    }
    assert_eq!(draw("to f :x end f"), Err(EvalError::ArityMismatch));
    assert_eq!(draw("to f :x end f 1 2"), Err(EvalError::ArityMismatch));
}

#[test]
fn wrong_type_of_argument() {
    assert_eq!(draw("fd \"far"), Err(EvalError::TypeMismatch));
    assert_eq!(draw("setcolor 1"), Err(EvalError::TypeMismatch));
    assert_eq!(draw("label 1"), Err(EvalError::TypeMismatch));
    assert_eq!(draw("fd pick 1"), Err(EvalError::TypeMismatch));
    assert_eq!(draw("fd random \"ten"), Err(EvalError::TypeMismatch));
    assert_eq!(draw("setturtle [ 1 ]"), Err(EvalError::TypeMismatch));
}

#[test]
fn only_procedures_can_be_called() {
    assert_eq!(draw("to f :x x end f 1"), Err(EvalError::NotCallable));
}

#[test]
fn arguments_are_evaluated_before_the_callee_is_judged() {
    assert_eq!(
        draw("to f :x x :nowhere end f 1"),
        Err(EvalError::UnboundVariable("nowhere".to_string()))
    );
}

#[test]
fn pick_of_an_empty_list_fails() {
    assert_eq!(draw("fd pick [ ]"), Err(EvalError::EmptyListPick));
}

#[test]
fn pick_gives_a_member() {
    for _ in 0..200 {
        let got = forwards("fd pick [ 10 20 30 ]");
        assert_eq!(got.len(), 1);
        assert!([10.0, 20.0, 30.0].contains(&got[0]));
    }
    for _ in 0..20 {
        assert_eq!(forwards("fd pick [ 7 ]"), vec![7.0]);
    }
    assert_eq!(draw("setcolor pick [ red ]"), Ok(vec![DrawCmd::SetColor("red".to_string())]));
}

#[test]
fn pick_reaches_every_member() {
    let mut seen = [false; 3];
    for _ in 0..2000 {
        let got = forwards("fd pick [ 0 1 2 ]");
        seen[got[0] as usize] = true;
    }
    assert_eq!(seen, [true, true, true]);
}

#[test]
fn random_is_an_integer_in_range() {
    for _ in 0..500 {
        let got = forwards("fd random 10");
        assert_eq!(got.len(), 1);
        assert!(0.0 <= got[0] && got[0] < 10.0);
        assert_eq!(got[0], got[0].trunc());
    }
    for _ in 0..20 {
        assert_eq!(forwards("fd random 1"), vec![0.0]);
        assert_eq!(forwards("fd random 1.9"), vec![0.0]);
    }
}

#[test]
fn random_of_an_empty_range_fails() {
    assert_eq!(draw("fd random 0"), Err(EvalError::EmptyRandomRange));
    assert_eq!(draw("fd random -5"), Err(EvalError::EmptyRandomRange));
    assert_eq!(draw("fd random 0.5"), Err(EvalError::EmptyRandomRange));
}

#[test]
fn every_drawing_command() {
    assert_eq!(
        draw(
            "forward 1 fd 2 back 3 bk 4 left 5 lt 6 right 7 rt 8 setcolor \"red setcolor blue \
             clearscreen cs penup pu pendown pd label \"hi setfontsize 20 setturtle 2"
        ),
        Ok(vec![
            DrawCmd::Forward(num(1.0)),
            DrawCmd::Forward(num(2.0)),
            DrawCmd::Back(num(3.0)),
            DrawCmd::Back(num(4.0)),
            DrawCmd::LeftTurn(num(5.0)),
            DrawCmd::LeftTurn(num(6.0)),
            DrawCmd::RightTurn(num(7.0)),
            DrawCmd::RightTurn(num(8.0)),
            DrawCmd::SetColor("red".to_string()),
            DrawCmd::SetColor("blue".to_string()),
            DrawCmd::ClearScreen,
            DrawCmd::ClearScreen,
            DrawCmd::PenUp,
            DrawCmd::PenUp,
            DrawCmd::PenDown,
            DrawCmd::PenDown,
            DrawCmd::Label("hi".to_string()),
            DrawCmd::SetFontSize(num(20.0)),
            DrawCmd::SetTurtle(2),
        ])
    );
}

#[test]
fn setturtle_truncates() {
    assert_eq!(draw("setturtle 2.7"), Ok(vec![DrawCmd::SetTurtle(2)]));
    assert_eq!(draw("setturtle -2.7"), Ok(vec![DrawCmd::SetTurtle(-2)]));
    assert_eq!(draw("setturtle 1 / 0"), Ok(vec![DrawCmd::SetTurtle(i32::MAX)]));
    assert_eq!(draw("setturtle -1 / 0"), Ok(vec![DrawCmd::SetTurtle(i32::MIN)]));
    assert_eq!(draw("setturtle 0 / 0"), Ok(vec![DrawCmd::SetTurtle(0)]));
    assert_eq!(draw("setturtle 3000000000"), Ok(vec![DrawCmd::SetTurtle(i32::MAX)]));
}

#[test]
fn the_counter_counts_from_one() {
    assert_eq!(forwards("repeat 3 [ fd :repcount ]"), vec![1.0, 2.0, 3.0]);
}

#[test]
fn nested_loops_keep_their_own_counters() {
    assert_eq!(
        draw("repeat 2 [ repeat 3 [ fd :repcount ] bk :repcount ]"),
        Ok(vec![
            DrawCmd::Forward(num(1.0)),
            DrawCmd::Forward(num(2.0)),
            DrawCmd::Forward(num(3.0)),
            DrawCmd::Back(num(1.0)),
            DrawCmd::Forward(num(1.0)),
            DrawCmd::Forward(num(2.0)),
            DrawCmd::Forward(num(3.0)),
            DrawCmd::Back(num(2.0)),
        ])
    );
}

#[test]
fn the_counter_is_unbound_after_the_outermost_loop() {
    assert_eq!(draw("repeat 2 [ ] fd :repcount"), Err(EvalError::UnboundVariable("repcount".to_string())));
}

#[test]
fn a_loop_restores_a_counter_bound_before_it() {
    assert_eq!(forwards("to f :repcount repeat 2 [ ] fd :repcount end f 9"), vec![9.0]);
}

#[test]
fn parameters_are_restored_after_a_call() {
    assert_eq!(
        draw("to f :x fd :x end to g :x f 5 bk :x end g 7"),
        Ok(vec![DrawCmd::Forward(num(5.0)), DrawCmd::Back(num(7.0))])
    );
}

#[test]
fn a_parameter_unbound_before_a_call_is_unbound_after_it() {
    assert_eq!(draw("to f :x fd :x end f 1 fd :x"), Err(EvalError::UnboundVariable("x".to_string())));
}

#[test]
fn a_parameter_named_twice_is_restored_too() {
    assert_eq!(
        draw("to f :x :x fd :x end to g :x f 1 2 bk :x end g 7"),
        Ok(vec![DrawCmd::Forward(num(2.0)), DrawCmd::Back(num(7.0))])
    );
}

#[test]
fn a_call_gives_nothing_and_stop_ends_only_its_block() {
    assert_eq!(forwards("to f stop end f fd 1"), vec![1.0]);
    assert_eq!(forwards("to f fd 1 stop fd 2 end f fd 3"), vec![1.0, 3.0]);
    assert_eq!(forwards("fd 1 stop fd 2"), vec![1.0]);
}

#[test]
fn stop_in_a_loop_ends_the_round_only() {
    assert_eq!(forwards("repeat 3 [ fd 1 stop fd 2 ] fd 3"), vec![1.0, 1.0, 1.0, 3.0]);
}

#[test]
fn stop_in_a_conditional_ends_the_block_around_it() {
    assert_eq!(
        forwards("to f :x fd 1 if :x > 0 [ stop ] fd 2 end repeat 2 [ f 2 - :repcount ]"),
        vec![1.0, 1.0, 2.0]
    );
}

#[test]
fn procedures_and_variables_share_one_namespace() {
    assert_eq!(draw("to f :g g end to g fd 1 end f 3"), Err(EvalError::NotCallable));
}

#[test]
fn a_definition_inside_a_procedure_is_global() {
    assert_eq!(forwards("to f to g fd 4 end end f repeat 1 [ g ]"), vec![4.0]);
}

#[test]
fn a_built_in_can_be_redefined() {
    assert_eq!(draw("to fd :x bk :x end fd 3"), Ok(vec![DrawCmd::Back(num(3.0))]));
}

#[test]
fn recursion_with_a_stop() {
    assert_eq!(
        forwards("to spiral :size if :size > 30 [ stop ] fd :size spiral :size * 2 end spiral 10"),
        vec![10.0, 20.0]
    );
}

#[test]
fn recursion_below_the_limit() {
    let got = forwards("to count :n if :n < 1 [ stop ] fd :n count :n - 1 end count 100");
    assert_eq!(got.len(), 100);
    assert_eq!(got[0], 100.0);
    assert_eq!(got[99], 1.0);
}

#[test]
fn endless_recursion_fails() {
    assert_eq!(draw("to f fd 1 f end f"), Err(EvalError::DepthExceeded));
}

#[test]
fn the_limit_counts_nested_calls() {
    let ast = parse_logo_source("to f :n if :n < 1 [ stop ] fd :n f :n - 1 end f 3").unwrap();
    let mut deep = Interpreter::with_limit(4);
    assert_eq!(deep.eval(&ast), Ok(Value::Nothing));
    assert_eq!(deep.drawing().len(), 3);
    let mut shallow = Interpreter::with_limit(3);
    assert_eq!(shallow.eval(&ast), Err(EvalError::DepthExceeded));
    let mut none = Interpreter::with_limit(0);
    assert_eq!(none.eval(&parse_logo_source("fd 1").unwrap()), Ok(Value::Nothing));
    assert_eq!(none.eval(&parse_logo_source("to f end f").unwrap()), Err(EvalError::DepthExceeded));
    assert_eq!(DEFAULT_DEPTH, 128);
}

#[test]
fn a_new_interpreter_knows_the_built_ins() {
    let inter = Interpreter::new();
    assert_eq!(
        inter.get("fd"),
        Some(Value::Function(LogoFn::LangFn(LangFn { arity: 1, function: Builtin::Forward })))
    );
    assert_eq!(inter.get("forward"), inter.get("fd"));
    assert_eq!(
        inter.get("stop"),
        Some(Value::Function(LogoFn::LangFn(LangFn { arity: 0, function: Builtin::Stop })))
    );
    assert_eq!(inter.get("print"), None);
    assert_eq!(inter.get("repcount"), None);
    assert!(inter.drawing().is_empty());
}

#[test]
fn values_of_nodes() {
    let mut inter = Interpreter::new();
    assert_eq!(inter.eval(&AstNode::Number(num(2.5))), Ok(Value::Number(num(2.5))));
    assert_eq!(inter.eval(&AstNode::String("a".to_string())), Ok(Value::String("a".to_string())));
    assert_eq!(
        inter.eval(&AstNode::List(vec![AstNode::Number(num(1.0)), AstNode::String("b".to_string())])),
        Ok(Value::List(vec![Value::Number(num(1.0)), Value::String("b".to_string())]))
    );
    assert_eq!(inter.eval(&AstNode::Block(vec![])), Ok(Value::Nothing));
    assert_eq!(
        inter.eval(&AstNode::Block(vec![Box::new(AstNode::Number(num(1.0))), Box::new(AstNode::Number(num(2.0)))])),
        Ok(Value::Number(num(2.0)))
    );
    assert_eq!(inter.eval(&parse_logo_source("stop").unwrap()), Ok(Value::Return));
    assert_eq!(inter.eval(&parse_logo_source("if 1 < 2 [ ]").unwrap()), Ok(Value::Nothing));
    assert_eq!(inter.eval(&parse_logo_source("if 2 < 1 [ stop ]").unwrap()), Ok(Value::Nothing));
    assert_eq!(inter.eval(&parse_logo_source("repeat 2 [ stop ]").unwrap()), Ok(Value::Nothing));
}

#[test]
fn list_items_are_evaluated_in_order() {
    assert_eq!(draw("fd pick [ :nowhere ]"), Err(EvalError::UnboundVariable("nowhere".to_string())));
    let mut inter = Interpreter::new();
    let ast = parse_logo_source("to f :l end f [ 1 + 1 2 * 3 \"a ]").unwrap();
    assert_eq!(inter.eval(&ast), Ok(Value::Nothing));
}

#[test]
fn an_interpreter_keeps_its_state_between_evaluations() {
    let mut inter = Interpreter::new();
    assert_eq!(inter.eval(&parse_logo_source("to sq :s repeat 4 [ fd :s rt 90 ] end").unwrap()), Ok(Value::Nothing));
    assert_eq!(inter.eval(&parse_logo_source("sq 10").unwrap()), Ok(Value::Nothing));
    assert_eq!(inter.drawing().len(), 8);
    assert_eq!(inter.drawing()[0], DrawCmd::Forward(num(10.0)));
    assert_eq!(inter.drawing()[7], DrawCmd::RightTurn(num(90.0)));
    assert_eq!(inter.get("s"), None);
}

#[test]
fn failures_in_words() {
    assert_eq!(EvalError::UnboundVariable("size".to_string()).describe(), "unbound variable size");
    assert_eq!(EvalError::TypeMismatch.describe(), "operand or argument of the wrong type");
    assert_eq!(EvalError::ArityMismatch.describe(), "wrong number of arguments");
    assert_eq!(EvalError::NotCallable.describe(), "can only call procedures");
    assert_eq!(EvalError::EmptyListPick.describe(), "pick of an empty list");
    assert_eq!(EvalError::NonBooleanGuard.describe(), "the condition of an if is not a boolean");
    assert_eq!(EvalError::NonNumericRepeatCount.describe(), "the count of a repeat is not a number");
    assert_eq!(EvalError::EmptyRandomRange.describe(), "random of a number below one");
    assert_eq!(EvalError::DepthExceeded.describe(), "procedure calls are nested too deep");
    let e = EvalError::UnboundVariable("x".to_string());
    assert_eq!(e.clone(), e);
}
