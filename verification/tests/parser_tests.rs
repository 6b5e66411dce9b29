use logo::number::Number;
use logo::parser::{parse_logo_source, AstNode, Binop, ParseError, Rule};

fn lit(x: f64) -> AstNode {
    AstNode::Number(Number { bits: x.to_bits() })
}

fn call(name: &str, args: Vec<AstNode>) -> AstNode {
    AstNode::Call {
        f: Box::new(AstNode::Variable(name.to_string())),
        args: args.into_iter().map(Box::new).collect(),
    }
}

fn block(stmts: Vec<AstNode>) -> AstNode {
    AstNode::Block(stmts.into_iter().map(Box::new).collect())
}

fn binop(lhs: AstNode, op: Binop, rhs: AstNode) -> AstNode {
    AstNode::Binop { lhs: Box::new(lhs), op, rhs: Box::new(rhs) }
}

fn failure(source: &str) -> ParseError {
    match parse_logo_source(source) {
        Ok(ast) => panic!("parsed to {:?}", ast),
        Err(e) => e,
    }
}

#[test]
fn arith_expr() {
    let source = "print 1 + 2";
    let ast = parse_logo_source(source);
    assert!(ast.is_ok());
    let ast = ast.unwrap();
    assert_eq!(
        ast,
        AstNode::Block(vec![Box::new(AstNode::Call {
            f: Box::new(AstNode::Variable("print".to_string())),
            args: vec![Box::new(AstNode::Binop {
                lhs: Box::new(AstNode::Number(Number { bits: 1.0f64.to_bits() })),
                op: Binop::Add,
                rhs: Box::new(AstNode::Number(Number { bits: 2.0f64.to_bits() }))
            })]
        })])
    )
}

#[test]
fn operator_priority() {
    let source = "print 1 + 2 * 3";
    let ast = parse_logo_source(source);
    assert!(ast.is_ok());
    let ast = ast.unwrap();
    assert_eq!(
        ast,
        AstNode::Block(vec![Box::new(AstNode::Call {
            f: Box::new(AstNode::Variable("print".to_string())),
            args: vec![Box::new(AstNode::Binop {
                lhs: Box::new(AstNode::Number(Number { bits: 1.0f64.to_bits() })),
                op: Binop::Add,
                rhs: Box::new(AstNode::Binop {
                    lhs: Box::new(AstNode::Number(Number { bits: 2.0f64.to_bits() })),
                    op: Binop::Mul,
                    rhs: Box::new(AstNode::Number(Number { bits: 3.0f64.to_bits() })),
                })
            })]
        })])
    )
}

#[test]
fn empty_source_is_an_empty_block() {
    assert_eq!(parse_logo_source(""), Ok(block(vec![])));
    assert_eq!(parse_logo_source(" \n\t "), Ok(block(vec![])));
}

#[test]
fn multiplication_before_addition_on_the_left() {
    assert_eq!(
        parse_logo_source("print 2 * 3 + 1"),
        Ok(block(vec![call(
            "print",
            vec![binop(binop(lit(2.0), Binop::Mul, lit(3.0)), Binop::Add, lit(1.0))]
        )]))
    );
}

#[test]
fn operators_of_one_level_nest_to_the_right() {
    assert_eq!(
        parse_logo_source("print 10 - 2 - 3"),
        Ok(block(vec![call(
            "print",
            vec![binop(lit(10.0), Binop::Sub, binop(lit(2.0), Binop::Sub, lit(3.0)))]
        )]))
    );
}

#[test]
fn all_levels_of_precedence() {
    assert_eq!(
        parse_logo_source("print 1 + 2 < 3 * 4 and 5 >= 6 or 7 == 8"),
        Ok(block(vec![call(
            "print",
            vec![binop(
                binop(
                    binop(lit(1.0), Binop::Add, lit(2.0)),
                    Binop::Less,
                    binop(lit(3.0), Binop::Mul, lit(4.0))
                ),
                Binop::And,
                binop(
                    binop(lit(5.0), Binop::GreaterEqual, lit(6.0)),
                    Binop::Or,
                    binop(lit(7.0), Binop::EqualEqual, lit(8.0))
                )
            )]
        )]))
    );
}

#[test]
fn every_comparison_operator() {
    for (text, op) in [
        ("<", Binop::Less),
        ("<=", Binop::LessEqual),
        (">", Binop::Greater),
        (">=", Binop::GreaterEqual),
        ("==", Binop::EqualEqual),
    ] {
        assert_eq!(
            parse_logo_source(&format!("print 1 {} 2", text)),
            Ok(block(vec![call("print", vec![binop(lit(1.0), op, lit(2.0))])]))
        );
    }
}

#[test]
fn every_arithmetic_operator() {
    for (text, op) in [("+", Binop::Add), ("-", Binop::Sub), ("*", Binop::Mul), ("/", Binop::Div)] {
        assert_eq!(
            parse_logo_source(&format!("print 1{}2", text)),
            Ok(block(vec![call("print", vec![binop(lit(1.0), op, lit(2.0))])]))
        );
    }
}

#[test]
fn parentheses_group() {
    assert_eq!(
        parse_logo_source("print (1 + 2) * 3"),
        Ok(block(vec![call(
            "print",
            vec![binop(binop(lit(1.0), Binop::Add, lit(2.0)), Binop::Mul, lit(3.0))]
        )]))
    );
}

#[test]
fn decimal_and_negative_literals() {
    assert_eq!(
        parse_logo_source("fd 1.25 fd -3 fd 0.1"),
        Ok(block(vec![
            call("fd", vec![lit(1.25)]),
            call("fd", vec![lit(-3.0)]),
            call("fd", vec![lit(0.1)]),
        ]))
    );
}

#[test]
fn minus_after_an_operand_is_an_operator() {
    assert_eq!(
        parse_logo_source("fd 5 -3"),
        Ok(block(vec![call("fd", vec![binop(lit(5.0), Binop::Sub, lit(3.0))])]))
    );
}

#[test]
fn minus_apart_from_a_number_is_no_literal() {
    assert_eq!(failure("fd - 3"), ParseError { rule: Rule::Program, position: 3 });
}

#[test]
fn variables_strings_and_words() {
    assert_eq!(
        parse_logo_source("show :size \"hello red"),
        Ok(block(vec![call(
            "show",
            vec![
                AstNode::Variable("size".to_string()),
                AstNode::String("hello".to_string()),
                AstNode::String("red".to_string()),
            ]
        )]))
    );
}

#[test]
fn a_built_in_takes_no_more_than_its_arguments() {
    assert_eq!(
        parse_logo_source("fd 1 rt 90 square penup setcolor red label hello"),
        Ok(block(vec![
            call("fd", vec![lit(1.0)]),
            call("rt", vec![lit(90.0)]),
            call("square", vec![]),
            call("penup", vec![]),
            call("setcolor", vec![AstNode::String("red".to_string())]),
            call("label", vec![AstNode::String("hello".to_string())]),
        ]))
    );
    assert_eq!(failure("cs 1"), ParseError { rule: Rule::Program, position: 3 });
    assert_eq!(failure("fd 1 2"), ParseError { rule: Rule::Program, position: 5 });
}

#[test]
fn a_built_in_may_stand_without_its_arguments() {
    assert_eq!(
        parse_logo_source("fd rt 90"),
        Ok(block(vec![call("fd", vec![]), call("rt", vec![lit(90.0)])]))
    );
}

#[test]
fn another_name_takes_every_expression_that_follows() {
    assert_eq!(
        parse_logo_source("show 1 two \"three [ ] fd 2"),
        Ok(block(vec![
            call(
                "show",
                vec![
                    lit(1.0),
                    AstNode::String("two".to_string()),
                    AstNode::String("three".to_string()),
                    AstNode::List(vec![]),
                ]
            ),
            call("fd", vec![lit(2.0)]),
        ]))
    );
}

#[test]
fn lists_hold_expressions() {
    assert_eq!(
        parse_logo_source("setcolor pick [ red green 1 + 2 [ ] ]"),
        Ok(block(vec![call(
            "setcolor",
            vec![call(
                "pick",
                vec![AstNode::List(vec![
                    AstNode::String("red".to_string()),
                    AstNode::String("green".to_string()),
                    binop(lit(1.0), Binop::Add, lit(2.0)),
                    AstNode::List(vec![]),
                ])]
            )]
        )]))
    );
}

#[test]
fn random_takes_one_expression() {
    assert_eq!(
        parse_logo_source("show random 10 + 5 20"),
        Ok(block(vec![call(
            "show",
            vec![call("random", vec![binop(lit(10.0), Binop::Add, lit(5.0))]), lit(20.0)]
        )]))
    );
}

#[test]
fn conditional_and_loop() {
    assert_eq!(
        parse_logo_source("if :x < 1 [ stop ] repeat 4 [ fd 1 rt 90 ]"),
        Ok(block(vec![
            AstNode::If {
                condition: Box::new(binop(AstNode::Variable("x".to_string()), Binop::Less, lit(1.0))),
                body: Box::new(block(vec![call("stop", vec![])])),
            },
            AstNode::Loop {
                repeat: Box::new(lit(4.0)),
                body: Box::new(block(vec![call("fd", vec![lit(1.0)]), call("rt", vec![lit(90.0)])])),
            },
        ]))
    );
}

#[test]
fn procedure_definition() {
    assert_eq!(
        parse_logo_source("to proc :x :y fd :x end to nop end"),
        Ok(block(vec![
            AstNode::ProcDef {
                proc_name: "proc".to_string(),
                params: vec!["x".to_string(), "y".to_string()],
                body: Box::new(block(vec![call("fd", vec![AstNode::Variable("x".to_string())])])),
            },
            AstNode::ProcDef {
                proc_name: "nop".to_string(),
                params: vec![],
                body: Box::new(block(vec![])),
            },
        ]))
    );
}

#[test]
fn procedure_with_stop_parses() {
    assert_eq!(
        parse_logo_source("to proc :x if :x < 1 [ stop ] fd 1 end proc 0"),
        Ok(block(vec![
            AstNode::ProcDef {
                proc_name: "proc".to_string(),
                params: vec!["x".to_string()],
                body: Box::new(block(vec![
                    AstNode::If {
                        condition: Box::new(binop(AstNode::Variable("x".to_string()), Binop::Less, lit(1.0))),
                        body: Box::new(block(vec![call("stop", vec![])])),
                    },
                    call("fd", vec![lit(1.0)]),
                ])),
            },
            call("proc", vec![lit(0.0)]),
        ]))
    );
}

#[test]
fn keywords_are_whole_words() {
    assert_eq!(
        parse_logo_source("tomato iffy ending"),
        Ok(block(vec![call(
            "tomato",
            vec![AstNode::String("iffy".to_string()), AstNode::String("ending".to_string())]
        )]))
    );
}

#[test]
fn non_ascii_text_in_a_string() {
    assert_eq!(
        parse_logo_source("label \"héllo fd 1"),
        Ok(block(vec![
            call("label", vec![AstNode::String("héllo".to_string())]),
            call("fd", vec![lit(1.0)]),
        ]))
    );
}

#[test]
fn error_on_a_character_that_begins_no_token() {
    assert_eq!(failure("fd #"), ParseError { rule: Rule::Token, position: 3 });
    assert_eq!(failure("fd 1 = 2"), ParseError { rule: Rule::Token, position: 5 });
    assert_eq!(failure("é"), ParseError { rule: Rule::Token, position: 0 });
}

#[test]
fn error_position_counts_characters() {
    assert_eq!(failure("label \"é #"), ParseError { rule: Rule::Token, position: 9 });
}

#[test]
fn error_on_a_colon_without_a_name() {
    assert_eq!(failure("fd : x"), ParseError { rule: Rule::Variable, position: 3 });
    assert_eq!(failure("fd :"), ParseError { rule: Rule::Variable, position: 3 });
}

#[test]
fn error_on_trailing_input() {
    assert_eq!(failure("fd 1 )"), ParseError { rule: Rule::Program, position: 5 });
    assert_eq!(failure("1"), ParseError { rule: Rule::Program, position: 0 });
    assert_eq!(failure("fd 1 end"), ParseError { rule: Rule::Program, position: 5 });
}

#[test]
fn error_in_a_procedure_definition() {
    assert_eq!(failure("to 5"), ParseError { rule: Rule::ProcDef, position: 3 });
    assert_eq!(failure("to"), ParseError { rule: Rule::ProcDef, position: 2 });
    assert_eq!(failure("to f :x fd 1"), ParseError { rule: Rule::ProcDef, position: 12 });
    assert_eq!(failure("to f fd 1 ]"), ParseError { rule: Rule::ProcDef, position: 10 });
}

#[test]
fn error_in_a_conditional() {
    assert_eq!(failure("if 1 fd 2"), ParseError { rule: Rule::Cond, position: 5 });
    assert_eq!(failure("if 1 [ fd 2"), ParseError { rule: Rule::Cond, position: 11 });
    assert_eq!(failure("if [ fd 2 ]"), ParseError { rule: Rule::List, position: 5 });
}

#[test]
fn error_in_a_loop() {
    assert_eq!(failure("repeat 4 fd 1"), ParseError { rule: Rule::Repeat, position: 9 });
    assert_eq!(failure("repeat 4 [ fd 1"), ParseError { rule: Rule::Repeat, position: 15 });
    assert_eq!(failure("repeat"), ParseError { rule: Rule::Primary, position: 6 });
}

#[test]
fn error_in_an_operand() {
    assert_eq!(failure("fd 1 +"), ParseError { rule: Rule::Primary, position: 6 });
    assert_eq!(failure("fd 1 + end"), ParseError { rule: Rule::Primary, position: 7 });
    assert_eq!(failure("fd random"), ParseError { rule: Rule::Primary, position: 9 });
    assert_eq!(failure("fd (1"), ParseError { rule: Rule::Group, position: 5 });
    assert_eq!(failure("fd [1 2"), ParseError { rule: Rule::List, position: 7 });
    assert_eq!(failure("fd [ fd ]"), ParseError { rule: Rule::List, position: 5 });
}
