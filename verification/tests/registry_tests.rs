use logo::interpreter::builtins::{apply_builtin, arity, get_builtins};
use logo::interpreter::semantics::EvalError;
use logo::interpreter::value::{Builtin, LangFn, LogoFn, Value};
use logo::interpreter::Interpreter;
use logo::lexer::{tokenize, ParseError, Rule, Token, TokenKind};
use logo::number::Number;
use logo::parser::{chars_of, parse_tokens, AstNode, Binop};

fn native(arity: usize, function: Builtin) -> Value {
    Value::Function(LogoFn::LangFn(LangFn { arity, function }))
}

fn kinds(source: &str) -> Vec<TokenKind> {
    let chars: Vec<char> = source.chars().collect();
    tokenize(&chars).unwrap().into_iter().map(|t| t.kind).collect()
}

#[test]
fn the_table_of_built_ins() {
    assert_eq!(
        get_builtins(),
        vec![
            (vec!["forward", "fd"], native(1, Builtin::Forward)),
            (vec!["back", "bk"], native(1, Builtin::Back)),
            (vec!["left", "lt"], native(1, Builtin::LeftTurn)),
            (vec!["right", "rt"], native(1, Builtin::RightTurn)),
            (vec!["setcolor"], native(1, Builtin::SetColor)),
            (vec!["clearscreen", "cs"], native(0, Builtin::ClearScreen)),
            (vec!["pick"], native(1, Builtin::Pick)),
            (vec!["random"], native(1, Builtin::Random)),
            (vec!["stop"], native(0, Builtin::Stop)),
            (vec!["penup", "pu"], native(0, Builtin::PenUp)),
            (vec!["pendown", "pd"], native(0, Builtin::PenDown)),
            (vec!["label"], native(1, Builtin::Label)),
            (vec!["setfontsize"], native(1, Builtin::SetFontSize)),
            (vec!["setturtle"], native(1, Builtin::SetTurtle)),
        ]
    );
}

#[test]
fn every_name_of_the_table_is_bound() {
    let inter = Interpreter::new();
    for (names, value) in get_builtins() {
        for name in names {
            assert_eq!(inter.get(name), Some(value.clone()));
        }
    }
}

#[test]
fn declared_arities_are_the_ones_checked() {
    for (_, value) in get_builtins() {
        match value {
            Value::Function(LogoFn::LangFn(f)) => assert_eq!(f.arity, arity(f.function)),
            other => panic!("not a built-in: {:?}", other),
        }
    }
}

#[test]
fn a_built_in_applied_to_values() {
    let mut inter = Interpreter::new();
    assert_eq!(
        apply_builtin(&mut inter, Builtin::Forward, vec![Value::Number(Number { bits: 2.0f64.to_bits() })]),
        Ok(Value::Nothing)
    );
    assert_eq!(inter.drawing().len(), 1);
    assert_eq!(apply_builtin(&mut inter, Builtin::Stop, vec![]), Ok(Value::Return));
    assert_eq!(
        apply_builtin(&mut inter, Builtin::Pick, vec![Value::List(vec![Value::Bool(true)])]),
        Ok(Value::Bool(true))
    );
    assert_eq!(
        apply_builtin(&mut inter, Builtin::Pick, vec![Value::List(vec![])]),
        Err(EvalError::EmptyListPick)
    );
    assert_eq!(apply_builtin(&mut inter, Builtin::Pick, vec![]), Err(EvalError::ArityMismatch));
    assert_eq!(inter.drawing().len(), 1);
}

#[test]
fn values_can_be_copied() {
    let value = Value::List(vec![
        Value::Number(Number { bits: 1 }),
        Value::String("a".to_string()),
        native(0, Builtin::Stop),
    ]);
    assert_eq!(value.clone(), value);
    let node = AstNode::Binop {
        lhs: Box::new(AstNode::Variable("x".to_string())),
        op: Binop::Add,
        rhs: Box::new(AstNode::List(vec![AstNode::Number(Number { bits: 7 })])),
    };
    assert_eq!(node.clone(), node);
}

#[test]
fn token_kinds() {
    assert_eq!(
        kinds("to end if repeat and or pick random fd name :v \"q [ ] ( ) 1 2.5 + - * / < <= > >= =="),
        vec![
            TokenKind::To,
            TokenKind::End,
            TokenKind::If,
            TokenKind::Repeat,
            TokenKind::Operator(Binop::And),
            TokenKind::Operator(Binop::Or),
            TokenKind::Function,
            TokenKind::Function,
            TokenKind::Command(1),
            TokenKind::Name,
            TokenKind::Variable,
            TokenKind::Quoted,
            TokenKind::Open,
            TokenKind::Close,
            TokenKind::LeftParen,
            TokenKind::RightParen,
            TokenKind::Number,
            TokenKind::Number,
            TokenKind::Operator(Binop::Add),
            TokenKind::Operator(Binop::Sub),
            TokenKind::Operator(Binop::Mul),
            TokenKind::Operator(Binop::Div),
            TokenKind::Operator(Binop::Less),
            TokenKind::Operator(Binop::LessEqual),
            TokenKind::Operator(Binop::Greater),
            TokenKind::Operator(Binop::GreaterEqual),
            TokenKind::Operator(Binop::EqualEqual),
        ]
    );
}

#[test]
fn token_ranges() {
    let chars: Vec<char> = " fd  12.5[\"a]".chars().collect();
    assert_eq!(
        tokenize(&chars),
        Ok(vec![
            Token { kind: TokenKind::Command(1), start: 1, end: 3 },
            Token { kind: TokenKind::Number, start: 5, end: 9 },
            Token { kind: TokenKind::Open, start: 9, end: 10 },
            Token { kind: TokenKind::Quoted, start: 10, end: 12 },
            Token { kind: TokenKind::Close, start: 12, end: 13 },
        ])
    );
}

#[test]
fn a_dot_needs_digits_on_both_sides() {
    let chars: Vec<char> = "1.".chars().collect();
    assert_eq!(tokenize(&chars), Err(ParseError { rule: Rule::Token, position: 1 }));
    let chars: Vec<char> = ".5".chars().collect();
    assert_eq!(tokenize(&chars), Err(ParseError { rule: Rule::Token, position: 0 }));
}

#[test]
fn every_alias_is_a_command() {
    for (names, value) in get_builtins() {
        let arity = match value {
            Value::Function(LogoFn::LangFn(f)) => f.arity,
            other => panic!("not a built-in: {:?}", other),
        };
        for name in names {
            let expected =
                if name == "pick" || name == "random" { TokenKind::Function } else { TokenKind::Command(arity) };
            assert_eq!(kinds(name), vec![expected]);
        }
    }
    assert_eq!(kinds("fdx forwards Fd"), vec![TokenKind::Name, TokenKind::Name, TokenKind::Name]);
}

#[test]
fn characters_of_a_text() {
    assert_eq!(chars_of("aé[1"), vec!['a', 'é', '[', '1']);
    assert_eq!(chars_of(""), Vec::<char>::new());
}

#[test]
fn tokens_to_tree() {
    let chars: Vec<char> = "fd 1".chars().collect();
    let toks = tokenize(&chars).unwrap();
    assert_eq!(
        parse_tokens(&chars, &toks),
        Ok(AstNode::Block(vec![Box::new(AstNode::Call {
            f: Box::new(AstNode::Variable("fd".to_string())),
            args: vec![Box::new(AstNode::Number(Number { bits: 1.0f64.to_bits() }))],
        })]))
    );
}
