//! The grammar of the language, as a function from tokens to a tree.
//!
//! ```text
//! program   = statement* end-of-input
//! statement = "to" word variable* statement* "end"
//!           | "if" expr "[" statement* "]"
//!           | "repeat" expr "[" statement* "]"
//!           | command expr{0,n}
//!           | name expr*
//! expr      = logic
//! logic     = comp (("and" | "or") logic)?
//! comp      = add (("<" | "<=" | ">" | ">=" | "==") comp)?
//! add       = mult (("+" | "-") add)?
//! mult      = primary (("*" | "/") mult)?
//! primary   = number | "-" number | variable | quoted | name
//!           | "[" expr* "]" | "(" expr ")" | ("pick" | "random") expr
//! ```
//!
//! A `word` is any word but `to`, `end`, `if`, `repeat`, `and`, `or`. A
//! `command` is a word that names a built-in procedure; the call of one takes
//! the expressions that follow it, but no more than the `n` arguments that
//! the procedure takes. A `name` is any other word: at the start of a
//! statement it is called on all the expressions that follow it, and as an
//! operand it stands for its own text. In `"-" number` the two tokens touch.
//! Each rule is entered on its first token and then has to match: nothing is
//! tried twice.
use crate::lexer::{lex, ParseError, Rule, Token, TokenKind};
use crate::number::{decimal_value, Number};
use crate::parser::{Binop, Term};
use vstd::prelude::*;

verus! {

/// The text that a token covers.
pub open spec fn text(src: Seq<char>, t: Token) -> Seq<char> {
    src.subrange(t.start as int, t.end as int)
}

/// The text that a token covers, without its first character.
pub open spec fn tail_text(src: Seq<char>, t: Token) -> Seq<char> {
    src.subrange(t.start + 1, t.end as int)
}

/// The kind of the token at an index, if there is one.
pub open spec fn kind_at(toks: Seq<Token>, i: int) -> Option<TokenKind> {
    if 0 <= i < toks.len() {
        Some(toks[i].kind)
    } else {
        None
    }
}

/// Where in the source the token at an index starts; the end of the source,
/// where there is no such token.
pub open spec fn position(src: Seq<char>, toks: Seq<Token>, i: int) -> usize {
    if 0 <= i < toks.len() {
        toks[i].start
    } else {
        src.len() as usize
    }
}

/// The failure of a rule at the token at an index.
pub open spec fn failure(src: Seq<char>, toks: Seq<Token>, rule: Rule, i: int) -> ParseError {
    ParseError { rule, position: position(src, toks, i) }
}

/// How tightly an operator binds: the greater, the tighter.
pub open spec fn level_of(op: Binop) -> nat {
    match op {
        Binop::And | Binop::Or => 0,
        Binop::Less | Binop::LessEqual | Binop::Greater | Binop::GreaterEqual | Binop::EqualEqual => 1,
        Binop::Add | Binop::Sub => 2,
        Binop::Mul | Binop::Div => 3,
    }
}

/// Whether a word can be the name of a procedure.
pub open spec fn is_word(kind: Option<TokenKind>) -> bool {
    match kind {
        Some(TokenKind::Name) | Some(TokenKind::Command(_)) | Some(TokenKind::Function) => true,
        _ => false,
    }
}

/// How many arguments the call that starts with a word of this kind takes at
/// most, among `count` tokens: as many as the built-in procedure takes, or as
/// many as there are.
pub open spec fn most_arguments(kind: Option<TokenKind>, count: nat) -> nat {
    match kind {
        Some(TokenKind::Command(n)) => n as nat,
        Some(TokenKind::Function) => 1,
        _ => count,
    }
}

/// Whether the tokens at `i` and after it are a minus sign and a number
/// that touch.
pub open spec fn is_negative_literal(toks: Seq<Token>, i: int) -> bool {
    &&& kind_at(toks, i) == Some(TokenKind::Operator(Binop::Sub))
    &&& kind_at(toks, i + 1) == Some(TokenKind::Number)
    &&& toks[i].end == toks[i + 1].start
}

/// Whether an expression can start at the token at an index.
pub open spec fn starts_expr(toks: Seq<Token>, i: int) -> bool {
    match kind_at(toks, i) {
        Some(TokenKind::Number) | Some(TokenKind::Variable) | Some(TokenKind::Quoted) | Some(TokenKind::Name) | Some(
            TokenKind::Open,
        ) | Some(TokenKind::LeftParen) | Some(TokenKind::Function) => true,
        Some(TokenKind::Operator(Binop::Sub)) => is_negative_literal(toks, i),
        _ => false,
    }
}

/// Whether a statement can start at the token at an index.
pub open spec fn starts_statement(toks: Seq<Token>, i: int) -> bool {
    match kind_at(toks, i) {
        Some(TokenKind::To) | Some(TokenKind::If) | Some(TokenKind::Repeat) => true,
        k => is_word(k),
    }
}

/// The index after the variables that stand at `i` and after it.
pub open spec fn params_end(toks: Seq<Token>, i: int) -> int
    decreases toks.len() - i,
{
    if kind_at(toks, i) == Some(TokenKind::Variable) {
        params_end(toks, i + 1)
    } else {
        i
    }
}

/// The names of the variables from `i` up to `end`.
pub open spec fn param_names(src: Seq<char>, toks: Seq<Token>, i: int, end: int) -> Seq<Seq<char>> {
    Seq::new((end - i) as nat, |k: int| tail_text(src, toks[i + k]))
}

pub proof fn lemma_params_end(toks: Seq<Token>, i: int)
    ensures
        i <= params_end(toks, i),
        params_end(toks, i) <= toks.len() || params_end(toks, i) == i,
        forall|k: int| i <= k < params_end(toks, i) ==> (#[trigger] toks[k]).kind == TokenKind::Variable,
        kind_at(toks, params_end(toks, i)) != Some(TokenKind::Variable),
    decreases toks.len() - i,
{
    if kind_at(toks, i) == Some(TokenKind::Variable) {
        lemma_params_end(toks, i + 1);
    }
}

/// The operand that starts at the token at `i`, and the index after it.
pub open spec fn parse_primary(src: Seq<char>, toks: Seq<Token>, i: int) -> Result<(Term, int), ParseError>
    decreases toks.len() - i, 0nat,
{
    match kind_at(toks, i) {
        Some(TokenKind::Number) => match decimal_value(text(src, toks[i])) {
            Some(bits) => Ok((Term::Number(Number { bits }), i + 1)),
            None => Err(failure(src, toks, Rule::Number, i)),
        },
        Some(TokenKind::Operator(Binop::Sub)) => if is_negative_literal(toks, i) {
            match decimal_value(src.subrange(toks[i].start as int, toks[i + 1].end as int)) {
                Some(bits) => Ok((Term::Number(Number { bits }), i + 2)),
                None => Err(failure(src, toks, Rule::Number, i)),
            }
        } else {
            Err(failure(src, toks, Rule::Primary, i))
        },
        Some(TokenKind::Variable) => Ok((Term::Variable(tail_text(src, toks[i])), i + 1)),
        Some(TokenKind::Quoted) => Ok((Term::Text(tail_text(src, toks[i])), i + 1)),
        Some(TokenKind::Name) => Ok((Term::Text(text(src, toks[i])), i + 1)),
        Some(TokenKind::Open) => match parse_exprs(src, toks, i + 1, toks.len()) {
            Err(e) => Err(e),
            Ok((items, j)) => if kind_at(toks, j) == Some(TokenKind::Close) {
                Ok((Term::List(items), j + 1))
            } else {
                Err(failure(src, toks, Rule::List, j))
            },
        },
        Some(TokenKind::LeftParen) => match parse_binary(src, toks, i + 1, 0) {
            Err(e) => Err(e),
            Ok((inner, j)) => if kind_at(toks, j) == Some(TokenKind::RightParen) {
                Ok((inner, j + 1))
            } else {
                Err(failure(src, toks, Rule::Group, j))
            },
        },
        Some(TokenKind::Function) => match parse_binary(src, toks, i + 1, 0) {
            Err(e) => Err(e),
            Ok((arg, j)) => Ok(
                (Term::Call { f: Box::new(Term::Variable(text(src, toks[i]))), args: seq![arg] }, j),
            ),
        },
        _ => Err(failure(src, toks, Rule::Primary, i)),
    }
}

/// The expression that starts at the token at `i` and is made of operators
/// that bind at least as tightly as `level`, and the index after it.
pub open spec fn parse_binary(src: Seq<char>, toks: Seq<Token>, i: int, level: nat) -> Result<
    (Term, int),
    ParseError,
>
    decreases toks.len() - i, (if level < 4 { 5 - level } else { 1 }),
{
    if level >= 4 {
        parse_primary(src, toks, i)
    } else {
        match parse_binary(src, toks, i, level + 1) {
            Err(e) => Err(e),
            Ok((lhs, j)) => match kind_at(toks, j) {
                Some(TokenKind::Operator(op)) => if level_of(op) == level && j >= i {
                    match parse_binary(src, toks, j + 1, level) {
                        Err(e) => Err(e),
                        Ok((rhs, k)) => Ok((Term::Binop { lhs: Box::new(lhs), op, rhs: Box::new(rhs) }, k)),
                    }
                } else {
                    Ok((lhs, j))
                },
                _ => Ok((lhs, j)),
            },
        }
    }
}

/// The expressions that start at the token at `i` and follow one another,
/// but no more than `most` of them, and the index after them.
pub open spec fn parse_exprs(src: Seq<char>, toks: Seq<Token>, i: int, most: nat) -> Result<
    (Seq<Term>, int),
    ParseError,
>
    decreases toks.len() - i, 6nat,
{
    if most > 0 && starts_expr(toks, i) {
        match parse_binary(src, toks, i, 0) {
            Err(e) => Err(e),
            Ok((first, j)) => if i < j <= toks.len() {
                match parse_exprs(src, toks, j, (most - 1) as nat) {
                    Err(e) => Err(e),
                    Ok((rest, k)) => Ok((seq![first] + rest, k)),
                }
            } else {
                Ok((seq![first], j))
            },
        }
    } else {
        Ok((Seq::empty(), i))
    }
}

/// The statement that starts at the token at `i`, and the index after it.
pub open spec fn parse_statement(src: Seq<char>, toks: Seq<Token>, i: int) -> Result<(Term, int), ParseError>
    decreases toks.len() - i, 7nat,
{
    match kind_at(toks, i) {
        Some(TokenKind::To) => if !is_word(kind_at(toks, i + 1)) {
            Err(failure(src, toks, Rule::ProcDef, i + 1))
        } else {
            let body_start = params_end(toks, i + 2);
            proof {
                lemma_params_end(toks, i + 2);
            }
            match parse_statements(src, toks, body_start) {
                Err(e) => Err(e),
                Ok((stmts, k)) => if kind_at(toks, k) == Some(TokenKind::End) {
                    Ok(
                        (
                            Term::ProcDef {
                                proc_name: text(src, toks[i + 1]),
                                params: param_names(src, toks, i + 2, body_start),
                                body: Box::new(Term::Block(stmts)),
                            },
                            k + 1,
                        ),
                    )
                } else {
                    Err(failure(src, toks, Rule::ProcDef, k))
                },
            }
        },
        Some(TokenKind::If) => match parse_binary(src, toks, i + 1, 0) {
            Err(e) => Err(e),
            Ok((condition, j)) => if kind_at(toks, j) == Some(TokenKind::Open) && j > i {
                match parse_statements(src, toks, j + 1) {
                    Err(e) => Err(e),
                    Ok((stmts, k)) => if kind_at(toks, k) == Some(TokenKind::Close) {
                        Ok((Term::If { condition: Box::new(condition), body: Box::new(Term::Block(stmts)) }, k + 1))
                    } else {
                        Err(failure(src, toks, Rule::Cond, k))
                    },
                }
            } else {
                Err(failure(src, toks, Rule::Cond, j))
            },
        },
        Some(TokenKind::Repeat) => match parse_binary(src, toks, i + 1, 0) {
            Err(e) => Err(e),
            Ok((repeat, j)) => if kind_at(toks, j) == Some(TokenKind::Open) && j > i {
                match parse_statements(src, toks, j + 1) {
                    Err(e) => Err(e),
                    Ok((stmts, k)) => if kind_at(toks, k) == Some(TokenKind::Close) {
                        Ok((Term::Loop { repeat: Box::new(repeat), body: Box::new(Term::Block(stmts)) }, k + 1))
                    } else {
                        Err(failure(src, toks, Rule::Repeat, k))
                    },
                }
            } else {
                Err(failure(src, toks, Rule::Repeat, j))
            },
        },
        _ => match parse_exprs(src, toks, i + 1, most_arguments(kind_at(toks, i), toks.len())) {
            Err(e) => Err(e),
            Ok((args, j)) => Ok((Term::Call { f: Box::new(Term::Variable(text(src, toks[i]))), args }, j)),
        },
    }
}

/// The statements that start at the token at `i` and follow one another, and
/// the index after them.
pub open spec fn parse_statements(src: Seq<char>, toks: Seq<Token>, i: int) -> Result<(Seq<Term>, int), ParseError>
    decreases toks.len() - i, 8nat,
{
    if starts_statement(toks, i) {
        match parse_statement(src, toks, i) {
            Err(e) => Err(e),
            Ok((first, j)) => if i < j <= toks.len() {
                match parse_statements(src, toks, j) {
                    Err(e) => Err(e),
                    Ok((rest, k)) => Ok((seq![first] + rest, k)),
                }
            } else {
                Ok((seq![first], j))
            },
        }
    } else {
        Ok((Seq::empty(), i))
    }
}

/// The tree of a program, given as its tokens: the block of its statements,
/// which have to reach the end of the tokens.
pub open spec fn parse_program(src: Seq<char>, toks: Seq<Token>) -> Result<Term, ParseError> {
    match parse_statements(src, toks, 0) {
        Err(e) => Err(e),
        Ok((stmts, i)) => if i == toks.len() {
            Ok(Term::Block(stmts))
        } else {
            Err(failure(src, toks, Rule::Program, i))
        },
    }
}

/// The tree of a program, given as its text.
pub open spec fn parse_source(src: Seq<char>) -> Result<Term, ParseError> {
    match lex(src) {
        Err(e) => Err(e),
        Ok(toks) => parse_program(src, toks),
    }
}

} // verus!
