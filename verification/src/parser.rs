//! The syntax tree, and the parser that builds it from source text.
//!
//! The parser reads the tokens of the whole text first and then descends by
//! recursion, one function for each rule of the grammar. How deep brackets,
//! parentheses and chains of operators may nest is bounded by the stack
//! alone.
use crate::grammar::{
    failure, is_negative_literal, is_word, kind_at, lemma_params_end, level_of, most_arguments, param_names,
    params_end, parse_binary, parse_exprs, parse_primary, parse_program, parse_source, parse_statement,
    parse_statements, starts_expr, starts_statement, tail_text,
};
pub use crate::lexer::{ParseError, Rule};
use crate::lexer::{token_fits, tokenize, tokens_fit, Token, TokenKind};
use crate::number::{literal_value, Number};
use vstd::prelude::*;

verus! {

/// A binary operator.
#[derive(Debug, PartialEq, Eq, Clone, Copy, Structural)]
pub enum Binop {
    And,
    Or,
    Less,
    LessEqual,
    Greater,
    GreaterEqual,
    EqualEqual,
    Add,
    Sub,
    Mul,
    Div,
}

/// A node of the syntax tree.
#[derive(Debug, PartialEq)]
pub enum AstNode {
    String(String),
    Number(Number),
    Variable(String),
    List(Vec<AstNode>),
    Binop { lhs: Box<AstNode>, op: Binop, rhs: Box<AstNode> },
    Call { f: Box<AstNode>, args: Vec<Box<AstNode>> },
    If { condition: Box<AstNode>, body: Box<AstNode> },
    Loop { repeat: Box<AstNode>, body: Box<AstNode> },
    ProcDef { proc_name: String, params: Vec<String>, body: Box<AstNode> },
    Block(Vec<Box<AstNode>>),
}

/// The mathematical value of a syntax tree.
pub enum Term {
    Text(Seq<char>),
    Number(Number),
    Variable(Seq<char>),
    List(Seq<Term>),
    Binop { lhs: Box<Term>, op: Binop, rhs: Box<Term> },
    Call { f: Box<Term>, args: Seq<Term> },
    If { condition: Box<Term>, body: Box<Term> },
    Loop { repeat: Box<Term>, body: Box<Term> },
    ProcDef { proc_name: Seq<char>, params: Seq<Seq<char>>, body: Box<Term> },
    Block(Seq<Term>),
}

impl AstNode {
    /// The tree that this node stands for.
    pub open spec fn term(&self) -> Term
        decreases self,
    {
        match self {
            AstNode::String(s) => Term::Text(s@),
            AstNode::Number(n) => Term::Number(*n),
            AstNode::Variable(x) => Term::Variable(x@),
            AstNode::List(elems) => Term::List(
                Seq::new(
                    elems.len() as nat,
                    |i: int|
                        if 0 <= i < elems.len() {
                            elems[i].term()
                        } else {
                            Term::Block(Seq::empty())
                        },
                ),
            ),
            AstNode::Binop { lhs, op, rhs } => Term::Binop {
                lhs: Box::new(lhs.term()),
                op: *op,
                rhs: Box::new(rhs.term()),
            },
            AstNode::Call { f, args } => Term::Call {
                f: Box::new(f.term()),
                args: Seq::new(
                    args.len() as nat,
                    |i: int|
                        if 0 <= i < args.len() {
                            args[i].term()
                        } else {
                            Term::Block(Seq::empty())
                        },
                ),
            },
            AstNode::If { condition, body } => Term::If {
                condition: Box::new(condition.term()),
                body: Box::new(body.term()),
            },
            AstNode::Loop { repeat, body } => Term::Loop {
                repeat: Box::new(repeat.term()),
                body: Box::new(body.term()),
            },
            AstNode::ProcDef { proc_name, params, body } => Term::ProcDef {
                proc_name: proc_name@,
                params: Seq::new(params.len() as nat, |i: int| params[i]@),
                body: Box::new(body.term()),
            },
            AstNode::Block(stmts) => Term::Block(
                Seq::new(
                    stmts.len() as nat,
                    |i: int|
                        if 0 <= i < stmts.len() {
                            stmts[i].term()
                        } else {
                            Term::Block(Seq::empty())
                        },
                ),
            ),
        }
    }
}

/// The trees of a list of nodes, in order.
pub open spec fn terms(nodes: Seq<AstNode>) -> Seq<Term> {
    Seq::new(nodes.len(), |i: int| nodes[i]@)
}

/// The trees of a list of boxed nodes, in order.
pub open spec fn boxed_terms(nodes: Seq<Box<AstNode>>) -> Seq<Term> {
    Seq::new(nodes.len(), |i: int| nodes[i]@)
}

/// The character sequences of a list of strings, in order.
pub open spec fn texts(names: Seq<String>) -> Seq<Seq<char>> {
    Seq::new(names.len(), |i: int| names[i]@)
}

impl AstNode {
    /// The tree of a node, written over the trees of its parts.
    pub proof fn lemma_term(&self)
        ensures
            self@ == match self {
                AstNode::String(s) => Term::Text(s@),
                AstNode::Number(n) => Term::Number(*n),
                AstNode::Variable(x) => Term::Variable(x@),
                AstNode::List(elems) => Term::List(terms(elems@)),
                AstNode::Binop { lhs, op, rhs } => Term::Binop { lhs: Box::new(lhs@), op: *op, rhs: Box::new(rhs@) },
                AstNode::Call { f, args } => Term::Call { f: Box::new(f@), args: boxed_terms(args@) },
                AstNode::If { condition, body } => Term::If {
                    condition: Box::new(condition@),
                    body: Box::new(body@),
                },
                AstNode::Loop { repeat, body } => Term::Loop { repeat: Box::new(repeat@), body: Box::new(body@) },
                AstNode::ProcDef { proc_name, params, body } => Term::ProcDef {
                    proc_name: proc_name@,
                    params: texts(params@),
                    body: Box::new(body@),
                },
                AstNode::Block(stmts) => Term::Block(boxed_terms(stmts@)),
            },
    {
        match self {
            AstNode::List(elems) => {
                assert(self@->List_0 =~= terms(elems@));
            },
            AstNode::Call { f, args } => {
                assert(self@->Call_args =~= boxed_terms(args@));
            },
            AstNode::ProcDef { proc_name, params, body } => {
                assert(self@->ProcDef_params =~= texts(params@));
            },
            AstNode::Block(stmts) => {
                assert(self@->Block_0 =~= boxed_terms(stmts@));
            },
            _ => {},
        }
    }
}

impl View for AstNode {
    type V = Term;

    open spec fn view(&self) -> Term {
        self.term()
    }
}

impl Clone for AstNode {
    #[verifier::loop_isolation(false)]
    fn clone(&self) -> (r: Self)
        ensures
            r@ == self@,
        decreases self,
    {
        match self {
            AstNode::String(s) => AstNode::String(s.clone()),
            AstNode::Number(n) => AstNode::Number(*n),
            AstNode::Variable(x) => AstNode::Variable(x.clone()),
            AstNode::List(elems) => {
                let mut out: Vec<AstNode> = Vec::new();
                let mut i: usize = 0;
                while i < elems.len()
                    invariant
                        i <= elems.len(),
                        out.len() == i,
                        forall|j: int| 0 <= j < i ==> out[j]@ == elems[j]@,
                    decreases elems.len() - i,
                {
                    out.push(elems[i].clone());
                    i += 1;
                }
                let r = AstNode::List(out);
                proof {
                    r.lemma_term();
                    self.lemma_term();
                    assert(terms(out@) =~= terms(elems@));
                }
                r
            },
            AstNode::Binop { lhs, op, rhs } => AstNode::Binop {
                lhs: Box::new((**lhs).clone()),
                op: *op,
                rhs: Box::new((**rhs).clone()),
            },
            AstNode::Call { f, args } => {
                let g = Box::new((**f).clone());
                let out = clone_nodes(args);
                let r = AstNode::Call { f: g, args: out };
                proof {
                    r.lemma_term();
                    self.lemma_term();
                    assert(boxed_terms(out@) =~= boxed_terms(args@));
                }
                r
            },
            AstNode::If { condition, body } => AstNode::If {
                condition: Box::new((**condition).clone()),
                body: Box::new((**body).clone()),
            },
            AstNode::Loop { repeat, body } => AstNode::Loop {
                repeat: Box::new((**repeat).clone()),
                body: Box::new((**body).clone()),
            },
            AstNode::ProcDef { proc_name, params, body } => {
                let names = clone_names(params);
                let b = Box::new((**body).clone());
                let r = AstNode::ProcDef { proc_name: proc_name.clone(), params: names, body: b };
                proof {
                    r.lemma_term();
                    self.lemma_term();
                    assert(texts(names@) =~= texts(params@));
                }
                r
            },
            AstNode::Block(stmts) => {
                let out = clone_nodes(stmts);
                let r = AstNode::Block(out);
                proof {
                    r.lemma_term();
                    self.lemma_term();
                    assert(boxed_terms(out@) =~= boxed_terms(stmts@));
                }
                r
            },
        }
    }
}

/// Copies a list of boxed nodes.
#[verifier::loop_isolation(false)]
fn clone_nodes(nodes: &Vec<Box<AstNode>>) -> (out: Vec<Box<AstNode>>)
    ensures
        out.len() == nodes.len(),
        forall|j: int| 0 <= j < nodes.len() ==> out[j]@ == nodes[j]@,
    decreases nodes,
{
    let mut out: Vec<Box<AstNode>> = Vec::new();
    let mut i: usize = 0;
    while i < nodes.len()
        invariant
            i <= nodes.len(),
            out.len() == i,
            forall|j: int| 0 <= j < i ==> out[j]@ == nodes[j]@,
        decreases nodes.len() - i,
    {
        out.push(Box::new((*nodes[i]).clone()));
        i += 1;
    }
    out
}

/// Copies a list of names.
pub fn clone_names(names: &Vec<String>) -> (out: Vec<String>)
    ensures
        out.len() == names.len(),
        forall|j: int| 0 <= j < names.len() ==> out[j]@ == names[j]@,
{
    let mut out: Vec<String> = Vec::new();
    let mut i: usize = 0;
    while i < names.len()
        invariant
            i <= names.len(),
            out.len() == i,
            forall|j: int| 0 <= j < i ==> out[j]@ == names[j]@,
        decreases names.len() - i,
    {
        out.push(names[i].clone());
        i += 1;
    }
    out
}

/// `String::push` of std appends one character.
pub assume_specification[ std::string::String::push ](s: &mut std::string::String, ch: char)
    ensures
        final(s)@ == old(s)@.push(ch),
;

/// The tree and index, or the failure, that a result stands for.
pub open spec fn parsed(r: Result<(AstNode, usize), ParseError>) -> Result<(Term, int), ParseError> {
    match r {
        Ok((node, next)) => Ok((node@, next as int)),
        Err(e) => Err(e),
    }
}

/// The trees and index, or the failure, that a result stands for.
pub open spec fn parsed_all(r: Result<(Vec<Box<AstNode>>, usize), ParseError>) -> Result<
    (Seq<Term>, int),
    ParseError,
> {
    match r {
        Ok((nodes, next)) => Ok((boxed_terms(nodes@), next as int)),
        Err(e) => Err(e),
    }
}

/// The tree, or the failure, that a result stands for.
pub open spec fn tree_of(r: Result<AstNode, ParseError>) -> Result<Term, ParseError> {
    match r {
        Ok(node) => Ok(node@),
        Err(e) => Err(e),
    }
}

/// Copies a range of the source into a string.
fn text_of(src: &Vec<char>, start: usize, end: usize) -> (r: String)
    requires
        start <= end <= src.len(),
    ensures
        r@ == src@.subrange(start as int, end as int),
{
    let mut r = String::new();
    let mut k = start;
    while k < end
        invariant
            start <= k <= end <= src.len(),
            r@ == src@.subrange(start as int, k as int),
        decreases end - k,
    {
        r.push(src[k]);
        assert(src@.subrange(start as int, k + 1) =~= src@.subrange(start as int, k as int).push(src@[k as int]));
        k += 1;
    }
    r
}

/// How tightly an operator binds.
fn level(op: Binop) -> (r: usize)
    ensures
        r == level_of(op),
{
    match op {
        Binop::And | Binop::Or => 0,
        Binop::Less | Binop::LessEqual | Binop::Greater | Binop::GreaterEqual | Binop::EqualEqual => 1,
        Binop::Add | Binop::Sub => 2,
        Binop::Mul | Binop::Div => 3,
    }
}

/// The failure of a rule at the token at an index.
fn fail(src: &Vec<char>, toks: &Vec<Token>, rule: Rule, i: usize) -> (e: ParseError)
    ensures
        e == failure(src@, toks@, rule, i as int),
{
    if i < toks.len() {
        ParseError { rule, position: toks[i].start }
    } else {
        ParseError { rule, position: src.len() }
    }
}

fn word_at(toks: &Vec<Token>, i: usize) -> (r: bool)
    ensures
        r == is_word(kind_at(toks@, i as int)),
{
    if i < toks.len() {
        match toks[i].kind {
            TokenKind::Name | TokenKind::Command(_) | TokenKind::Function => true,
            _ => false,
        }
    } else {
        false
    }
}

fn most_at(toks: &Vec<Token>, i: usize) -> (r: usize)
    ensures
        r == most_arguments(kind_at(toks@, i as int), toks@.len()),
{
    if i < toks.len() {
        match toks[i].kind {
            TokenKind::Command(n) => n,
            TokenKind::Function => 1,
            _ => toks.len(),
        }
    } else {
        toks.len()
    }
}

fn kind_is(toks: &Vec<Token>, i: usize, kind: TokenKind) -> (r: bool)
    ensures
        r == (kind_at(toks@, i as int) == Some(kind)),
{
    i < toks.len() && toks[i].kind == kind
}

fn negative_literal_at(toks: &Vec<Token>, i: usize) -> (r: bool)
    ensures
        r == is_negative_literal(toks@, i as int),
{
    i < toks.len() && i + 1 < toks.len() && toks[i].kind == TokenKind::Operator(Binop::Sub) && toks[i + 1].kind
        == TokenKind::Number && toks[i].end == toks[i + 1].start
}

fn expr_starts_at(toks: &Vec<Token>, i: usize) -> (r: bool)
    ensures
        r == starts_expr(toks@, i as int),
{
    if i < toks.len() {
        match toks[i].kind {
            TokenKind::Number | TokenKind::Variable | TokenKind::Quoted | TokenKind::Name | TokenKind::Open
            | TokenKind::LeftParen | TokenKind::Function => true,
            TokenKind::Operator(Binop::Sub) => negative_literal_at(toks, i),
            _ => false,
        }
    } else {
        false
    }
}

fn statement_starts_at(toks: &Vec<Token>, i: usize) -> (r: bool)
    ensures
        r == starts_statement(toks@, i as int),
{
    if i < toks.len() {
        match toks[i].kind {
            TokenKind::To | TokenKind::If | TokenKind::Repeat => true,
            _ => word_at(toks, i),
        }
    } else {
        false
    }
}

/// Takes the nodes out of their boxes.
fn unboxed(nodes: Vec<Box<AstNode>>) -> (out: Vec<AstNode>)
    ensures
        terms(out@) == boxed_terms(nodes@),
{
    let mut nodes = nodes;
    let ghost all = nodes@;
    let mut back: Vec<AstNode> = Vec::new();
    while nodes.len() > 0
        invariant
            nodes.len() + back.len() == all.len(),
            nodes@ == all.subrange(0, nodes.len() as int),
            forall|k: int| 0 <= k < back.len() ==> (#[trigger] back[k])@ == all[all.len() - 1 - k]@,
        decreases nodes.len(),
    {
        match nodes.pop() {
            Some(b) => {
                back.push(*b);
            },
            None => {},
        }
    }
    let mut out: Vec<AstNode> = Vec::new();
    let ghost turned = back@;
    while back.len() > 0
        invariant
            turned.len() == all.len(),
            back.len() + out.len() == all.len(),
            back@ == turned.subrange(0, back.len() as int),
            forall|k: int| 0 <= k < turned.len() ==> (#[trigger] turned[k])@ == all[all.len() - 1 - k]@,
            forall|k: int| 0 <= k < out.len() ==> (#[trigger] out[k])@ == all[k]@,
        decreases back.len(),
    {
        match back.pop() {
            Some(node) => {
                out.push(node);
            },
            None => {},
        }
    }
    assert(terms(out@) =~= boxed_terms(all));
    out
}

/// Reads the operand that starts at the token at `i`.
fn read_primary(src: &Vec<char>, toks: &Vec<Token>, i: usize) -> (r: Result<(AstNode, usize), ParseError>)
    requires
        tokens_fit(src@, toks@),
    ensures
        parsed(r) == parse_primary(src@, toks@, i as int),
        r matches Ok((_, next)) ==> i < next <= toks.len(),
    decreases toks.len() - i, 0nat,
{
    if i >= toks.len() {
        return Err(fail(src, toks, Rule::Primary, i));
    }
    let t = toks[i];
    assert(token_fits(src@, t));
    match t.kind {
        TokenKind::Number => {
            let s = text_of(src, t.start, t.end);
            match literal_value(s.as_str()) {
                Some(n) => Ok((AstNode::Number(n), i + 1)),
                None => Err(fail(src, toks, Rule::Number, i)),
            }
        },
        TokenKind::Operator(Binop::Sub) => {
            if negative_literal_at(toks, i) {
                let n = toks[i + 1];
                assert(token_fits(src@, n));
                let s = text_of(src, t.start, n.end);
                proof {
                    assert(s@.subrange(1, s@.len() as int) =~= src@.subrange(n.start as int, n.end as int));
                }
                match literal_value(s.as_str()) {
                    Some(v) => Ok((AstNode::Number(v), i + 2)),
                    None => Err(fail(src, toks, Rule::Number, i)),
                }
            } else {
                Err(fail(src, toks, Rule::Primary, i))
            }
        },
        TokenKind::Variable => Ok((AstNode::Variable(text_of(src, t.start + 1, t.end)), i + 1)),
        TokenKind::Quoted => Ok((AstNode::String(text_of(src, t.start + 1, t.end)), i + 1)),
        TokenKind::Name => Ok((AstNode::String(text_of(src, t.start, t.end)), i + 1)),
        TokenKind::Open => match read_exprs(src, toks, i + 1, toks.len()) {
            Err(e) => Err(e),
            Ok((items, j)) => {
                if kind_is(toks, j, TokenKind::Close) {
                    let node = AstNode::List(unboxed(items));
                    proof {
                        node.lemma_term();
                    }
                    Ok((node, j + 1))
                } else {
                    Err(fail(src, toks, Rule::List, j))
                }
            },
        },
        TokenKind::LeftParen => match read_binary(src, toks, i + 1, 0) {
            Err(e) => Err(e),
            Ok((inner, j)) => {
                if kind_is(toks, j, TokenKind::RightParen) {
                    Ok((inner, j + 1))
                } else {
                    Err(fail(src, toks, Rule::Group, j))
                }
            },
        },
        TokenKind::Function => match read_binary(src, toks, i + 1, 0) {
            Err(e) => Err(e),
            Ok((arg, j)) => {
                let mut args: Vec<Box<AstNode>> = Vec::new();
                args.push(Box::new(arg));
                let node = AstNode::Call { f: Box::new(AstNode::Variable(text_of(src, t.start, t.end))), args };
                proof {
                    node.lemma_term();
                    assert(boxed_terms(args@) =~= seq![arg@]);
                }
                Ok((node, j))
            },
        },
        _ => Err(fail(src, toks, Rule::Primary, i)),
    }
}

/// Reads the expression that starts at the token at `i` and is made of
/// operators that bind at least as tightly as `at`.
fn read_binary(src: &Vec<char>, toks: &Vec<Token>, i: usize, at: usize) -> (r: Result<(AstNode, usize), ParseError>)
    requires
        tokens_fit(src@, toks@),
    ensures
        parsed(r) == parse_binary(src@, toks@, i as int, at as nat),
        r matches Ok((_, next)) ==> i < next <= toks.len(),
    decreases toks.len() - i, (if at < 4 { 5 - at } else { 1 }),
{
    if at >= 4 {
        return read_primary(src, toks, i);
    }
    match read_binary(src, toks, i, at + 1) {
        Err(e) => Err(e),
        Ok((lhs, j)) => {
            if j < toks.len() {
                if let TokenKind::Operator(op) = toks[j].kind {
                    if level(op) == at {
                        return match read_binary(src, toks, j + 1, at) {
                            Err(e) => Err(e),
                            Ok((rhs, k)) => {
                                let node = AstNode::Binop { lhs: Box::new(lhs), op, rhs: Box::new(rhs) };
                                proof {
                                    node.lemma_term();
                                }
                                Ok((node, k))
                            },
                        };
                    }
                }
            }
            Ok((lhs, j))
        },
    }
}

/// Reads the expressions that start at the token at `i` and follow one
/// another, but no more than `most` of them.
fn read_exprs(src: &Vec<char>, toks: &Vec<Token>, i: usize, most: usize) -> (r: Result<
    (Vec<Box<AstNode>>, usize),
    ParseError,
>)
    requires
        tokens_fit(src@, toks@),
        i <= toks.len(),
    ensures
        parsed_all(r) == parse_exprs(src@, toks@, i as int, most as nat),
        r matches Ok((_, next)) ==> i <= next <= toks.len(),
    decreases toks.len() - i, 6nat,
{
    let mut out: Vec<Box<AstNode>> = Vec::new();
    let mut j = i;
    let mut left = most;
    assert(boxed_terms(out@) =~= Seq::<Term>::empty());
    while left > 0 && expr_starts_at(toks, j)
        invariant
            i <= j <= toks.len(),
            tokens_fit(src@, toks@),
            match parse_exprs(src@, toks@, j as int, left as nat) {
                Ok((rest, k)) => parse_exprs(src@, toks@, i as int, most as nat) == Ok::<
                    (Seq<Term>, int),
                    ParseError,
                >((boxed_terms(out@) + rest, k)),
                Err(e) => parse_exprs(src@, toks@, i as int, most as nat) == Err::<(Seq<Term>, int), ParseError>(e),
            },
        decreases toks.len() - j,
    {
        match read_binary(src, toks, j, 0) {
            Err(e) => {
                return Err(e);
            },
            Ok((first, k)) => {
                left -= 1;
                proof {
                    let rest = parse_exprs(src@, toks@, k as int, left as nat);
                    if let Ok((more, end)) = rest {
                        assert(boxed_terms(out@) + (seq![first@] + more) =~= boxed_terms(
                            out@.push(Box::new(first)),
                        ) + more);
                    }
                }
                out.push(Box::new(first));
                j = k;
            },
        }
    }
    proof {
        assert(boxed_terms(out@) + Seq::<Term>::empty() =~= boxed_terms(out@));
    }
    Ok((out, j))
}

/// Reads the statement that starts at the token at `i`.
fn read_statement(src: &Vec<char>, toks: &Vec<Token>, i: usize) -> (r: Result<(AstNode, usize), ParseError>)
    requires
        tokens_fit(src@, toks@),
        starts_statement(toks@, i as int),
    ensures
        parsed(r) == parse_statement(src@, toks@, i as int),
        r matches Ok((_, next)) ==> i < next <= toks.len(),
    decreases toks.len() - i, 7nat,
{
    let t = toks[i];
    assert(token_fits(src@, t));
    match t.kind {
        TokenKind::To => {
            if !word_at(toks, i + 1) {
                return Err(fail(src, toks, Rule::ProcDef, i + 1));
            }
            let name = toks[i + 1];
            assert(token_fits(src@, name));
            let mut params: Vec<String> = Vec::new();
            let mut j = i + 2;
            proof {
                lemma_params_end(toks@, i + 2);
            }
            while kind_is(toks, j, TokenKind::Variable)
                invariant
                    i + 2 <= j <= toks.len(),
                    tokens_fit(src@, toks@),
                    params_end(toks@, j as int) == params_end(toks@, i + 2),
                    params.len() == j - (i + 2),
                    forall|k: int|
                        0 <= k < params.len() ==> (#[trigger] params[k])@ == tail_text(src@, toks@[i + 2 + k]),
                decreases toks.len() - j,
            {
                let p = toks[j];
                assert(token_fits(src@, p));
                params.push(text_of(src, p.start + 1, p.end));
                j += 1;
            }
            assert(texts(params@) =~= param_names(src@, toks@, i + 2, j as int));
            match read_statements(src, toks, j) {
                Err(e) => Err(e),
                Ok((stmts, k)) => {
                    if kind_is(toks, k, TokenKind::End) {
                        let body = AstNode::Block(stmts);
                        let node = AstNode::ProcDef {
                            proc_name: text_of(src, name.start, name.end),
                            params,
                            body: Box::new(body),
                        };
                        proof {
                            body.lemma_term();
                            node.lemma_term();
                        }
                        Ok((node, k + 1))
                    } else {
                        Err(fail(src, toks, Rule::ProcDef, k))
                    }
                },
            }
        },
        TokenKind::If => match read_binary(src, toks, i + 1, 0) {
            Err(e) => Err(e),
            Ok((condition, j)) => {
                if !kind_is(toks, j, TokenKind::Open) {
                    return Err(fail(src, toks, Rule::Cond, j));
                }
                match read_statements(src, toks, j + 1) {
                    Err(e) => Err(e),
                    Ok((stmts, k)) => {
                        if kind_is(toks, k, TokenKind::Close) {
                            let body = AstNode::Block(stmts);
                            let node = AstNode::If { condition: Box::new(condition), body: Box::new(body) };
                            proof {
                                body.lemma_term();
                                node.lemma_term();
                            }
                            Ok((node, k + 1))
                        } else {
                            Err(fail(src, toks, Rule::Cond, k))
                        }
                    },
                }
            },
        },
        TokenKind::Repeat => match read_binary(src, toks, i + 1, 0) {
            Err(e) => Err(e),
            Ok((repeat, j)) => {
                if !kind_is(toks, j, TokenKind::Open) {
                    return Err(fail(src, toks, Rule::Repeat, j));
                }
                match read_statements(src, toks, j + 1) {
                    Err(e) => Err(e),
                    Ok((stmts, k)) => {
                        if kind_is(toks, k, TokenKind::Close) {
                            let body = AstNode::Block(stmts);
                            let node = AstNode::Loop { repeat: Box::new(repeat), body: Box::new(body) };
                            proof {
                                body.lemma_term();
                                node.lemma_term();
                            }
                            Ok((node, k + 1))
                        } else {
                            Err(fail(src, toks, Rule::Repeat, k))
                        }
                    },
                }
            },
        },
        _ => match read_exprs(src, toks, i + 1, most_at(toks, i)) {
            Err(e) => Err(e),
            Ok((args, j)) => {
                let node = AstNode::Call { f: Box::new(AstNode::Variable(text_of(src, t.start, t.end))), args };
                proof {
                    node.lemma_term();
                }
                Ok((node, j))
            },
        },
    }
}

/// Reads the statements that start at the token at `i` and follow one
/// another.
fn read_statements(src: &Vec<char>, toks: &Vec<Token>, i: usize) -> (r: Result<
    (Vec<Box<AstNode>>, usize),
    ParseError,
>)
    requires
        tokens_fit(src@, toks@),
        i <= toks.len(),
    ensures
        parsed_all(r) == parse_statements(src@, toks@, i as int),
        r matches Ok((_, next)) ==> i <= next <= toks.len(),
    decreases toks.len() - i, 8nat,
{
    let mut out: Vec<Box<AstNode>> = Vec::new();
    let mut j = i;
    assert(boxed_terms(out@) =~= Seq::<Term>::empty());
    while statement_starts_at(toks, j)
        invariant
            i <= j <= toks.len(),
            tokens_fit(src@, toks@),
            match parse_statements(src@, toks@, j as int) {
                Ok((rest, k)) => parse_statements(src@, toks@, i as int) == Ok::<(Seq<Term>, int), ParseError>(
                    (boxed_terms(out@) + rest, k),
                ),
                Err(e) => parse_statements(src@, toks@, i as int) == Err::<(Seq<Term>, int), ParseError>(e),
            },
        decreases toks.len() - j,
    {
        match read_statement(src, toks, j) {
            Err(e) => {
                return Err(e);
            },
            Ok((first, k)) => {
                proof {
                    let rest = parse_statements(src@, toks@, k as int);
                    if let Ok((more, end)) = rest {
                        assert(boxed_terms(out@) + (seq![first@] + more) =~= boxed_terms(
                            out@.push(Box::new(first)),
                        ) + more);
                    }
                }
                out.push(Box::new(first));
                j = k;
            },
        }
    }
    proof {
        assert(boxed_terms(out@) + Seq::<Term>::empty() =~= boxed_terms(out@));
    }
    Ok((out, j))
}

/// Builds the tree of a program from its tokens.
pub fn parse_tokens(src: &Vec<char>, toks: &Vec<Token>) -> (r: Result<AstNode, ParseError>)
    requires
        tokens_fit(src@, toks@),
    ensures
        tree_of(r) == parse_program(src@, toks@),
{
    match read_statements(src, toks, 0) {
        Err(e) => Err(e),
        Ok((stmts, i)) => {
            if i == toks.len() {
                let node = AstNode::Block(stmts);
                proof {
                    node.lemma_term();
                }
                Ok(node)
            } else {
                Err(fail(src, toks, Rule::Program, i))
            }
        },
    }
}

/// The characters of a text, in order.
pub fn chars_of(source: &str) -> (chars: Vec<char>)
    ensures
        chars@ == source@,
{
    let mut chars: Vec<char> = Vec::new();
    for c in iter: source.chars()
        invariant
            chars@ == iter.seq().take(iter.index()),
    {
        chars.push(c);
    }
    chars
}

/// Parses a program: gives its tree, or says which rule of the grammar
/// failed and where in the text.
pub fn parse_logo_source(source: &str) -> (r: Result<AstNode, ParseError>)
    ensures
        tree_of(r) == parse_source(source@),
{
    let chars = chars_of(source);
    match tokenize(&chars) {
        Err(e) => Err(e),
        Ok(toks) => parse_tokens(&chars, &toks),
    }
}

} // verus!
