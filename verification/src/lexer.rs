//! The tokens of the language, and the scanner that finds them in source
//! text.
//!
//! A token is a kind and the range of the source that it covers; the text of
//! a name or a literal is read from the source when the tree is built.
use crate::interpreter::builtins::{builtin_named, get_builtins, is_registry, named_from, names_of, registry};
use crate::interpreter::value::{LogoFn, Value};
use crate::number::{all_digits, is_digit, is_unsigned_literal};
use crate::parser::Binop;
use vstd::prelude::*;

verus! {

/// The grammar rule at which a parse failed.
#[derive(Debug, PartialEq, Eq, Clone, Copy, Structural)]
pub enum Rule {
    /// A character that begins no token.
    Token,
    /// A `:` that no name follows.
    Variable,
    /// A numeric literal that has no value.
    Number,
    /// Something is left after the last statement.
    Program,
    /// `to`, a name, parameters, statements, `end`.
    ProcDef,
    /// `if`, a condition, statements in brackets.
    Cond,
    /// `repeat`, a count, statements in brackets.
    Repeat,
    /// Expressions in brackets.
    List,
    /// An expression in parentheses.
    Group,
    /// An operand.
    Primary,
}

/// Why and where a parse failed: the rule that did not match, and the index
/// in the source, counted in characters, at which it did not.
#[derive(Debug, PartialEq, Eq, Clone, Copy, Structural)]
pub struct ParseError {
    pub rule: Rule,
    pub position: usize,
}

/// What a token is.
#[derive(Debug, PartialEq, Eq, Clone, Copy, Structural)]
pub enum TokenKind {
    /// Digits, or digits, a dot and digits.
    Number,
    /// A word that is not reserved.
    Name,
    /// A word that names a built-in procedure, other than `pick` and `random`,
    /// with the number of arguments that the procedure takes.
    Command(usize),
    /// `pick` or `random`: a built-in procedure whose call is an expression.
    Function,
    /// A colon and a word.
    Variable,
    /// A double quote and the characters up to the next space or bracket.
    Quoted,
    Open,
    Close,
    LeftParen,
    RightParen,
    Operator(Binop),
    To,
    End,
    If,
    Repeat,
}

/// A token: its kind, and where it starts and ends in the source.
#[derive(Debug, PartialEq, Eq, Clone, Copy, Structural)]
pub struct Token {
    pub kind: TokenKind,
    pub start: usize,
    pub end: usize,
}

/// A set of characters that a run of the source is made of.
#[derive(Debug, PartialEq, Eq, Clone, Copy, Structural)]
pub enum CharClass {
    Space,
    Digit,
    Word,
    Quoted,
}

pub open spec fn is_space(c: char) -> bool {
    c == ' ' || c == '\t' || c == '\n' || c == '\r'
}

pub open spec fn is_letter(c: char) -> bool {
    ('a' <= c && c <= 'z') || ('A' <= c && c <= 'Z')
}

pub open spec fn is_bracket(c: char) -> bool {
    c == '[' || c == ']' || c == '(' || c == ')'
}

pub open spec fn in_class(c: char, class: CharClass) -> bool {
    match class {
        CharClass::Space => is_space(c),
        CharClass::Digit => is_digit(c),
        CharClass::Word => is_letter(c) || is_digit(c) || c == '_',
        CharClass::Quoted => !is_space(c) && !is_bracket(c),
    }
}

/// Where the longest run of characters of one class that starts at `i`
/// ends.
pub open spec fn run_end(src: Seq<char>, i: int, class: CharClass) -> int
    decreases src.len() - i,
{
    if 0 <= i < src.len() && in_class(src[i], class) {
        run_end(src, i + 1, class)
    } else {
        i
    }
}

/// The kind of the token that a word is.
pub open spec fn word_kind(text: Seq<char>) -> TokenKind {
    if text == "to"@ {
        TokenKind::To
    } else if text == "end"@ {
        TokenKind::End
    } else if text == "if"@ {
        TokenKind::If
    } else if text == "repeat"@ {
        TokenKind::Repeat
    } else if text == "and"@ {
        TokenKind::Operator(Binop::And)
    } else if text == "or"@ {
        TokenKind::Operator(Binop::Or)
    } else if text == "pick"@ || text == "random"@ {
        TokenKind::Function
    } else {
        match builtin_named(text) {
            Some(f) => TokenKind::Command(f.arity),
            None => TokenKind::Name,
        }
    }
}

pub open spec fn token(kind: TokenKind, start: int, end: int) -> Token {
    Token { kind, start: start as usize, end: end as usize }
}

/// The token that starts at `i`, where a character that is no space stands,
/// or the failure to find one.
pub open spec fn token_at(src: Seq<char>, i: int) -> Result<Token, ParseError> {
    let c = src[i];
    let next_is_equals = i + 1 < src.len() && src[i + 1] == '=';
    if is_digit(c) {
        let j = run_end(src, i, CharClass::Digit);
        if j + 1 < src.len() && src[j] == '.' && is_digit(src[j + 1]) {
            Ok(token(TokenKind::Number, i, run_end(src, j + 1, CharClass::Digit)))
        } else {
            Ok(token(TokenKind::Number, i, j))
        }
    } else if is_letter(c) {
        let j = run_end(src, i, CharClass::Word);
        Ok(token(word_kind(src.subrange(i, j)), i, j))
    } else if c == ':' {
        if i + 1 < src.len() && is_letter(src[i + 1]) {
            Ok(token(TokenKind::Variable, i, run_end(src, i + 1, CharClass::Word)))
        } else {
            Err(ParseError { rule: Rule::Variable, position: i as usize })
        }
    } else if c == '"' {
        Ok(token(TokenKind::Quoted, i, run_end(src, i + 1, CharClass::Quoted)))
    } else if c == '[' {
        Ok(token(TokenKind::Open, i, i + 1))
    } else if c == ']' {
        Ok(token(TokenKind::Close, i, i + 1))
    } else if c == '(' {
        Ok(token(TokenKind::LeftParen, i, i + 1))
    } else if c == ')' {
        Ok(token(TokenKind::RightParen, i, i + 1))
    } else if c == '+' {
        Ok(token(TokenKind::Operator(Binop::Add), i, i + 1))
    } else if c == '-' {
        Ok(token(TokenKind::Operator(Binop::Sub), i, i + 1))
    } else if c == '*' {
        Ok(token(TokenKind::Operator(Binop::Mul), i, i + 1))
    } else if c == '/' {
        Ok(token(TokenKind::Operator(Binop::Div), i, i + 1))
    } else if c == '<' {
        if next_is_equals {
            Ok(token(TokenKind::Operator(Binop::LessEqual), i, i + 2))
        } else {
            Ok(token(TokenKind::Operator(Binop::Less), i, i + 1))
        }
    } else if c == '>' {
        if next_is_equals {
            Ok(token(TokenKind::Operator(Binop::GreaterEqual), i, i + 2))
        } else {
            Ok(token(TokenKind::Operator(Binop::Greater), i, i + 1))
        }
    } else if c == '=' && next_is_equals {
        Ok(token(TokenKind::Operator(Binop::EqualEqual), i, i + 2))
    } else {
        Err(ParseError { rule: Rule::Token, position: i as usize })
    }
}

/// The tokens of the source from `i` on, or the first failure to find one.
pub open spec fn lex_from(src: Seq<char>, i: int) -> Result<Seq<Token>, ParseError>
    decreases src.len() - i,
{
    let j = run_end(src, i, CharClass::Space);
    if i < 0 || j >= src.len() || src.len() > usize::MAX {
        Ok(Seq::empty())
    } else {
        match token_at(src, j) {
            Err(e) => Err(e),
            Ok(t) => {
                proof {
                    lemma_run_end(src, i, CharClass::Space);
                    lemma_token_at(src, j);
                }
                match lex_from(src, t.end as int) {
                    Err(e) => Err(e),
                    Ok(rest) => Ok(seq![t] + rest),
                }
            },
        }
    }
}

/// The tokens of a source text.
pub open spec fn lex(src: Seq<char>) -> Result<Seq<Token>, ParseError> {
    lex_from(src, 0)
}

/// Whether a token covers a range of the source that is not empty and reads
/// as its kind says: a number as an unsigned literal, a minus sign as `-`.
pub open spec fn token_fits(src: Seq<char>, t: Token) -> bool {
    &&& t.start < t.end <= src.len()
    &&& t.kind == TokenKind::Number ==> is_unsigned_literal(src.subrange(t.start as int, t.end as int))
    &&& t.kind == TokenKind::Operator(Binop::Sub) ==> t.end == t.start + 1 && src[t.start as int] == '-'
}

/// Whether each of the tokens fits the source.
pub open spec fn tokens_fit(src: Seq<char>, toks: Seq<Token>) -> bool {
    forall|k: int| 0 <= k < toks.len() ==> token_fits(src, #[trigger] toks[k])
}

/// A run ends at or after its start, within the source, and where the class
/// ends.
pub proof fn lemma_run_end(src: Seq<char>, i: int, class: CharClass)
    requires
        0 <= i <= src.len(),
    ensures
        i <= run_end(src, i, class) <= src.len(),
        run_end(src, i, class) < src.len() ==> !in_class(src[run_end(src, i, class)], class),
        forall|k: int| i <= k < run_end(src, i, class) ==> in_class(#[trigger] src[k], class),
    decreases src.len() - i,
{
    if i < src.len() && in_class(src[i], class) {
        lemma_run_end(src, i + 1, class);
    }
}

/// A token starts where it was looked for, is not empty, and ends within the
/// source.
pub proof fn lemma_token_at(src: Seq<char>, i: int)
    requires
        0 <= i < src.len() <= usize::MAX,
    ensures
        token_at(src, i) matches Ok(t) ==> t.start == i && i < t.end <= src.len(),
{
    let c = src[i];
    lemma_run_end(src, i + 1, CharClass::Digit);
    lemma_run_end(src, i + 1, CharClass::Word);
    lemma_run_end(src, i + 1, CharClass::Quoted);
    if is_digit(c) {
        let j = run_end(src, i, CharClass::Digit);
        if j + 1 < src.len() {
            lemma_run_end(src, j + 1, CharClass::Digit);
        }
    }
}

/// A token that was found fits the source.
pub proof fn lemma_token_fits(src: Seq<char>, i: int)
    requires
        0 <= i < src.len() <= usize::MAX,
    ensures
        token_at(src, i) matches Ok(t) ==> token_fits(src, t),
{
    lemma_token_at(src, i);
    let c = src[i];
    if is_digit(c) {
        let j = run_end(src, i, CharClass::Digit);
        lemma_run_end(src, i + 1, CharClass::Digit);
        let t = token_at(src, i)->Ok_0;
        let text = src.subrange(t.start as int, t.end as int);
        if j + 1 < src.len() && src[j] == '.' && is_digit(src[j + 1]) {
            lemma_run_end(src, j + 1, CharClass::Digit);
            let dot = j - i;
            assert(text[dot] == '.');
            assert(all_digits(text.subrange(0, dot))) by {
                assert forall|k: int| 0 <= k < dot implies is_digit(#[trigger] text.subrange(0, dot)[k]) by {
                    assert(in_class(src[i + k], CharClass::Digit));
                }
            }
            assert(all_digits(text.subrange(dot + 1, text.len() as int))) by {
                assert forall|k: int| 0 <= k < text.len() - dot - 1 implies is_digit(
                    #[trigger] text.subrange(dot + 1, text.len() as int)[k],
                ) by {
                    assert(in_class(src[j + 1 + k], CharClass::Digit));
                }
            }
        } else {
            assert(all_digits(text)) by {
                assert forall|k: int| 0 <= k < text.len() implies is_digit(#[trigger] text[k]) by {
                    assert(in_class(src[i + k], CharClass::Digit));
                }
            }
        }
    }
}

/// Whether a character belongs to a class.
fn belongs(c: char, class: CharClass) -> (r: bool)
    ensures
        r == in_class(c, class),
{
    let space = c == ' ' || c == '\t' || c == '\n' || c == '\r';
    let digit = '0' <= c && c <= '9';
    let letter = ('a' <= c && c <= 'z') || ('A' <= c && c <= 'Z');
    let bracket = c == '[' || c == ']' || c == '(' || c == ')';
    match class {
        CharClass::Space => space,
        CharClass::Digit => digit,
        CharClass::Word => letter || digit || c == '_',
        CharClass::Quoted => !space && !bracket,
    }
}

/// Finds where the longest run of characters of one class that starts at
/// `i` ends.
fn scan(src: &Vec<char>, i: usize, class: CharClass) -> (j: usize)
    requires
        i <= src.len(),
    ensures
        j == run_end(src@, i as int, class),
        i <= j <= src.len(),
{
    let mut j = i;
    while j < src.len() && belongs(src[j], class)
        invariant
            i <= j <= src.len(),
            run_end(src@, i as int, class) == run_end(src@, j as int, class),
        decreases src.len() - j,
    {
        j += 1;
    }
    j
}

/// Whether a range of the source reads as a given word.
fn text_is(src: &Vec<char>, start: usize, end: usize, word: &str) -> (r: bool)
    requires
        start <= end <= src.len(),
    ensures
        r == (src@.subrange(start as int, end as int) == word@),
{
    let n = word.unicode_len();
    if end - start != n {
        return false;
    }
    let mut k: usize = 0;
    while k < n
        invariant
            k <= n,
            n == word@.len(),
            end - start == n,
            start <= end <= src.len(),
            forall|m: int| 0 <= m < k ==> src@[start + m] == word@[m],
        decreases n - k,
    {
        if src[start + k] != word.get_char(k) {
            assert(src@.subrange(start as int, end as int)[k as int] != word@[k as int]);
            return false;
        }
        k += 1;
    }
    assert(src@.subrange(start as int, end as int) =~= word@);
    true
}

/// The arity of the built-in procedure that a range of the source names, if
/// it names one.
fn arity_named(table: &Vec<(Vec<&'static str>, Value)>, src: &Vec<char>, start: usize, end: usize) -> (r:
    Option<usize>)
    requires
        is_registry(table@),
        start <= end <= src.len(),
    ensures
        match builtin_named(src@.subrange(start as int, end as int)) {
            Some(f) => r == Some(f.arity),
            None => r is None,
        },
{
    let ghost text = src@.subrange(start as int, end as int);
    let mut i: usize = 0;
    while i < table.len()
        invariant
            i <= table.len(),
            is_registry(table@),
            start <= end <= src.len(),
            text == src@.subrange(start as int, end as int),
            builtin_named(text) == named_from(registry(), i as nat, text),
        decreases table.len() - i,
    {
        let names = &table[i].0;
        let ghost listed = registry()[i as int].0;
        assert(names_of(table@[i as int].0@) == listed);
        let mut j: usize = 0;
        while j < names.len()
            invariant
                j <= names.len(),
                i < table.len(),
                is_registry(table@),
                names == &table@[i as int].0,
                names_of(names@) == listed,
                start <= end <= src.len(),
                text == src@.subrange(start as int, end as int),
                forall|k: int| 0 <= k < j ==> listed[k] != text,
                listed == registry()[i as int].0,
                builtin_named(text) == named_from(registry(), i as nat, text),
            decreases names.len() - j,
        {
            assert(listed[j as int] == names@[j as int]@);
            if text_is(src, start, end, names[j]) {
                assert(listed.contains(text));
                return match &table[i].1 {
                    Value::Function(LogoFn::LangFn(f)) => Some(f.arity),
                    _ => None,
                };
            }
            j += 1;
        }
        assert(!listed.contains(text));
        i += 1;
    }
    None
}

/// Finds the kind of the token that a word is.
fn classify(table: &Vec<(Vec<&'static str>, Value)>, src: &Vec<char>, start: usize, end: usize) -> (r:
    TokenKind)
    requires
        is_registry(table@),
        start <= end <= src.len(),
    ensures
        r == word_kind(src@.subrange(start as int, end as int)),
{
    if text_is(src, start, end, "to") {
        TokenKind::To
    } else if text_is(src, start, end, "end") {
        TokenKind::End
    } else if text_is(src, start, end, "if") {
        TokenKind::If
    } else if text_is(src, start, end, "repeat") {
        TokenKind::Repeat
    } else if text_is(src, start, end, "and") {
        TokenKind::Operator(Binop::And)
    } else if text_is(src, start, end, "or") {
        TokenKind::Operator(Binop::Or)
    } else if text_is(src, start, end, "pick") || text_is(src, start, end, "random") {
        TokenKind::Function
    } else {
        match arity_named(table, src, start, end) {
            Some(n) => TokenKind::Command(n),
            None => TokenKind::Name,
        }
    }
}

/// Finds the token that starts at `i`.
fn next_token(table: &Vec<(Vec<&'static str>, Value)>, src: &Vec<char>, i: usize) -> (r: Result<
    Token,
    ParseError,
>)
    requires
        is_registry(table@),
        i < src.len(),
    ensures
        r == token_at(src@, i as int),
{
    let c = src[i];
    let next_is_equals = i + 1 < src.len() && src[i + 1] == '=';
    proof {
        lemma_run_end(src@, i as int, CharClass::Digit);
        lemma_run_end(src@, i as int, CharClass::Word);
    }
    if belongs(c, CharClass::Digit) {
        let j = scan(src, i, CharClass::Digit);
        if j < src.len() && j + 1 < src.len() && src[j] == '.' && belongs(src[j + 1], CharClass::Digit) {
            Ok(Token { kind: TokenKind::Number, start: i, end: scan(src, j + 1, CharClass::Digit) })
        } else {
            Ok(Token { kind: TokenKind::Number, start: i, end: j })
        }
    } else if ('a' <= c && c <= 'z') || ('A' <= c && c <= 'Z') {
        let j = scan(src, i, CharClass::Word);
        Ok(Token { kind: classify(table, src, i, j), start: i, end: j })
    } else if c == ':' {
        if i + 1 < src.len() && (('a' <= src[i + 1] && src[i + 1] <= 'z') || ('A' <= src[i + 1] && src[i + 1]
            <= 'Z')) {
            Ok(Token { kind: TokenKind::Variable, start: i, end: scan(src, i + 1, CharClass::Word) })
        } else {
            Err(ParseError { rule: Rule::Variable, position: i })
        }
    } else if c == '"' {
        Ok(Token { kind: TokenKind::Quoted, start: i, end: scan(src, i + 1, CharClass::Quoted) })
    } else if c == '[' {
        Ok(Token { kind: TokenKind::Open, start: i, end: i + 1 })
    } else if c == ']' {
        Ok(Token { kind: TokenKind::Close, start: i, end: i + 1 })
    } else if c == '(' {
        Ok(Token { kind: TokenKind::LeftParen, start: i, end: i + 1 })
    } else if c == ')' {
        Ok(Token { kind: TokenKind::RightParen, start: i, end: i + 1 })
    } else if c == '+' {
        Ok(Token { kind: TokenKind::Operator(Binop::Add), start: i, end: i + 1 })
    } else if c == '-' {
        Ok(Token { kind: TokenKind::Operator(Binop::Sub), start: i, end: i + 1 })
    } else if c == '*' {
        Ok(Token { kind: TokenKind::Operator(Binop::Mul), start: i, end: i + 1 })
    } else if c == '/' {
        Ok(Token { kind: TokenKind::Operator(Binop::Div), start: i, end: i + 1 })
    } else if c == '<' {
        if next_is_equals {
            Ok(Token { kind: TokenKind::Operator(Binop::LessEqual), start: i, end: i + 2 })
        } else {
            Ok(Token { kind: TokenKind::Operator(Binop::Less), start: i, end: i + 1 })
        }
    } else if c == '>' {
        if next_is_equals {
            Ok(Token { kind: TokenKind::Operator(Binop::GreaterEqual), start: i, end: i + 2 })
        } else {
            Ok(Token { kind: TokenKind::Operator(Binop::Greater), start: i, end: i + 1 })
        }
    } else if c == '=' && next_is_equals {
        Ok(Token { kind: TokenKind::Operator(Binop::EqualEqual), start: i, end: i + 2 })
    } else {
        Err(ParseError { rule: Rule::Token, position: i })
    }
}

/// Finds the tokens of a source text.
pub fn tokenize(src: &Vec<char>) -> (r: Result<Vec<Token>, ParseError>)
    ensures
        match r {
            Ok(toks) => lex(src@) == Ok::<Seq<Token>, ParseError>(toks@) && tokens_fit(src@, toks@),
            Err(e) => lex(src@) == Err::<Seq<Token>, ParseError>(e),
        },
{
    let table = get_builtins();
    let mut toks: Vec<Token> = Vec::new();
    let mut i: usize = 0;
    loop
        invariant
            i <= src.len(),
            is_registry(table@),
            tokens_fit(src@, toks@),
            match lex_from(src@, i as int) {
                Ok(rest) => lex(src@) == Ok::<Seq<Token>, ParseError>(toks@ + rest),
                Err(e) => lex(src@) == Err::<Seq<Token>, ParseError>(e),
            },
        decreases src.len() - i,
    {
        let j = scan(src, i, CharClass::Space);
        if j >= src.len() {
            assert(toks@ + Seq::<Token>::empty() =~= toks@);
            return Ok(toks);
        }
        proof {
            lemma_token_at(src@, j as int);
            lemma_token_fits(src@, j as int);
        }
        match next_token(&table, src, j) {
            Err(e) => {
                return Err(e);
            },
            Ok(t) => {
                proof {
                    let ghost rest = lex_from(src@, t.end as int);
                    if rest is Ok {
                        assert(toks@ + (seq![t] + rest->Ok_0) =~= toks@.push(t) + rest->Ok_0);
                    }
                }
                toks.push(t);
                i = t.end;
            },
        }
    }
}

} // verus!
