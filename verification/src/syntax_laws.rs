//! Laws of the grammar: what the scanner and the parser make of programs of
//! a given shape, whatever the numeric literals in them.
use crate::drawer::Stroke;
use crate::grammar::{
    failure, is_negative_literal, kind_at, parse_binary, parse_exprs, parse_primary, parse_program, parse_source,
    parse_statement, parse_statements, starts_expr, text,
};
use crate::interpreter::run;
use crate::interpreter::semantics::{rounds_of, Failure};
use crate::laws::{
    call_of, forward_sum, forwards, law_forward_sum, law_repeat_forward, lemma_forward_is_bound, repeat_forward,
};
use crate::lexer::{
    in_class, is_space, lex, lex_from, run_end, token, token_at, word_kind, CharClass, ParseError, Rule, Token,
    TokenKind,
};
use crate::number::{all_digits, decimal_value, is_decimal_literal, is_digit, is_unsigned_literal, Number};
use crate::parser::{Binop, Term};
use vstd::prelude::*;

verus! {

/// A run of characters of one class that is followed by the end of the
/// source, or by a character of another class, ends there.
pub proof fn lemma_run_ends_at(src: Seq<char>, i: int, j: int, class: CharClass)
    requires
        0 <= i <= j <= src.len(),
        forall|k: int| i <= k < j ==> in_class(#[trigger] src[k], class),
        j < src.len() ==> !in_class(src[j], class),
    ensures
        run_end(src, i, class) == j,
    decreases j - i,
{
    if i < j {
        lemma_run_ends_at(src, i + 1, j, class);
    }
}

/// Whether the source ends at `j`, or goes on there with a character that
/// cannot be part of a numeric literal.
pub open spec fn ends_number(src: Seq<char>, j: int) -> bool {
    j == src.len() || (0 <= j < src.len() && !is_digit(src[j]) && src[j] != '.')
}

/// An unsigned literal starts with a digit.
pub proof fn lemma_literal_starts_with_digit(x: Seq<char>)
    requires
        is_unsigned_literal(x),
    ensures
        x.len() > 0,
        is_digit(x[0]),
{
    if x.len() > 0 && all_digits(x) {
        assert(is_digit(x[0]));
    } else {
        let dot = choose|dot: int|
            0 < dot < x.len() - 1 && #[trigger] x[dot] == '.' && all_digits(x.subrange(0, dot)) && all_digits(
                x.subrange(dot + 1, x.len() as int),
            );
        assert(is_digit(x.subrange(0, dot)[0]));
    }
}

/// An unsigned literal that stands in the source, and after which the
/// source ends or goes on with something that is neither a digit nor a dot,
/// is one number token.
pub proof fn lemma_number_token(src: Seq<char>, i: int, x: Seq<char>)
    requires
        is_unsigned_literal(x),
        0 <= i,
        i + x.len() <= src.len(),
        src.subrange(i, i + x.len()) == x,
        ends_number(src, i + x.len()),
    ensures
        token_at(src, i) == Ok::<Token, ParseError>(token(TokenKind::Number, i, i + x.len())),
{
    let end = i + x.len();
    assert forall|k: int| 0 <= k < x.len() implies src[i + k] == #[trigger] x[k] by {
        assert(src.subrange(i, end)[k] == src[i + k]);
    }
    if x.len() > 0 && all_digits(x) {
        assert forall|k: int| i <= k < end implies in_class(#[trigger] src[k], CharClass::Digit) by {
            assert(is_digit(x[k - i]));
        }
        lemma_run_ends_at(src, i, end, CharClass::Digit);
        assert(is_digit(x[0]));
    } else {
        let dot = choose|dot: int|
            0 < dot < x.len() - 1 && #[trigger] x[dot] == '.' && all_digits(x.subrange(0, dot)) && all_digits(
                x.subrange(dot + 1, x.len() as int),
            );
        assert forall|k: int| i <= k < i + dot implies in_class(#[trigger] src[k], CharClass::Digit) by {
            assert(is_digit(x.subrange(0, dot)[k - i]));
        }
        assert(src[i + dot] == x[dot]);
        lemma_run_ends_at(src, i, i + dot, CharClass::Digit);
        assert forall|k: int| i + dot + 1 <= k < end implies in_class(#[trigger] src[k], CharClass::Digit) by {
            assert(is_digit(x.subrange(dot + 1, x.len() as int)[k - i - dot - 1]));
            assert(src[k] == x[k - i]);
        }
        lemma_run_ends_at(src, i + dot + 1, end, CharClass::Digit);
        assert(is_digit(x.subrange(0, dot)[0]));
        assert(src[i] == x[0]);
        assert(is_digit(x.subrange(dot + 1, x.len() as int)[0]));
        assert(src[i + dot + 1] == x[dot + 1]);
    }
}

/// The tokens of the source from `i` on are the first token after the
/// spaces at `i`, and then the tokens from its end on.
pub proof fn lemma_lex_step(src: Seq<char>, i: int, j: int, t: Token)
    requires
        0 <= i <= j < src.len() <= usize::MAX,
        forall|k: int| i <= k < j ==> is_space(#[trigger] src[k]),
        !is_space(src[j]),
        token_at(src, j) == Ok::<Token, ParseError>(t),
    ensures
        lex_from(src, i) == match lex_from(src, t.end as int) {
            Ok(rest) => Ok::<Seq<Token>, ParseError>(seq![t] + rest),
            Err(e) => Err(e),
        },
{
    lemma_run_ends_at(src, i, j, CharClass::Space);
}

/// Where only spaces are left, no tokens are.
pub proof fn lemma_lex_end(src: Seq<char>, i: int)
    requires
        0 <= i <= src.len(),
        forall|k: int| i <= k < src.len() ==> is_space(#[trigger] src[k]),
    ensures
        lex_from(src, i) == Ok::<Seq<Token>, ParseError>(Seq::empty()),
{
    lemma_run_ends_at(src, i, src.len() as int, CharClass::Space);
}

/// The tokens of a decimal literal that starts at `p` in the source: a
/// number, or a minus sign and a number that touch.
pub open spec fn literal_tokens(z: Seq<char>, p: int) -> Seq<Token> {
    if z.len() > 0 && z[0] == '-' {
        seq![token(TokenKind::Operator(Binop::Sub), p, p + 1), token(TokenKind::Number, p + 1, p + z.len())]
    } else {
        seq![token(TokenKind::Number, p, p + z.len())]
    }
}

/// A decimal literal that stands at `p` in the source, after spaces from `i`
/// on, and after which the source ends or goes on with something that is
/// neither a digit nor a dot, is scanned as the tokens of the literal.
pub proof fn lemma_literal_lexes(src: Seq<char>, i: int, p: int, z: Seq<char>)
    requires
        is_decimal_literal(z),
        0 <= i <= p,
        p + z.len() <= src.len() <= usize::MAX,
        forall|k: int| i <= k < p ==> is_space(#[trigger] src[k]),
        src.subrange(p, p + z.len()) == z,
        ends_number(src, p + z.len()),
    ensures
        lex_from(src, i) == match lex_from(src, p + z.len()) {
            Ok(rest) => Ok::<Seq<Token>, ParseError>(literal_tokens(z, p) + rest),
            Err(e) => Err(e),
        },
{
    assert forall|k: int| 0 <= k < z.len() implies src[p + k] == #[trigger] z[k] by {
        assert(src.subrange(p, p + z.len())[k] == src[p + k]);
    }
    if is_unsigned_literal(z) {
        lemma_literal_starts_with_digit(z);
        assert(src[p] == z[0]);
        lemma_number_token(src, p, z);
        lemma_lex_step(src, i, p, literal_tokens(z, p)[0]);
    } else {
        let x = z.subrange(1, z.len() as int);
        lemma_literal_starts_with_digit(x);
        assert(src[p] == z[0]);
        assert(src[p + 1] == z[1]);
        assert(x[0] == z[1]);
        assert(src.subrange(p + 1, p + 1 + x.len()) =~= x);
        lemma_number_token(src, p + 1, x);
        let minus = literal_tokens(z, p)[0];
        let number = literal_tokens(z, p)[1];
        assert(token_at(src, p) == Ok::<Token, ParseError>(minus));
        lemma_lex_step(src, i, p, minus);
        lemma_lex_step(src, p + 1, p + 1, number);
        let after = lex_from(src, p + z.len());
        if after is Ok {
            assert(seq![minus] + (seq![number] + after->Ok_0) =~= literal_tokens(z, p) + after->Ok_0);
        }
    }
}

/// Whether the tokens from `k` on begin with the tokens of the literal `z`
/// that stands at `p` in the source.
pub open spec fn literal_at(src: Seq<char>, toks: Seq<Token>, k: int, z: Seq<char>, p: int) -> bool {
    &&& 0 <= k
    &&& 0 <= p
    &&& p + z.len() <= src.len() <= usize::MAX
    &&& k + literal_tokens(z, p).len() <= toks.len()
    &&& toks.subrange(k, k + literal_tokens(z, p).len()) == literal_tokens(z, p)
    &&& src.subrange(p, p + z.len()) == z
}

/// The number that a literal stands for, if it has a value.
pub open spec fn literal_number(z: Seq<char>) -> Option<Number> {
    match decimal_value(z) {
        Some(bits) => Some(Number { bits }),
        None => None,
    }
}

/// The tokens of a decimal literal are an operand: the number that the
/// literal stands for. Where the literal has no value, the operand fails.
pub proof fn lemma_literal_operand(src: Seq<char>, toks: Seq<Token>, k: int, z: Seq<char>, p: int)
    requires
        is_decimal_literal(z),
        literal_at(src, toks, k, z, p),
    ensures
        starts_expr(toks, k),
        parse_primary(src, toks, k) == match literal_number(z) {
            Some(n) => Ok::<(Term, int), ParseError>((Term::Number(n), k + literal_tokens(z, p).len())),
            None => Err(failure(src, toks, Rule::Number, k)),
        },
{
    let lit = literal_tokens(z, p);
    let part = toks.subrange(k, k + lit.len());
    assert(part[0] == toks[k]);
    if is_unsigned_literal(z) {
        lemma_literal_starts_with_digit(z);
        assert(text(src, toks[k]) == z);
    } else {
        assert(part[1] == toks[k + 1]);
        assert(is_negative_literal(toks, k));
        assert(src.subrange(toks[k].start as int, toks[k + 1].end as int) == z);
    }
}

/// An operand after which no operator stands is an expression on every
/// level; and where an operand fails, so does the expression.
pub proof fn lemma_operand_alone(src: Seq<char>, toks: Seq<Token>, i: int, level: nat)
    requires
        parse_primary(src, toks, i) matches Ok((_, j)) ==> !(kind_at(toks, j) matches Some(
            TokenKind::Operator(_),
        )),
    ensures
        parse_binary(src, toks, i, level) == parse_primary(src, toks, i),
    decreases 4 - level,
{
    if level < 4 {
        lemma_operand_alone(src, toks, i, level + 1);
    }
}

/// `forward` is scanned as the name of a built-in procedure of one
/// argument.
pub proof fn lemma_forward_is_a_command()
    ensures
        word_kind("forward"@) == TokenKind::Command(1),
        "forward"@.len() == 7,
{
    lemma_forward_is_bound();
    reveal_strlit("forward");
    reveal_strlit("to");
    reveal_strlit("end");
    reveal_strlit("if");
    reveal_strlit("repeat");
    reveal_strlit("and");
    reveal_strlit("or");
    reveal_strlit("pick");
    reveal_strlit("random");
    assert("forward"@.len() == 7);
    assert("to"@.len() == 2 && "end"@.len() == 3 && "if"@.len() == 2 && "repeat"@.len() == 6);
    assert("and"@.len() == 3 && "or"@.len() == 2 && "pick"@.len() == 4 && "random"@.len() == 6);
}

/// The text of the program `forward x + y`.
pub open spec fn forward_sum_text(x: Seq<char>, y: Seq<char>) -> Seq<char> {
    "forward "@ + x + " + "@ + y
}

/// The tokens of `forward x + y`, where `x` and `y` are decimal literals.
pub open spec fn forward_sum_tokens(x: Seq<char>, y: Seq<char>) -> Seq<Token> {
    let lx = x.len() as int;
    seq![token(TokenKind::Command(1), 0, 7)] + literal_tokens(x, 8) + seq![
        token(TokenKind::Operator(Binop::Add), 9 + lx, 10 + lx),
    ] + literal_tokens(y, 11 + lx)
}

/// The scanner finds in `forward x + y` the word, the tokens of the two
/// literals, and the sign between them.
pub proof fn lemma_forward_sum_lexes(x: Seq<char>, y: Seq<char>)
    requires
        is_decimal_literal(x),
        is_decimal_literal(y),
        11 + x.len() + y.len() <= usize::MAX,
    ensures
        lex(forward_sum_text(x, y)) == Ok::<Seq<Token>, ParseError>(forward_sum_tokens(x, y)),
{
    let lx = x.len() as int;
    let ly = y.len() as int;
    let src = forward_sum_text(x, y);
    let toks = forward_sum_tokens(x, y);
    let first = 8int;
    let sign = 9 + lx;
    let second = 11 + lx;
    let end = 11 + lx + ly;
    let word = token(TokenKind::Command(1), 0, 7);
    let plus = token(TokenKind::Operator(Binop::Add), sign, sign + 1);
    reveal_strlit("forward ");
    reveal_strlit("forward");
    reveal_strlit(" + ");
    lemma_forward_is_a_command();
    assert(src.len() == end);
    assert(src[0] == 'f' && src[1] == 'o' && src[2] == 'r' && src[3] == 'w' && src[4] == 'a' && src[5] == 'r'
        && src[6] == 'd' && src[7] == ' ');
    assert(src[sign - 1] == ' ' && src[sign] == '+' && src[sign + 1] == ' ');
    assert(src.subrange(0, 7) =~= "forward"@);
    assert(src.subrange(first, first + lx) =~= x);
    assert(src.subrange(second, second + ly) =~= y);
    lemma_run_ends_at(src, 0, 7, CharClass::Word);
    assert(token_at(src, 0) == Ok::<Token, ParseError>(word));
    assert(token_at(src, sign) == Ok::<Token, ParseError>(plus));
    lemma_lex_end(src, end);
    lemma_literal_lexes(src, sign + 1, second, y);
    assert(lex_from(src, sign + 1) == Ok::<Seq<Token>, ParseError>(literal_tokens(y, second))) by {
        assert(literal_tokens(y, second) + Seq::<Token>::empty() =~= literal_tokens(y, second));
    }
    lemma_lex_step(src, sign - 1, sign, plus);
    lemma_literal_lexes(src, 7, first, x);
    lemma_lex_step(src, 0, 0, word);
    assert(seq![word] + (literal_tokens(x, first) + (seq![plus] + literal_tokens(y, second))) =~= toks);
}

/// The parser makes of the tokens of `forward x + y` the call of `forward`
/// on the sum of the two numbers. Where a literal has no value, it says so
/// at the literal.
pub proof fn lemma_forward_sum_parses(x: Seq<char>, y: Seq<char>)
    requires
        is_decimal_literal(x),
        is_decimal_literal(y),
        11 + x.len() + y.len() <= usize::MAX,
    ensures
        parse_program(forward_sum_text(x, y), forward_sum_tokens(x, y)) == match (
            literal_number(x),
            literal_number(y),
        ) {
            (Some(a), Some(b)) => Ok::<Term, ParseError>(forward_sum(a, b)),
            (None, _) => Err(ParseError { rule: Rule::Number, position: 8 }),
            (Some(_), None) => Err(ParseError { rule: Rule::Number, position: (11 + x.len()) as usize }),
        },
{
    let lx = x.len() as int;
    let ly = y.len() as int;
    let src = forward_sum_text(x, y);
    let toks = forward_sum_tokens(x, y);
    let n1 = literal_tokens(x, 8).len() as int;
    let n2 = literal_tokens(y, 11 + lx).len() as int;
    let k2 = 2 + n1;
    reveal_strlit("forward ");
    reveal_strlit("forward");
    reveal_strlit(" + ");
    assert(toks.len() == 2 + n1 + n2);
    assert(toks[0] == token(TokenKind::Command(1), 0, 7));
    assert(toks[1 + n1] == token(TokenKind::Operator(Binop::Add), 9 + lx, 10 + lx));
    assert(toks.subrange(1, 1 + n1) =~= literal_tokens(x, 8));
    assert(toks.subrange(k2, k2 + n2) =~= literal_tokens(y, 11 + lx));
    assert(src.subrange(0, 7) =~= "forward"@);
    assert(src.subrange(8, 8 + lx) =~= x);
    assert(src.subrange(11 + lx, 11 + lx + ly) =~= y);
    lemma_literal_operand(src, toks, 1, x, 8);
    lemma_literal_operand(src, toks, k2, y, 11 + lx);
    assert(toks[1].start == 8);
    assert(toks[k2].start == 11 + lx);
    match literal_number(x) {
        None => {
            lemma_operand_alone(src, toks, 1, 0);
        },
        Some(a) => {
            assert(parse_binary(src, toks, 1, 4) == parse_primary(src, toks, 1));
            assert(parse_binary(src, toks, 1, 3) == parse_primary(src, toks, 1));
            lemma_operand_alone(src, toks, k2, 2);
            match literal_number(y) {
                None => {
                    assert(parse_binary(src, toks, 1, 2) == parse_primary(src, toks, k2));
                    assert(parse_binary(src, toks, 1, 1) == parse_primary(src, toks, k2));
                    assert(parse_binary(src, toks, 1, 0) == parse_primary(src, toks, k2));
                },
                Some(b) => {
                    let sum = Term::Binop {
                        lhs: Box::new(Term::Number(a)),
                        op: Binop::Add,
                        rhs: Box::new(Term::Number(b)),
                    };
                    let whole = toks.len() as int;
                    assert(parse_binary(src, toks, 1, 2) == Ok::<(Term, int), ParseError>((sum, whole)));
                    assert(parse_binary(src, toks, 1, 1) == Ok::<(Term, int), ParseError>((sum, whole)));
                    assert(parse_binary(src, toks, 1, 0) == Ok::<(Term, int), ParseError>((sum, whole)));
                    assert(parse_exprs(src, toks, whole, 0) == Ok::<(Seq<Term>, int), ParseError>(
                        (Seq::empty(), whole),
                    ));
                    assert(parse_exprs(src, toks, 1, 1) == Ok::<(Seq<Term>, int), ParseError>(
                        (seq![sum], whole),
                    )) by {
                        assert(seq![sum] + Seq::<Term>::empty() =~= seq![sum]);
                    }
                    let call = call_of("forward"@, seq![sum]);
                    assert(parse_statement(src, toks, 0) == Ok::<(Term, int), ParseError>((call, whole)));
                    assert(parse_statements(src, toks, whole) == Ok::<(Seq<Term>, int), ParseError>(
                        (Seq::empty(), whole),
                    ));
                    assert(parse_statements(src, toks, 0) == Ok::<(Seq<Term>, int), ParseError>(
                        (seq![call], whole),
                    )) by {
                        assert(seq![call] + Seq::<Term>::empty() =~= seq![call]);
                    }
                },
            }
        },
    }
}

/// For all decimal literals `x` and `y`: the text `forward x + y` parses to
/// the call of `forward` on the sum of the numbers that the literals stand
/// for, and that program, whatever the random draws, draws exactly one move
/// forward, by the sum of the two numbers.
pub proof fn law_forward_sum_of_literals(x: Seq<char>, y: Seq<char>, depth: nat, tape: Seq<nat>)
    requires
        is_decimal_literal(x),
        is_decimal_literal(y),
        11 + x.len() + y.len() <= usize::MAX,
    ensures
        literal_number(x) is Some && literal_number(y) is Some ==> {
            &&& parse_source(forward_sum_text(x, y)) == Ok::<Term, ParseError>(
                forward_sum(literal_number(x)->0, literal_number(y)->0),
            )
            &&& run(forward_sum(literal_number(x)->0, literal_number(y)->0), depth, tape) == Ok::<
                Seq<Stroke>,
                Failure,
            >(seq![Stroke::Forward(literal_number(x)->0.plus(literal_number(y)->0))])
        },
        !(literal_number(x) is Some && literal_number(y) is Some) ==> parse_source(forward_sum_text(x, y)) is Err,
{
    lemma_forward_sum_lexes(x, y);
    lemma_forward_sum_parses(x, y);
    if literal_number(x) is Some && literal_number(y) is Some {
        law_forward_sum(literal_number(x)->0, literal_number(y)->0, depth, tape);
    }
}

/// The text of the program `repeat k [ forward n ]`.
pub open spec fn repeat_forward_text(k: Seq<char>, n: Seq<char>) -> Seq<char> {
    "repeat "@ + k + " [ forward "@ + n + " ]"@
}

/// The tokens of `repeat k [ forward n ]`, where `k` and `n` are decimal
/// literals.
pub open spec fn repeat_forward_tokens(k: Seq<char>, n: Seq<char>) -> Seq<Token> {
    let lk = k.len() as int;
    let ln = n.len() as int;
    seq![token(TokenKind::Repeat, 0, 6)] + literal_tokens(k, 7) + seq![
        token(TokenKind::Open, 8 + lk, 9 + lk),
        token(TokenKind::Command(1), 10 + lk, 17 + lk),
    ] + literal_tokens(n, 18 + lk) + seq![token(TokenKind::Close, 19 + lk + ln, 20 + lk + ln)]
}

/// The scanner finds in `repeat k [ forward n ]` the two words, the
/// brackets, and the tokens of the two literals.
pub proof fn lemma_repeat_forward_lexes(k: Seq<char>, n: Seq<char>)
    requires
        is_decimal_literal(k),
        is_decimal_literal(n),
        20 + k.len() + n.len() <= usize::MAX,
    ensures
        lex(repeat_forward_text(k, n)) == Ok::<Seq<Token>, ParseError>(repeat_forward_tokens(k, n)),
{
    let lk = k.len() as int;
    let ln = n.len() as int;
    let src = repeat_forward_text(k, n);
    let toks = repeat_forward_tokens(k, n);
    let q = 7 + lk;
    let second = 18 + lk;
    let end = 20 + lk + ln;
    let repeat = token(TokenKind::Repeat, 0, 6);
    let open = token(TokenKind::Open, q + 1, q + 2);
    let word = token(TokenKind::Command(1), q + 3, q + 10);
    let close = token(TokenKind::Close, end - 1, end);
    reveal_strlit("repeat ");
    reveal_strlit("repeat");
    reveal_strlit(" [ forward ");
    reveal_strlit("forward");
    reveal_strlit(" ]");
    reveal_strlit("to");
    reveal_strlit("end");
    reveal_strlit("if");
    lemma_forward_is_a_command();
    assert(src.len() == end);
    assert(src[0] == 'r' && src[1] == 'e' && src[2] == 'p' && src[3] == 'e' && src[4] == 'a' && src[5] == 't'
        && src[6] == ' ');
    assert(src[q] == ' ' && src[q + 1] == '[' && src[q + 2] == ' ' && src[q + 10] == ' ');
    assert(src[q + 3] == 'f' && src[q + 4] == 'o' && src[q + 5] == 'r' && src[q + 6] == 'w' && src[q + 7] == 'a'
        && src[q + 8] == 'r' && src[q + 9] == 'd');
    assert(src[end - 2] == ' ' && src[end - 1] == ']');
    assert(src.subrange(0, 6) =~= "repeat"@);
    assert(src.subrange(q + 3, q + 10) =~= "forward"@);
    assert(src.subrange(7, 7 + lk) =~= k);
    assert(src.subrange(second, second + ln) =~= n);
    assert("repeat"@.len() == 6 && "to"@.len() == 2 && "end"@.len() == 3 && "if"@.len() == 2);
    lemma_run_ends_at(src, 0, 6, CharClass::Word);
    assert(token_at(src, 0) == Ok::<Token, ParseError>(repeat));
    lemma_run_ends_at(src, q + 3, q + 10, CharClass::Word);
    assert(token_at(src, q + 3) == Ok::<Token, ParseError>(word));
    assert(token_at(src, q + 1) == Ok::<Token, ParseError>(open));
    assert(token_at(src, end - 1) == Ok::<Token, ParseError>(close));
    lemma_lex_end(src, end);
    lemma_lex_step(src, end - 2, end - 1, close);
    assert(lex_from(src, end - 2) == Ok::<Seq<Token>, ParseError>(seq![close])) by {
        assert(seq![close] + Seq::<Token>::empty() =~= seq![close]);
    }
    lemma_literal_lexes(src, q + 10, second, n);
    lemma_lex_step(src, q + 2, q + 3, word);
    lemma_lex_step(src, q, q + 1, open);
    lemma_literal_lexes(src, 6, 7, k);
    lemma_lex_step(src, 0, 0, repeat);
    assert(seq![repeat] + (literal_tokens(k, 7) + (seq![open] + (seq![word] + (literal_tokens(n, second) + seq![
        close,
    ])))) =~= toks);
}

/// The parser makes of the tokens of `repeat k [ forward n ]` the loop
/// whose count is the one number and whose body is the call of `forward` on
/// the other. Where a literal has no value, it says so at the literal.
pub proof fn lemma_repeat_forward_parses(k: Seq<char>, n: Seq<char>)
    requires
        is_decimal_literal(k),
        is_decimal_literal(n),
        20 + k.len() + n.len() <= usize::MAX,
    ensures
        parse_program(repeat_forward_text(k, n), repeat_forward_tokens(k, n)) == match (
            literal_number(k),
            literal_number(n),
        ) {
            (Some(c), Some(v)) => Ok::<Term, ParseError>(repeat_forward(c, v)),
            (None, _) => Err(ParseError { rule: Rule::Number, position: 7 }),
            (Some(_), None) => Err(ParseError { rule: Rule::Number, position: (18 + k.len()) as usize }),
        },
{
    let lk = k.len() as int;
    let ln = n.len() as int;
    let src = repeat_forward_text(k, n);
    let toks = repeat_forward_tokens(k, n);
    let n1 = literal_tokens(k, 7).len() as int;
    let n2 = literal_tokens(n, 18 + lk).len() as int;
    let j = 1 + n1;
    let arg = j + 2;
    let e = arg + n2;
    reveal_strlit("repeat ");
    reveal_strlit(" [ forward ");
    reveal_strlit("forward");
    reveal_strlit(" ]");
    assert(toks.len() == e + 1);
    assert(toks[0] == token(TokenKind::Repeat, 0, 6));
    assert(toks[j] == token(TokenKind::Open, 8 + lk, 9 + lk));
    assert(toks[j + 1] == token(TokenKind::Command(1), 10 + lk, 17 + lk));
    assert(toks[e] == token(TokenKind::Close, 19 + lk + ln, 20 + lk + ln));
    assert(toks.subrange(1, 1 + n1) =~= literal_tokens(k, 7));
    assert(toks.subrange(arg, arg + n2) =~= literal_tokens(n, 18 + lk));
    assert(src.subrange(10 + lk, 17 + lk) =~= "forward"@);
    assert(src.subrange(7, 7 + lk) =~= k);
    assert(src.subrange(18 + lk, 18 + lk + ln) =~= n);
    lemma_literal_operand(src, toks, 1, k, 7);
    lemma_literal_operand(src, toks, arg, n, 18 + lk);
    assert(toks[1].start == 7);
    assert(toks[arg].start == 18 + lk);
    lemma_operand_alone(src, toks, 1, 0);
    lemma_operand_alone(src, toks, arg, 0);
    match (literal_number(k), literal_number(n)) {
        (Some(c), Some(v)) => {
            let call = call_of("forward"@, seq![Term::Number(v)]);
            assert(parse_exprs(src, toks, e, 0) == Ok::<(Seq<Term>, int), ParseError>((Seq::empty(), e)));
            assert(parse_exprs(src, toks, arg, 1) == Ok::<(Seq<Term>, int), ParseError>(
                (seq![Term::Number(v)], e),
            )) by {
                assert(seq![Term::Number(v)] + Seq::<Term>::empty() =~= seq![Term::Number(v)]);
            }
            assert(parse_statement(src, toks, j + 1) == Ok::<(Term, int), ParseError>((call, e)));
            assert(parse_statements(src, toks, e) == Ok::<(Seq<Term>, int), ParseError>((Seq::empty(), e)));
            assert(parse_statements(src, toks, j + 1) == Ok::<(Seq<Term>, int), ParseError>((seq![call], e))) by {
                assert(seq![call] + Seq::<Term>::empty() =~= seq![call]);
            }
            let whole = Term::Loop { repeat: Box::new(Term::Number(c)), body: Box::new(Term::Block(seq![call])) };
            assert(parse_statement(src, toks, 0) == Ok::<(Term, int), ParseError>((whole, e + 1)));
            assert(parse_statements(src, toks, e + 1) == Ok::<(Seq<Term>, int), ParseError>(
                (Seq::empty(), e + 1),
            ));
            assert(parse_statements(src, toks, 0) == Ok::<(Seq<Term>, int), ParseError>((seq![whole], e + 1))) by {
                assert(seq![whole] + Seq::<Term>::empty() =~= seq![whole]);
            }
        },
        (None, _) => {},
        (Some(c), None) => {
            assert(parse_exprs(src, toks, arg, 1) is Err);
            assert(parse_statement(src, toks, j + 1) is Err);
            assert(parse_statements(src, toks, j + 1) is Err);
        },
    }
}

/// For all decimal literals `k` and `n`: the text `repeat k [ forward n ]`
/// parses to the loop of the two numbers, and that program, whatever the
/// random draws, draws as many moves forward by the second number as the
/// first has rounds, in order, and nothing else: none where the count
/// truncates to zero or less.
pub proof fn law_repeat_forward_of_literals(k: Seq<char>, n: Seq<char>, depth: nat, tape: Seq<nat>)
    requires
        is_decimal_literal(k),
        is_decimal_literal(n),
        20 + k.len() + n.len() <= usize::MAX,
    ensures
        literal_number(k) is Some && literal_number(n) is Some ==> {
            &&& parse_source(repeat_forward_text(k, n)) == Ok::<Term, ParseError>(
                repeat_forward(literal_number(k)->0, literal_number(n)->0),
            )
            &&& run(repeat_forward(literal_number(k)->0, literal_number(n)->0), depth, tape) == Ok::<
                Seq<Stroke>,
                Failure,
            >(forwards(rounds_of(literal_number(k)->0), literal_number(n)->0))
        },
        !(literal_number(k) is Some && literal_number(n) is Some) ==> parse_source(repeat_forward_text(k, n))
            is Err,
{
    lemma_repeat_forward_lexes(k, n);
    lemma_repeat_forward_parses(k, n);
    if literal_number(k) is Some && literal_number(n) is Some {
        law_repeat_forward(literal_number(k)->0, literal_number(n)->0, depth, tape);
    }
}

} // verus!
