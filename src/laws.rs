use vstd::prelude::*;

use crate::ast::ExprView;
use crate::ast::operator_of;
use crate::grammar::{next_token, spec_expression, spec_nested, spec_program, spec_simple};
use crate::lexer::{
    decimal_value, digits_end, is_digit, is_letter, is_space, is_unrecognized, letters_end,
    lemma_digits_end, lemma_letters_end, lemma_lex_from_unfold, lemma_skip_spaces, lex_from,
    skip_spaces, symbol, Lexeme,
};
use crate::token::TokenView;

verus! {

/// A stream that ends in a lexing failure.
pub open spec fn ends_in_failure(ts: Seq<Lexeme>) -> bool {
    ts.len() > 0 && ts.last() == Lexeme::Invalid
}

proof fn lemma_skip_spaces_stops(s: Seq<u8>, i: int, k: int)
    requires
        0 <= i <= k < s.len(),
        !is_space(s[k]),
    ensures
        skip_spaces(s, i) <= k,
    decreases k - i,
{
    if is_space(s[i]) {
        lemma_skip_spaces_stops(s, i + 1, k);
    }
}

proof fn lemma_letters_stop(s: Seq<u8>, i: int, k: int)
    requires
        0 <= i <= k < s.len(),
        !is_letter(s[k]),
    ensures
        letters_end(s, i) <= k,
    decreases k - i,
{
    if is_letter(s[i]) {
        lemma_letters_stop(s, i + 1, k);
    }
}

proof fn lemma_digits_stop(s: Seq<u8>, i: int, k: int)
    requires
        0 <= i <= k < s.len(),
        !is_digit(s[k]),
    ensures
        digits_end(s, i) <= k,
    decreases k - i,
{
    if is_digit(s[i]) {
        lemma_digits_stop(s, i + 1, k);
    }
}

/// A source made of letters alone lexes to one identifier: the whole source.
pub proof fn lemma_letters_lex_to_one_identifier(s: Seq<u8>)
    requires
        s.len() > 0,
        forall|k: int| 0 <= k < s.len() ==> is_letter(#[trigger] s[k]),
    ensures
        lex_from(s, 0) == seq![Lexeme::Token(TokenView::Identifier(s))],
{
    lemma_lex_from_unfold(s, 0);
    lemma_letters_end(s, 0);
    if letters_end(s, 0) < s.len() {
        assert(is_letter(s[letters_end(s, 0)]));
    }
    assert(s.subrange(0, s.len() as int) =~= s);
    lemma_lex_from_unfold(s, s.len() as int);
    assert(seq![Lexeme::Token(TokenView::Identifier(s))] + Seq::<Lexeme>::empty()
        =~= seq![Lexeme::Token(TokenView::Identifier(s))]);
}

/// A source made of digits alone, whose value fits in 64 bits, lexes to one
/// number: the base-10 value of the digits.
pub proof fn lemma_digits_lex_to_one_number(s: Seq<u8>)
    requires
        s.len() > 0,
        forall|k: int| 0 <= k < s.len() ==> is_digit(#[trigger] s[k]),
        decimal_value(s) <= u64::MAX,
    ensures
        lex_from(s, 0) == seq![Lexeme::Token(TokenView::Number(decimal_value(s) as u64))],
{
    lemma_lex_from_unfold(s, 0);
    lemma_digits_end(s, 0);
    if digits_end(s, 0) < s.len() {
        assert(is_digit(s[digits_end(s, 0)]));
    }
    assert(s.subrange(0, s.len() as int) =~= s);
    lemma_lex_from_unfold(s, s.len() as int);
    let t = Lexeme::Token(TokenView::Number(decimal_value(s) as u64));
    assert(seq![t] + Seq::<Lexeme>::empty() =~= seq![t]);
}

/// From a position on, a source of `;` and white space lexes to `;` tokens alone.
proof fn lemma_separators_lex(s: Seq<u8>, i: int)
    requires
        0 <= i,
        forall|k: int| 0 <= k < s.len() ==> s[k] == 59 || is_space(#[trigger] s[k]),
    ensures
        forall|k: int| 0 <= k < lex_from(s, i).len() ==> #[trigger] lex_from(s, i)[k]
            == Lexeme::Token(TokenView::Semicolon),
    decreases s.len() - i,
{
    lemma_lex_from_unfold(s, i);
    lemma_skip_spaces(s, i);
    let j = skip_spaces(s, i);
    if j < s.len() {
        assert(s[j] == 59);
        lemma_separators_lex(s, j + 1);
        let rest = lex_from(s, j + 1);
        let all = lex_from(s, i);
        assert forall|k: int| 0 <= k < all.len() implies #[trigger] all[k]
            == Lexeme::Token(TokenView::Semicolon) by {
            if k > 0 {
                assert(all[k] == rest[k - 1]);
            }
        }
    }
}

proof fn lemma_program_of_separators(ts: Seq<Lexeme>)
    requires
        forall|k: int| 0 <= k < ts.len() ==> #[trigger] ts[k] == Lexeme::Token(
            TokenView::Semicolon,
        ),
    ensures
        spec_program(ts) == Some(Seq::<ExprView>::empty()),
    decreases ts.len(),
{
    if ts.len() > 0 {
        assert(ts[0] == Lexeme::Token(TokenView::Semicolon));
        let rest = ts.drop_first();
        assert forall|k: int| 0 <= k < rest.len() implies #[trigger] rest[k] == Lexeme::Token(
            TokenView::Semicolon,
        ) by {
            assert(rest[k] == ts[k + 1]);
        }
        lemma_program_of_separators(rest);
    }
}

/// A source of `;` and white space alone, the empty source included, parses
/// to a program without statements.
pub proof fn lemma_separators_parse_to_empty_program(s: Seq<u8>)
    requires
        forall|k: int| 0 <= k < s.len() ==> s[k] == 59 || is_space(#[trigger] s[k]),
    ensures
        spec_program(lex_from(s, 0)) == Some(Seq::<ExprView>::empty()),
{
    lemma_separators_lex(s, 0);
    lemma_program_of_separators(lex_from(s, 0));
}

/// Lexing from before an unrecognized byte ends in a failure.
proof fn lemma_lex_reaches_failure(s: Seq<u8>, i: int, k: int)
    requires
        0 <= i <= k < s.len(),
        is_unrecognized(s[k]),
    ensures
        ends_in_failure(lex_from(s, i)),
    decreases s.len() - i,
{
    lemma_lex_from_unfold(s, i);
    lemma_skip_spaces(s, i);
    lemma_skip_spaces_stops(s, i, k);
    let j = skip_spaces(s, i);
    if is_letter(s[j]) {
        lemma_letters_end(s, j);
        lemma_letters_stop(s, j, k);
        let e = letters_end(s, j);
        lemma_lex_reaches_failure(s, e, k);
    } else if is_digit(s[j]) {
        lemma_digits_end(s, j);
        lemma_digits_stop(s, j, k);
        let e = digits_end(s, j);
        if decimal_value(s.subrange(j, e)) <= u64::MAX {
            lemma_lex_reaches_failure(s, e, k);
        }
    } else if symbol(s[j]) is Some {
        assert(j != k);
        lemma_lex_reaches_failure(s, j + 1, k);
    }
}

proof fn lemma_simple_keeps_failure(ts: Seq<Lexeme>)
    requires
        ends_in_failure(ts),
    ensures
        spec_simple(ts) matches Some((_, rest)) ==> ends_in_failure(rest),
    decreases ts.len(),
{
    if next_token(ts) is Some {
        assert(ts.len() > 1);
        assert(ts.drop_first().last() == ts.last());
        lemma_simple_keeps_failure(ts.drop_first());
    }
}

proof fn lemma_nested_keeps_failure(left: ExprView, min: u8, ts: Seq<Lexeme>)
    requires
        ends_in_failure(ts),
    ensures
        spec_nested(left, min, ts) matches Some((_, rest)) ==> ends_in_failure(rest),
    decreases ts.len(),
{
    if ts[0] != Lexeme::Invalid {
        assert(ts.len() > 1);
        assert(ts.drop_first().last() == ts.last());
        let t1 = ts.drop_first();
        lemma_simple_keeps_failure(t1);
        if let Some((atom, ts2)) = spec_simple(t1) {
            if ts2.len() < ts.len() {
                if let Lexeme::Token(t) = ts[0] {
                    if let Some(op) = operator_of(t) {
                        lemma_nested_keeps_failure(atom, op.spec_binding_power(), ts2);
                        if let Some((right, ts3)) = spec_nested(atom, op.spec_binding_power(), ts2) {
                            if ts3.len() < ts.len() {
                                lemma_nested_keeps_failure(
                                    ExprView::Binary(Box::new(left), op, Box::new(right)),
                                    min,
                                    ts3,
                                );
                            }
                        }
                    }
                }
            }
        }
    }
}

proof fn lemma_program_fails(ts: Seq<Lexeme>)
    requires
        ends_in_failure(ts),
    ensures
        spec_program(ts) is None,
    decreases ts.len(),
{
    if ts[0] == Lexeme::Token(TokenView::Semicolon) {
        assert(ts.len() > 1);
        assert(ts.drop_first().last() == ts.last());
        lemma_program_fails(ts.drop_first());
    } else if ts[0] != Lexeme::Invalid {
        lemma_simple_keeps_failure(ts);
        if let Some((atom, rest)) = spec_simple(ts) {
            lemma_nested_keeps_failure(atom, 0, rest);
        }
        if let Some((e, rest)) = spec_expression(ts) {
            if rest.len() < ts.len() {
                lemma_program_fails(rest);
            }
        }
    }
}

/// A source that holds a byte that starts no token fails to parse as a
/// program: the failure is not taken for the end of the input.
pub proof fn lemma_unrecognized_byte_fails_program(s: Seq<u8>, k: int)
    requires
        0 <= k < s.len(),
        is_unrecognized(s[k]),
    ensures
        spec_program(lex_from(s, 0)) is None,
{
    lemma_lex_reaches_failure(s, 0, k);
    lemma_program_fails(lex_from(s, 0));
}

} // verus!
