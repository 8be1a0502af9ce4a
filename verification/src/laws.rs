//! The general properties of the tokenizer, proved once and for all inputs of
//! the stated shapes.

use vstd::prelude::*;
use crate::render::{dec_digits, lemma_dec_digits_roundtrip};
use crate::scan::{
    digits_val, is_digit_char, is_space_char, is_symbol_char, lemma_all_digits_no_dot,
    lemma_num_end_bounds, lex, lex_from, num_end, num_literal, num_token, scan_ok, scan_ok_from,
    LexOutcome, TokenV,
};

verus! {

proof fn lemma_lex_whitespace_from(s: Seq<char>, i: int)
    requires
        0 <= i <= s.len(),
        forall|k: int| i <= k < s.len() ==> is_space_char(s[k]),
    ensures
        lex_from(s, i) == LexOutcome::Tokens(Seq::<TokenV>::empty()),
        scan_ok_from(s, i),
    decreases s.len() - i,
{
    if i < s.len() {
        lemma_lex_whitespace_from(s, i + 1);
    }
}

/// Input of whitespace alone, the empty input included, yields an empty token
/// sequence and no error.
pub proof fn lemma_whitespace_only(s: Seq<char>)
    requires
        forall|k: int| 0 <= k < s.len() ==> is_space_char(s[k]),
    ensures
        lex(s) == LexOutcome::Tokens(Seq::<TokenV>::empty()),
        scan_ok(s),
{
    lemma_lex_whitespace_from(s, 0);
}

/// Digits between `i` and `j` move a numeric span's end past them unchanged.
proof fn lemma_num_end_digit_run(s: Seq<char>, i: int, j: int, seen_dot: bool)
    requires
        0 <= i <= j <= s.len(),
        forall|k: int| i <= k < j ==> is_digit_char(s[k]),
    ensures
        num_end(s, i, seen_dot) == num_end(s, j, seen_dot),
    decreases j - i,
{
    if i < j {
        lemma_num_end_digit_run(s, i + 1, j, seen_dot);
    }
}

/// A maximal run of digits with no decimal point is one integer token, and
/// its value is the mathematical value of the digits.
pub proof fn lemma_int_literal(s: Seq<char>)
    requires
        s.len() > 0,
        forall|k: int| 0 <= k < s.len() ==> is_digit_char(s[k]),
    ensures
        lex(s) == LexOutcome::Tokens(seq![TokenV::Int(digits_val(s))]),
{
    lemma_num_end_digit_run(s, 0, s.len() as int, false);
    let lit = num_literal(s, 0);
    assert(lit =~= s);
    lemma_all_digits_no_dot(lit);
    assert(lex_from(s, s.len() as int) == LexOutcome::Tokens(Seq::<TokenV>::empty()));
    assert(seq![num_token(s, 0)] + Seq::<TokenV>::empty() =~= seq![
        TokenV::Int(digits_val(s)),
    ]);
}

/// A digit run with one decimal point, leading digit first, is one
/// decimal-literal token holding exactly that text.
pub proof fn lemma_float_literal(s: Seq<char>, p: int)
    requires
        1 <= p < s.len(),
        s[p] == '.',
        forall|k: int| 0 <= k < s.len() && k != p ==> is_digit_char(s[k]),
    ensures
        lex(s) == LexOutcome::Tokens(seq![TokenV::Float(s)]),
{
    lemma_num_end_digit_run(s, 0, p, false);
    lemma_num_end_digit_run(s, p + 1, s.len() as int, true);
    assert(num_end(s, p, false) == num_end(s, p + 1, true));
    let lit = num_literal(s, 0);
    assert(lit =~= s);
    assert(lit.contains('.')) by {
        assert(lit[p] == '.');
    }
    assert(lex_from(s, s.len() as int) == LexOutcome::Tokens(Seq::<TokenV>::empty()));
    assert(seq![num_token(s, 0)] + Seq::<TokenV>::empty() =~= seq![TokenV::Float(s)]);
}

/// A digit run with two decimal points ends at the second: the numeric span
/// takes the decimal literal up to the second point, the scan then stands on
/// that point, and the whole input fails there as an illegal character.
pub proof fn lemma_second_dot_illegal(s: Seq<char>, p: int, q: int)
    requires
        1 <= p < q < s.len(),
        s[p] == '.',
        s[q] == '.',
        forall|k: int| 0 <= k < s.len() && k != p && k != q ==> is_digit_char(s[k]),
    ensures
        num_token(s, 0) == TokenV::Float(s.subrange(0, q)),
        lex(s) == LexOutcome::Illegal(q),
{
    lemma_num_end_digit_run(s, 0, p, false);
    lemma_num_end_digit_run(s, p + 1, q, true);
    assert(num_end(s, p, false) == num_end(s, p + 1, true));
    assert(num_end(s, q, true) == q);
    let lit = num_literal(s, 0);
    assert(lit =~= s.subrange(0, q));
    assert(lit.contains('.')) by {
        assert(lit[p] == '.');
    }
    assert(!is_space_char(s[q]));
    assert(!is_symbol_char(s[q]));
    assert(lex_from(s, q) == LexOutcome::Illegal(q));
}

/// Scanning the rendered digits of a nonnegative integer gives the integer
/// back as one token: integer rendering is lossless.
pub proof fn lemma_int_render_roundtrip(n: int)
    requires
        0 <= n,
    ensures
        lex(dec_digits(n)) == LexOutcome::Tokens(seq![TokenV::Int(n)]),
{
    lemma_dec_digits_roundtrip(n);
    lemma_int_literal(dec_digits(n));
}

} // verus!
