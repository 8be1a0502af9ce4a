//! The mathematical model of the tokenizer.
//!
//! `lex_from` says, for any character sequence and start index, which token
//! sequence the scan produces, or at which index it stops on an unrecognized
//! character. `line_at` and `col_at` give the line and column the cursor
//! reports at each index. The executable lexer is proved against these
//! functions.

use vstd::prelude::*;

verus! {

/// The characters `char::is_whitespace` accepts: Unicode `White_Space`.
pub open spec fn is_space_char(c: char) -> bool {
    ||| 0x09 <= c as u32 && c as u32 <= 0x0d
    ||| c as u32 == 0x20
    ||| c as u32 == 0x85
    ||| c as u32 == 0xa0
    ||| c as u32 == 0x1680
    ||| 0x2000 <= c as u32 && c as u32 <= 0x200a
    ||| c as u32 == 0x2028
    ||| c as u32 == 0x2029
    ||| c as u32 == 0x202f
    ||| c as u32 == 0x205f
    ||| c as u32 == 0x3000
}

/// An ASCII decimal digit.
pub open spec fn is_digit_char(c: char) -> bool {
    0x30 <= c as u32 && c as u32 <= 0x39
}

/// The numeric value of an ASCII decimal digit.
pub open spec fn digit_val(c: char) -> int {
    c as u32 - 0x30
}

/// One of the six single-character symbols the tokenizer recognizes.
pub open spec fn is_symbol_char(c: char) -> bool {
    c == '+' || c == '-' || c == '*' || c == '/' || c == '(' || c == ')'
}

/// Whether `char::is_whitespace` accepts `c`.
pub fn is_space(c: char) -> (r: bool)
    ensures
        r == is_space_char(c),
{
    let u = c as u32;
    (0x09 <= u && u <= 0x0d) || u == 0x20 || u == 0x85 || u == 0xa0 || u == 0x1680 || (0x2000 <= u
        && u <= 0x200a) || u == 0x2028 || u == 0x2029 || u == 0x202f || u == 0x205f || u == 0x3000
}

/// Whether `c` is an ASCII decimal digit.
pub fn is_digit(c: char) -> (r: bool)
    ensures
        r == is_digit_char(c),
{
    let u = c as u32;
    0x30 <= u && u <= 0x39
}

/// Where the numeric span that begins at `i` ends: the first index past the
/// maximal run of digits, absorbing at most one decimal point.
pub open spec fn num_end(s: Seq<char>, i: int, seen_dot: bool) -> int
    decreases s.len() - i
        when 0 <= i <= s.len()
{
    if i >= s.len() {
        i
    } else if is_digit_char(s[i]) {
        num_end(s, i + 1, seen_dot)
    } else if s[i] == '.' && !seen_dot {
        num_end(s, i + 1, true)
    } else {
        i
    }
}

pub proof fn lemma_num_end_bounds(s: Seq<char>, i: int, seen_dot: bool)
    requires
        0 <= i <= s.len(),
    ensures
        i <= num_end(s, i, seen_dot) <= s.len(),
    decreases s.len() - i,
{
    if i < s.len() {
        if is_digit_char(s[i]) {
            lemma_num_end_bounds(s, i + 1, seen_dot);
        } else if s[i] == '.' && !seen_dot {
            lemma_num_end_bounds(s, i + 1, true);
        }
    }
}

/// A numeric span that begins at a digit covers at least that digit.
pub proof fn lemma_num_end_at_digit(s: Seq<char>, i: int)
    requires
        0 <= i < s.len(),
        is_digit_char(s[i]),
    ensures
        i + 1 <= num_end(s, i, false) <= s.len(),
{
    lemma_num_end_bounds(s, i + 1, false);
}

/// Every character inside a numeric span is a digit or a decimal point.
pub proof fn lemma_num_span_chars(s: Seq<char>, i: int, seen_dot: bool)
    requires
        0 <= i <= s.len(),
    ensures
        forall|k: int|
            i <= k < num_end(s, i, seen_dot) ==> is_digit_char(s[k]) || s[k] == '.',
    decreases s.len() - i,
{
    if i < s.len() {
        if is_digit_char(s[i]) {
            lemma_num_span_chars(s, i + 1, seen_dot);
        } else if s[i] == '.' && !seen_dot {
            lemma_num_span_chars(s, i + 1, true);
        }
    }
}

/// The value of a sequence of decimal digits, most significant first.
pub open spec fn digits_val(s: Seq<char>) -> int
    decreases s.len(),
{
    if s.len() == 0 {
        0
    } else {
        digits_val(s.drop_last()) * 10 + digit_val(s.last())
    }
}

pub proof fn lemma_digits_val_nonneg(s: Seq<char>)
    requires
        forall|k: int| 0 <= k < s.len() ==> is_digit_char(s[k]),
    ensures
        digits_val(s) >= 0,
    decreases s.len(),
{
    if s.len() > 0 {
        assert(forall|k: int|
            0 <= k < s.drop_last().len() ==> is_digit_char(#[trigger] s.drop_last()[k]));
        lemma_digits_val_nonneg(s.drop_last());
    }
}

/// The value of a digit sequence never falls when digits are appended.
pub proof fn lemma_digits_val_prefix_le(s: Seq<char>, i: int)
    requires
        forall|k: int| 0 <= k < s.len() ==> is_digit_char(s[k]),
        0 <= i <= s.len(),
    ensures
        digits_val(s.subrange(0, i)) <= digits_val(s),
    decreases s.len() - i,
{
    if i < s.len() {
        lemma_digits_val_prefix_le(s, i + 1);
        let a = s.subrange(0, i);
        let b = s.subrange(0, i + 1);
        assert(b.drop_last() =~= a);
        assert(b.last() == s[i]);
        assert(forall|k: int| 0 <= k < a.len() ==> is_digit_char(#[trigger] a[k]));
        lemma_digits_val_nonneg(a);
        assert(digits_val(b) == digits_val(a) * 10 + digit_val(s[i]));
    } else {
        assert(s.subrange(0, i) =~= s);
    }
}

/// A sequence of digits holds no decimal point.
pub proof fn lemma_all_digits_no_dot(s: Seq<char>)
    requires
        forall|k: int| 0 <= k < s.len() ==> is_digit_char(s[k]),
    ensures
        !s.contains('.'),
{
    if s.contains('.') {
        let k = choose|k: int| 0 <= k < s.len() && #[trigger] s[k] == '.';
        assert(is_digit_char(s[k]));
    }
}

/// The literal text of the numeric span that begins at `i`.
pub open spec fn num_literal(s: Seq<char>, i: int) -> Seq<char> {
    s.subrange(i, num_end(s, i, false))
}

/// A token, as the model sees it: an integer holds its mathematical value, a
/// decimal literal holds its exact text.
pub enum TokenV {
    Int(int),
    Float(Seq<char>),
    Plus,
    Minus,
    Mul,
    Div,
    LParen,
    RParen,
}

/// The token for the symbol `c`; meaningful only when `is_symbol_char(c)`.
pub open spec fn symbol_token(c: char) -> TokenV {
    if c == '+' {
        TokenV::Plus
    } else if c == '-' {
        TokenV::Minus
    } else if c == '*' {
        TokenV::Mul
    } else if c == '/' {
        TokenV::Div
    } else if c == '(' {
        TokenV::LParen
    } else {
        TokenV::RParen
    }
}

/// The token for the numeric span that begins at `i`: a decimal literal if the
/// span holds a decimal point, otherwise the integer it spells.
pub open spec fn num_token(s: Seq<char>, i: int) -> TokenV {
    let lit = num_literal(s, i);
    if lit.contains('.') {
        TokenV::Float(lit)
    } else {
        TokenV::Int(digits_val(lit))
    }
}

/// What a scan of `s` that starts at `i` produces: the token sequence, or the
/// index of the first unrecognized character.
pub enum LexOutcome {
    Tokens(Seq<TokenV>),
    Illegal(int),
}

pub open spec fn lex_from(s: Seq<char>, i: int) -> LexOutcome
    decreases s.len() - i
        when 0 <= i <= s.len()
{
    if i >= s.len() {
        LexOutcome::Tokens(Seq::empty())
    } else if is_space_char(s[i]) {
        lex_from(s, i + 1)
    } else if is_digit_char(s[i]) {
        proof {
            lemma_num_end_at_digit(s, i);
        }
        match lex_from(s, num_end(s, i, false)) {
            LexOutcome::Tokens(rest) => LexOutcome::Tokens(seq![num_token(s, i)] + rest),
            LexOutcome::Illegal(j) => LexOutcome::Illegal(j),
        }
    } else if is_symbol_char(s[i]) {
        match lex_from(s, i + 1) {
            LexOutcome::Tokens(rest) => LexOutcome::Tokens(seq![symbol_token(s[i])] + rest),
            LexOutcome::Illegal(j) => LexOutcome::Illegal(j),
        }
    } else {
        LexOutcome::Illegal(i)
    }
}

/// What scanning all of `s` produces.
pub open spec fn lex(s: Seq<char>) -> LexOutcome {
    lex_from(s, 0)
}

/// The integer spelled by the numeric span at `i` fits an `i64`; vacuous for a
/// span with a decimal point, whose literal is kept as text.
pub open spec fn fits_i64(s: Seq<char>, i: int) -> bool {
    num_literal(s, i).contains('.') || digits_val(num_literal(s, i)) <= i64::MAX
}

/// Every integer literal the scan from `i` actually reaches fits an `i64`.
pub open spec fn scan_ok_from(s: Seq<char>, i: int) -> bool
    decreases s.len() - i
        when 0 <= i <= s.len()
{
    if i >= s.len() {
        true
    } else if is_space_char(s[i]) {
        scan_ok_from(s, i + 1)
    } else if is_digit_char(s[i]) {
        proof {
            lemma_num_end_at_digit(s, i);
        }
        fits_i64(s, i) && scan_ok_from(s, num_end(s, i, false))
    } else if is_symbol_char(s[i]) {
        scan_ok_from(s, i + 1)
    } else {
        true
    }
}

/// Every integer literal a scan of `s` reaches fits an `i64`.
pub open spec fn scan_ok(s: Seq<char>) -> bool {
    scan_ok_from(s, 0)
}

/// The zero-based line of index `i`: how many newlines precede it.
pub open spec fn line_at(s: Seq<char>, i: int) -> int
    decreases i
        when 0 <= i <= s.len()
{
    if i <= 0 {
        0
    } else if s[i - 1] == '\n' {
        line_at(s, i - 1) + 1
    } else {
        line_at(s, i - 1)
    }
}

/// The zero-based column of index `i`: its distance from the start of its line.
pub open spec fn col_at(s: Seq<char>, i: int) -> int
    decreases i
        when 0 <= i <= s.len()
{
    if i <= 0 {
        0
    } else if s[i - 1] == '\n' {
        0
    } else {
        col_at(s, i - 1) + 1
    }
}

pub proof fn lemma_line_col_bounds(s: Seq<char>, i: int)
    requires
        0 <= i <= s.len(),
    ensures
        0 <= line_at(s, i) <= i,
        0 <= col_at(s, i) <= i,
    decreases i,
{
    if i > 0 {
        lemma_line_col_bounds(s, i - 1);
    }
}

} // verus!
