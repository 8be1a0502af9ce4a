//! The tokenizer: a single left-to-right pass that skips whitespace, scans
//! numeric literals, emits the six fixed symbols, and stops at the first
//! unrecognized character. Every outcome is proved equal to the spec model in
//! [`crate::scan`].

use vstd::prelude::*;
use vstd::string::{StrSliceExecFns, StringExecFns};
use crate::error::Error;
use crate::pos::Position;
use crate::render::push_char;
use crate::scan::{
    col_at, digit_val, digits_val, fits_i64, is_digit, is_digit_char, is_space,
    lemma_digits_val_nonneg, lemma_digits_val_prefix_le, lemma_line_col_bounds,
    lemma_num_end_at_digit, lex_from, line_at, num_end, num_literal, num_token, scan_ok,
    scan_ok_from, symbol_token, LexOutcome, TokenV,
};
use crate::token::{Token, TokenType};

verus! {

/// The characters of `s`, in order.
#[verifier::loop_isolation(false)]
fn chars_of(s: &str) -> (r: Vec<char>)
    ensures
        r@ == s@,
{
    let n = s.unicode_len();
    let mut r: Vec<char> = Vec::new();
    let mut i: usize = 0;
    while i < n
        invariant
            i <= n,
            r@ == s@.subrange(0, i as int),
        decreases n - i,
    {
        let c = s.get_char(i);
        r.push(c);
        proof {
            assert(r@ =~= s@.subrange(0, i + 1 as int));
        }
        i = i + 1;
    }
    proof {
        assert(s@.subrange(0, n as int) =~= s@);
    }
    r
}

/// A string holding exactly the characters of `cs`.
#[verifier::loop_isolation(false)]
fn string_of(cs: &Vec<char>) -> (r: String)
    ensures
        r@ == cs@,
{
    let mut r = String::new();
    let mut i: usize = 0;
    while i < cs.len()
        invariant
            i <= cs@.len(),
            r@ == cs@.subrange(0, i as int),
        decreases cs@.len() - i,
    {
        push_char(&mut r, cs[i]);
        proof {
            assert(r@ =~= cs@.subrange(0, i + 1 as int));
        }
        i = i + 1;
    }
    proof {
        assert(cs@.subrange(0, cs@.len() as int) =~= cs@);
    }
    r
}

/// The integer a sequence of decimal digits spells.
#[verifier::loop_isolation(false)]
fn digits_to_i64(cs: &Vec<char>) -> (n: i64)
    requires
        forall|k: int| 0 <= k < cs@.len() ==> is_digit_char(cs@[k]),
        digits_val(cs@) <= i64::MAX,
    ensures
        n == digits_val(cs@),
{
    let mut n: i64 = 0;
    let mut i: usize = 0;
    proof {
        assert(cs@.subrange(0, 0) =~= Seq::<char>::empty());
    }
    while i < cs.len()
        invariant
            i <= cs@.len(),
            n == digits_val(cs@.subrange(0, i as int)),
            n >= 0,
        decreases cs@.len() - i,
    {
        let c = cs[i];
        let d: i64 = (c as u32 - 0x30) as i64;
        proof {
            let a = cs@.subrange(0, i as int);
            let b = cs@.subrange(0, i + 1 as int);
            assert(b.drop_last() =~= a);
            assert(b.last() == cs@[i as int]);
            assert(digits_val(b) == digits_val(a) * 10 + digit_val(cs@[i as int]));
            assert(forall|k: int| 0 <= k < b.len() ==> is_digit_char(#[trigger] b[k]));
            lemma_digits_val_nonneg(b);
            lemma_digits_val_prefix_le(cs@, i + 1 as int);
        }
        n = n * 10 + d;
        i = i + 1;
    }
    proof {
        assert(cs@.subrange(0, cs@.len() as int) =~= cs@);
    }
    n
}

/// The views of the tokens in `ts`, in order.
pub open spec fn token_views(ts: Seq<Token>) -> Seq<TokenV> {
    ts.map(|k: int, t: Token| t@)
}

/// `e` reports the unrecognized character `s[j]`: the kind is "Illegal Char
/// Error", the detail is the character itself, the start snapshot is the
/// cursor at `j` and the end snapshot the cursor one character past it, and
/// both carry the source name and full text for display.
pub open spec fn is_illegal_char_error(e: Error, s: Seq<char>, j: int, name: Seq<char>) -> bool {
    &&& e.type_@ == "Illegal Char Error"@
    &&& e.details@ == seq![s[j]]
    &&& e.pos_start.idx == j
    &&& e.pos_start.ln == line_at(s, j)
    &&& e.pos_start.col == col_at(s, j)
    &&& e.pos_start.fn_name@ == name
    &&& e.pos_start.ftxt@ == s
    &&& e.pos_end.idx == j + 1
    &&& e.pos_end.ln == line_at(s, j + 1)
    &&& e.pos_end.col == col_at(s, j + 1)
    &&& e.pos_end.fn_name@ == name
    &&& e.pos_end.ftxt@ == s
}

/// `r` is the outcome the model assigns to a scan of `s` from `i` under the
/// source name `name`: exactly one of the model's token sequence with no
/// error, or no tokens with the illegal-character error.
pub open spec fn matches_outcome(
    s: Seq<char>,
    i: int,
    name: Seq<char>,
    r: (Vec<Token>, Option<Error>),
) -> bool {
    match lex_from(s, i) {
        LexOutcome::Tokens(ts) => {
            &&& r.1 is None
            &&& token_views(r.0@) == ts
        },
        LexOutcome::Illegal(j) => {
            &&& r.0@.len() == 0
            &&& r.1 is Some
            &&& is_illegal_char_error(r.1->Some_0, s, j, name)
        },
    }
}

/// The tokenizer's state: the source name and text, the cursor, and the
/// cached character under the cursor.
pub struct Lexer {
    pub fn_name: String,
    pub text: Vec<char>,
    pub pos: Position,
    pub current_char: Option<char>,
}

impl Lexer {
    /// The cursor lies inside the text on the line and column of its offset,
    /// `current_char` caches the character there (or nothing at the end), and
    /// the cursor carries the source name and full text.
    pub open spec fn wf(self) -> bool {
        &&& self.text@.len() <= isize::MAX
        &&& 0 <= self.pos.idx <= self.text@.len()
        &&& self.pos.ln as int == line_at(self.text@, self.pos.idx as int)
        &&& self.pos.col as int == col_at(self.text@, self.pos.idx as int)
        &&& self.current_char == (if self.pos.idx < self.text@.len() {
            Some(self.text@[self.pos.idx as int])
        } else {
            None::<char>
        })
        &&& self.pos.fn_name@ == self.fn_name@
        &&& self.pos.ftxt@ == self.text@
    }

    /// A lexer over `text`, its cursor advanced once onto the first character.
    pub fn new(fn_name: &str, text: &str) -> (lx: Lexer)
        requires
            text@.len() <= isize::MAX,
        ensures
            lx.wf(),
            lx.pos.idx == 0,
            lx.text@ == text@,
            lx.fn_name@ == fn_name@,
    {
        let chars = chars_of(text);
        let mut pos = Position::new(-1, 0, -1, fn_name, text);
        pos.advance(None);
        let current_char = if chars.len() > 0 {
            Some(chars[0])
        } else {
            None
        };
        Lexer { fn_name: fn_name.to_owned(), text: chars, pos, current_char }
    }

    /// Move the cursor one character to the right and refresh the cached
    /// character.
    pub fn advance(&mut self)
        requires
            old(self).wf(),
            old(self).pos.idx < old(self).text@.len(),
        ensures
            final(self).wf(),
            final(self).pos.idx == old(self).pos.idx + 1,
            final(self).text == old(self).text,
            final(self).fn_name == old(self).fn_name,
    {
        proof {
            lemma_line_col_bounds(self.text@, self.pos.idx as int);
        }
        let c = self.current_char;
        self.pos.advance(c);
        let i = self.pos.idx as usize;
        if i < self.text.len() {
            self.current_char = Some(self.text[i]);
        } else {
            self.current_char = None;
        }
    }

    /// Whether the cursor stands on a character the numeric scan takes: a
    /// digit, or the first decimal point of the span.
    fn num_char_here(&self, seen_dot: bool) -> (r: bool)
        requires
            self.wf(),
        ensures
            r == (self.pos.idx < self.text@.len() && (is_digit_char(
                self.text@[self.pos.idx as int],
            ) || (self.text@[self.pos.idx as int] == '.' && !seen_dot))),
    {
        match self.current_char {
            Some(c) => is_digit(c) || (c == '.' && !seen_dot),
            None => false,
        }
    }

    /// Scan the maximal numeric span at the cursor, digits absorbing at most
    /// one decimal point, and make the token it spells: the integer value, or
    /// the literal itself when a decimal point was taken.
    #[verifier::loop_isolation(false)]
    pub fn make_number(&mut self) -> (t: Token)
        requires
            old(self).wf(),
            old(self).pos.idx < old(self).text@.len(),
            is_digit_char(old(self).text@[old(self).pos.idx as int]),
            fits_i64(old(self).text@, old(self).pos.idx as int),
        ensures
            final(self).wf(),
            final(self).text == old(self).text,
            final(self).fn_name == old(self).fn_name,
            final(self).pos.idx == num_end(old(self).text@, old(self).pos.idx as int, false),
            old(self).pos.idx < final(self).pos.idx,
            t@ == num_token(old(self).text@, old(self).pos.idx as int),
    {
        let ghost s = old(self).text@;
        let ghost start = old(self).pos.idx as int;
        proof {
            lemma_num_end_at_digit(s, start);
            assert(s.subrange(start, start) =~= Seq::<char>::empty());
        }
        let mut lit: Vec<char> = Vec::new();
        let mut seen_dot = false;
        while self.num_char_here(seen_dot)
            invariant
                self.wf(),
                self.text == old(self).text,
                self.fn_name == old(self).fn_name,
                start <= self.pos.idx <= s.len(),
                lit@ == s.subrange(start, self.pos.idx as int),
                seen_dot == s.subrange(start, self.pos.idx as int).contains('.'),
                num_end(s, start, false) == num_end(s, self.pos.idx as int, seen_dot),
            decreases s.len() - self.pos.idx,
        {
            let c = self.current_char.unwrap();
            if is_digit(c) {
                lit.push(c);
                proof {
                    let i = self.pos.idx as int;
                    let a = s.subrange(start, i);
                    let b = s.subrange(start, i + 1);
                    assert(b =~= a.push(c));
                    assert(b.contains('.') == a.contains('.')) by {
                        if b.contains('.') {
                            let k = choose|k: int| 0 <= k < b.len() && #[trigger] b[k] == '.';
                            if k < a.len() {
                                assert(a[k] == '.');
                                assert(a.contains('.'));
                            } else {
                                assert(b[k] == c);
                            }
                        }
                        if a.contains('.') {
                            let k = choose|k: int| 0 <= k < a.len() && #[trigger] a[k] == '.';
                            assert(b[k] == '.');
                        }
                    }
                }
                self.advance();
            } else {
                seen_dot = true;
                lit.push('.');
                proof {
                    let i = self.pos.idx as int;
                    assert(s.subrange(start, i + 1) =~= s.subrange(start, i).push('.'));
                    assert(s.subrange(start, i + 1)[i - start] == '.');
                }
                self.advance();
            }
        }
        if seen_dot {
            let payload = string_of(&lit);
            Token::new(TokenType::Float(payload))
        } else {
            proof {
                crate::scan::lemma_num_span_chars(s, start, false);
                assert forall|k: int| 0 <= k < lit@.len() implies is_digit_char(lit@[k]) by {
                    assert(lit@[k] == s[start + k]);
                    if lit@[k] == '.' {
                        assert(lit@.contains('.'));
                    }
                }
            }
            let val = digits_to_i64(&lit);
            Token::new(TokenType::Int(val))
        }
    }

    /// One pass over the remaining text: the model's token sequence, or, at
    /// the first unrecognized character, no tokens and the error describing
    /// it. Exactly one of the two is produced.
    #[verifier::loop_isolation(false)]
    pub fn make_tokens(&mut self) -> (r: (Vec<Token>, Option<Error>))
        requires
            old(self).wf(),
            scan_ok_from(old(self).text@, old(self).pos.idx as int),
        ensures
            final(self).wf(),
            final(self).text == old(self).text,
            matches_outcome(
                old(self).text@,
                old(self).pos.idx as int,
                old(self).fn_name@,
                r,
            ),
    {
        let ghost s = old(self).text@;
        let ghost start = old(self).pos.idx as int;
        let mut tokens: Vec<Token> = Vec::new();
        while self.current_char.is_some()
            invariant
                self.wf(),
                self.text == old(self).text,
                self.fn_name == old(self).fn_name,
                start <= self.pos.idx <= s.len(),
                scan_ok_from(s, self.pos.idx as int),
                (match lex_from(s, self.pos.idx as int) {
                    LexOutcome::Tokens(rest) => lex_from(s, start) == LexOutcome::Tokens(
                        token_views(tokens@) + rest,
                    ),
                    LexOutcome::Illegal(j) => lex_from(s, start) == LexOutcome::Illegal(j),
                }),
            decreases s.len() - self.pos.idx,
        {
            let c = self.current_char.unwrap();
            let ghost i = self.pos.idx as int;
            let ghost toks0 = tokens@;
            if is_space(c) {
                self.advance();
            } else if is_digit(c) {
                let t = self.make_number();
                tokens.push(t);
                proof {
                    assert(token_views(toks0.push(t)) =~= token_views(toks0).push(t@));
                    match lex_from(s, self.pos.idx as int) {
                        LexOutcome::Tokens(rest) => {
                            assert(token_views(toks0).push(num_token(s, i)) + rest =~= token_views(
                                toks0,
                            ) + (seq![num_token(s, i)] + rest));
                        },
                        LexOutcome::Illegal(_) => {},
                    }
                }
            } else {
                let tt_opt: Option<TokenType> = if c == '+' {
                    Some(TokenType::Plus)
                } else if c == '-' {
                    Some(TokenType::Minus)
                } else if c == '*' {
                    Some(TokenType::Mul)
                } else if c == '/' {
                    Some(TokenType::Div)
                } else if c == '(' {
                    Some(TokenType::LParen)
                } else if c == ')' {
                    Some(TokenType::RParen)
                } else {
                    None
                };
                match tt_opt {
                    Some(tt) => {
                        let t = Token::new(tt);
                        tokens.push(t);
                        self.advance();
                        proof {
                            assert(token_views(toks0.push(t)) =~= token_views(toks0).push(t@));
                            assert(t@ == symbol_token(s[i]));
                            match lex_from(s, self.pos.idx as int) {
                                LexOutcome::Tokens(rest) => {
                                    assert(token_views(toks0).push(symbol_token(s[i])) + rest
                                        =~= token_views(toks0) + (seq![symbol_token(s[i])] + rest));
                                },
                                LexOutcome::Illegal(_) => {},
                            }
                        }
                    },
                    None => {
                        let pos_start = self.pos.copy();
                        let mut detail = String::new();
                        push_char(&mut detail, c);
                        self.advance();
                        let pos_end = self.pos.copy();
                        let err = Error::new(
                            "Illegal Char Error",
                            pos_start,
                            pos_end,
                            detail.as_str(),
                        );
                        proof {
                            assert(lex_from(s, i) == LexOutcome::Illegal(i));
                            assert(Seq::<char>::empty().push(c) =~= seq![s[i]]);
                        }
                        return (Vec::new(), Some(err));
                    },
                }
            }
        }
        proof {
            assert(token_views(tokens@) + Seq::<TokenV>::empty() =~= token_views(tokens@));
        }
        (tokens, None)
    }
}

/// Whether the character at `i` continues a numeric span: a digit, or the
/// span's first decimal point.
fn num_char_at(cs: &Vec<char>, i: usize, seen_dot: bool) -> (r: bool)
    ensures
        r == (i < cs@.len() && (is_digit_char(cs@[i as int]) || (cs@[i as int] == '.'
            && !seen_dot))),
{
    if i < cs.len() {
        let c = cs[i];
        is_digit(c) || (c == '.' && !seen_dot)
    } else {
        false
    }
}

/// Walk the numeric span that begins at `start`: where it ends, and whether
/// the integer it spells fits an `i64` (always true of a span with a decimal
/// point, whose literal is kept as text).
#[verifier::loop_isolation(false)]
fn span_fits(cs: &Vec<char>, start: usize) -> (r: (usize, bool))
    requires
        start < cs@.len(),
        is_digit_char(cs@[start as int]),
    ensures
        r.0 == num_end(cs@, start as int, false),
        r.1 == fits_i64(cs@, start as int),
{
    let ghost s = cs@;
    let n: usize = cs.len();
    let mut i = start;
    let mut seen_dot = false;
    let ghost mut dot_at: int = 0;
    let mut acc: u64 = 0;
    let mut over = false;
    proof {
        assert(s.subrange(start as int, start as int) =~= Seq::<char>::empty());
    }
    while num_char_at(cs, i, seen_dot)
        invariant
            s.len() == n as int,
            start <= i <= s.len(),
            num_end(s, start as int, false) == num_end(s, i as int, seen_dot),
            seen_dot ==> start as int <= dot_at < i as int && s[dot_at] == '.',
            !seen_dot ==> forall|k: int| start as int <= k < i as int ==> is_digit_char(s[k]),
            !seen_dot ==> over == (digits_val(s.subrange(start as int, i as int)) > i64::MAX),
            !seen_dot && !over ==> acc == digits_val(s.subrange(start as int, i as int)),
        decreases s.len() - i,
    {
        let c = cs[i];
        if is_digit(c) {
            if !seen_dot {
                let d: u64 = (c as u32 - 0x30) as u64;
                proof {
                    let a = s.subrange(start as int, i as int);
                    let b = s.subrange(start as int, i + 1 as int);
                    assert(b.drop_last() =~= a);
                    assert(b.last() == s[i as int]);
                    assert(digits_val(b) == digits_val(a) * 10 + digit_val(s[i as int]));
                    assert(forall|k: int| 0 <= k < a.len() ==> is_digit_char(#[trigger] a[k]));
                    lemma_digits_val_nonneg(a);
                }
                if !over {
                    if acc > 922337203685477580u64 || (acc == 922337203685477580u64 && c as u32
                        > 0x37) {
                        over = true;
                    } else {
                        acc = acc * 10 + d;
                    }
                }
            }
            i = i + 1;
        } else {
            seen_dot = true;
            proof {
                dot_at = i as int;
            }
            i = i + 1;
        }
    }
    let ghost lit = num_literal(s, start as int);
    proof {
        assert(i == num_end(s, start as int, false));
        assert(lit =~= s.subrange(start as int, i as int));
        if seen_dot {
            assert(lit[dot_at - start] == '.');
            assert(lit.contains('.'));
        } else {
            assert forall|k: int| 0 <= k < lit.len() implies is_digit_char(lit[k]) by {
                assert(lit[k] == s[start + k]);
            }
            crate::scan::lemma_all_digits_no_dot(lit);
        }
    }
    (i, seen_dot || !over)
}

/// Whether every integer literal a scan of `text` reaches fits an `i64`:
/// exactly the inputs on which `run` is specified to do its work.
#[verifier::loop_isolation(false)]
pub fn scan_fits(text: &str) -> (b: bool)
    ensures
        b == scan_ok(text@),
{
    let cs = chars_of(text);
    let ghost s = text@;
    let mut i: usize = 0;
    while i < cs.len()
        invariant
            0 <= i as int <= s.len(),
            scan_ok(s) == scan_ok_from(s, i as int),
        decreases s.len() - i,
    {
        let c = cs[i];
        if is_space(c) {
            i = i + 1;
        } else if is_digit(c) {
            let (e, fits) = span_fits(&cs, i);
            if !fits {
                return false;
            }
            proof {
                lemma_num_end_at_digit(s, i as int);
            }
            i = e;
        } else if c == '+' || c == '-' || c == '*' || c == '/' || c == '(' || c == ')' {
            i = i + 1;
        } else {
            return true;
        }
    }
    true
}

/// Tokenize `text` under the source name `fn_name`: the model's token
/// sequence with no error, or no tokens with the first illegal character's
/// error; never both, never neither.
pub fn run(fn_name: &str, text: &str) -> (r: (Vec<Token>, Option<Error>))
    requires
        text@.len() <= isize::MAX,
        scan_ok(text@),
    ensures
        matches_outcome(text@, 0, fn_name@, r),
{
    let mut lexer = Lexer::new(fn_name, text);
    lexer.make_tokens()
}

} // verus!
