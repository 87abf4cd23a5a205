//! The tokenizer: source text to a stream of tokens.
//!
//! `spec_next_token` is the mathematical description of the token rules:
//! what token starts at a given position of the input and where the next
//! one begins.  The executable `Lexer` is proved to follow it exactly, so
//! tokenization is a function of the input text alone.

use vstd::prelude::*;
use vstd::string::StringExecFns;
use crate::token::{Token, TokenV, tok_v};
use crate::strutil::{string_to_chars, chars_to_string, vec_len_fits};

verus! {

/// Executable test for an identifier character.
fn is_letter_e(c: char) -> (r: bool)
    ensures
        r == is_letter(c),
{
    (('a' as u32) <= (c as u32) && (c as u32) <= ('z' as u32)) || (('A' as u32) <= (c as u32) && (c
        as u32) <= ('Z' as u32)) || (c as u32) == ('_' as u32)
}

/// Executable test for a decimal digit.
fn is_digit_e(c: char) -> (r: bool)
    ensures
        r == is_digit(c),
{
    ('0' as u32) <= (c as u32) && (c as u32) <= ('9' as u32)
}

/// The character at `pos`, or the NUL sentinel when `pos` is past the end.
/// A NUL character in the input itself is treated as end of input, like the
/// sentinel.
pub open spec fn ch_at(input: Seq<char>, pos: nat) -> char {
    if pos < input.len() {
        input[pos as int]
    } else {
        '\0'
    }
}

/// An identifier character: alphabetic or underscore.
pub open spec fn is_letter(c: char) -> bool {
    (('a' as u32) <= (c as u32) && (c as u32) <= ('z' as u32))
        || (('A' as u32) <= (c as u32) && (c as u32) <= ('Z' as u32))
        || (c as u32) == ('_' as u32)
}

/// A decimal digit.
pub open spec fn is_digit(c: char) -> bool {
    ('0' as u32) <= (c as u32) && (c as u32) <= ('9' as u32)
}

/// The numeric value of a decimal digit character.
pub open spec fn digit_val(c: char) -> int {
    (c as u32) - ('0' as u32)
}

/// The position of the next newline at or after `pos`, or the end of the
/// input: where a `//` comment ends.
pub open spec fn spec_skip_line(input: Seq<char>, pos: nat) -> nat
    decreases input.len() - pos,
{
    if pos >= input.len() {
        input.len()
    } else if input[pos as int] == '\n' {
        pos
    } else {
        spec_skip_line(input, pos + 1)
    }
}

pub proof fn lemma_skip_line_bounds(input: Seq<char>, pos: nat)
    ensures
        spec_skip_line(input, pos) <= input.len(),
        pos <= input.len() ==> pos <= spec_skip_line(input, pos),
    decreases input.len() - pos,
{
    if pos < input.len() && input[pos as int] != '\n' {
        lemma_skip_line_bounds(input, pos + 1);
    }
}

/// The first position at or after `pos` that holds neither a space, a tab,
/// nor a `//` comment: where the next token candidate starts.
pub open spec fn spec_skip_ws(input: Seq<char>, pos: nat) -> nat
    decreases input.len() - pos,
{
    if pos >= input.len() {
        pos
    } else {
        let c = input[pos as int];
        if c == ' ' || c == '\t' {
            spec_skip_ws(input, pos + 1)
        } else if c == '/' && ch_at(input, pos + 1) == '/' {
            proof {
                lemma_skip_line_bounds(input, pos + 2);
            }
            spec_skip_ws(input, spec_skip_line(input, pos + 2))
        } else {
            pos
        }
    }
}

pub proof fn lemma_skip_ws_bounds(input: Seq<char>, pos: nat)
    ensures
        pos <= spec_skip_ws(input, pos),
        pos <= input.len() ==> spec_skip_ws(input, pos) <= input.len(),
    decreases input.len() - pos,
{
    if pos < input.len() {
        let c = input[pos as int];
        if c == ' ' || c == '\t' {
            lemma_skip_ws_bounds(input, pos + 1);
        } else if c == '/' && ch_at(input, pos + 1) == '/' {
            lemma_skip_line_bounds(input, pos + 2);
            lemma_skip_ws_bounds(input, spec_skip_line(input, pos + 2));
        }
    }
}

/// Skipping blank space is idempotent: the position it reaches starts no
/// blank space.
pub proof fn lemma_skip_ws_idempotent(input: Seq<char>, pos: nat)
    ensures
        spec_skip_ws(input, spec_skip_ws(input, pos)) == spec_skip_ws(input, pos),
    decreases input.len() - pos,
{
    if pos < input.len() {
        let c = input[pos as int];
        if c == ' ' || c == '\t' {
            lemma_skip_ws_idempotent(input, pos + 1);
        } else if c == '/' && ch_at(input, pos + 1) == '/' {
            lemma_skip_line_bounds(input, pos + 2);
            lemma_skip_ws_idempotent(input, spec_skip_line(input, pos + 2));
        }
    }
}

/// The end of the maximal run of identifier characters starting at `pos`.
pub open spec fn spec_ident_end(input: Seq<char>, pos: nat) -> nat
    decreases input.len() - pos,
{
    if pos < input.len() && is_letter(input[pos as int]) {
        spec_ident_end(input, pos + 1)
    } else {
        pos
    }
}

pub proof fn lemma_ident_end_bounds(input: Seq<char>, pos: nat)
    ensures
        pos <= spec_ident_end(input, pos),
        pos <= input.len() ==> spec_ident_end(input, pos) <= input.len(),
    decreases input.len() - pos,
{
    if pos < input.len() && is_letter(input[pos as int]) {
        lemma_ident_end_bounds(input, pos + 1);
    }
}

/// The end of the maximal run of decimal digits starting at `pos`.
pub open spec fn spec_num_end(input: Seq<char>, pos: nat) -> nat
    decreases input.len() - pos,
{
    if pos < input.len() && is_digit(input[pos as int]) {
        spec_num_end(input, pos + 1)
    } else {
        pos
    }
}

pub proof fn lemma_num_end_bounds(input: Seq<char>, pos: nat)
    ensures
        pos <= spec_num_end(input, pos),
        pos <= input.len() ==> spec_num_end(input, pos) <= input.len(),
    decreases input.len() - pos,
{
    if pos < input.len() && is_digit(input[pos as int]) {
        lemma_num_end_bounds(input, pos + 1);
    }
}

/// Where the content of a string literal ends: the next double quote or NUL,
/// or the end of the input.  An unterminated string keeps whatever content
/// precedes the end.
pub open spec fn spec_str_end(input: Seq<char>, pos: nat) -> nat
    decreases input.len() - pos,
{
    if pos >= input.len() {
        input.len()
    } else if input[pos as int] == '"' || input[pos as int] == '\0' {
        pos
    } else {
        spec_str_end(input, pos + 1)
    }
}

pub proof fn lemma_str_end_bounds(input: Seq<char>, pos: nat)
    ensures
        spec_str_end(input, pos) <= input.len(),
        pos <= input.len() ==> pos <= spec_str_end(input, pos),
    decreases input.len() - pos,
{
    if pos < input.len() && input[pos as int] != '"' && input[pos as int] != '\0' {
        lemma_str_end_bounds(input, pos + 1);
    }
}

/// The value of the digit run `input[start .. end]` read as a decimal
/// number.
pub open spec fn spec_int_val(input: Seq<char>, start: nat, end: nat) -> int
    decreases end - start,
{
    if end <= start {
        0
    } else {
        spec_int_val(input, start, (end - 1) as nat) * 10 + digit_val(input[end - 1])
    }
}

/// The token a maximal identifier run denotes: one of the fixed keywords, a
/// boolean literal, or an identifier.
pub open spec fn spec_word_token(s: Seq<char>) -> TokenV {
    if s == "fun"@ {
        TokenV::Func
    } else if s == "let"@ {
        TokenV::Let
    } else if s == "true"@ {
        TokenV::Bool(true)
    } else if s == "false"@ {
        TokenV::Bool(false)
    } else if s == "if"@ {
        TokenV::If
    } else if s == "else"@ {
        TokenV::Else
    } else if s == "return"@ {
        TokenV::Return
    } else {
        TokenV::Ident(s)
    }
}

/// The token rules: the token that starts at `pos` and the position just
/// after it.
///
/// Spaces, tabs and `//` comments are skipped.  Two-character operators are
/// recognized by one character of lookahead.  Identifier runs are checked
/// against the keyword set.  A digit run is a 64-bit signed integer literal;
/// a run whose value does not fit yields the illegal token.  A string
/// literal runs to the next double quote or the end of the input.  A newline
/// immediately followed by another newline yields the blank-line token; a
/// single newline is skipped.  At the end of the input the end-of-input
/// token is produced forever.  Any other character yields the illegal token.
#[verifier::opaque]
pub open spec fn spec_next_token(input: Seq<char>, pos: nat) -> (TokenV, nat)
    decreases input.len() - pos,
{
    let p = spec_skip_ws(input, pos);
    if p >= input.len() {
        (TokenV::Eof, p)
    } else {
        let c = input[p as int];
        if c == '=' {
            if ch_at(input, p + 1) == '=' {
                (TokenV::Equal, p + 2)
            } else {
                (TokenV::Assign, p + 1)
            }
        } else if c == '+' {
            (TokenV::Plus, p + 1)
        } else if c == '-' {
            (TokenV::Minus, p + 1)
        } else if c == '!' {
            if ch_at(input, p + 1) == '=' {
                (TokenV::NotEqual, p + 2)
            } else {
                (TokenV::Bang, p + 1)
            }
        } else if c == '/' {
            (TokenV::Slash, p + 1)
        } else if c == '*' {
            (TokenV::Asterisk, p + 1)
        } else if c == '<' {
            if ch_at(input, p + 1) == '=' {
                (TokenV::LessThanEqual, p + 2)
            } else {
                (TokenV::LessThan, p + 1)
            }
        } else if c == '>' {
            if ch_at(input, p + 1) == '=' {
                (TokenV::GreaterThanEqual, p + 2)
            } else {
                (TokenV::GreaterThan, p + 1)
            }
        } else if c == '(' {
            (TokenV::Lparen, p + 1)
        } else if c == ')' {
            (TokenV::Rparen, p + 1)
        } else if c == '{' {
            (TokenV::Lbrace, p + 1)
        } else if c == '}' {
            (TokenV::Rbrace, p + 1)
        } else if c == '[' {
            (TokenV::Lbracket, p + 1)
        } else if c == ']' {
            (TokenV::Rbracket, p + 1)
        } else if c == ',' {
            (TokenV::Comma, p + 1)
        } else if c == ';' {
            (TokenV::Semicolon, p + 1)
        } else if c == ':' {
            (TokenV::Colon, p + 1)
        } else if is_letter(c) {
            let e = spec_ident_end(input, p);
            (spec_word_token(input.subrange(p as int, e as int)), e)
        } else if is_digit(c) {
            let e = spec_num_end(input, p);
            let v = spec_int_val(input, p, e);
            if v <= i64::MAX {
                (TokenV::Int(v as i64), e)
            } else {
                (TokenV::Illegal, e)
            }
        } else if c == '"' {
            let e = spec_str_end(input, p + 1);
            (TokenV::StrLit(input.subrange(p as int + 1, e as int)), if e < input.len() {
                e + 1
            } else {
                e
            })
        } else if c == '\n' {
            if ch_at(input, p + 1) == '\n' {
                (TokenV::Blank, p + 1)
            } else {
                proof {
                    lemma_skip_ws_bounds(input, pos);
                }
                spec_next_token(input, p + 1)
            }
        } else if c == '\0' {
            (TokenV::Eof, p + 1)
        } else {
            (TokenV::Illegal, p + 1)
        }
    }
}

pub proof fn lemma_next_token_bounds(input: Seq<char>, pos: nat)
    requires
        pos <= input.len(),
    ensures
        pos <= spec_next_token(input, pos).1 <= input.len(),
        !(spec_next_token(input, pos).0 is Eof) ==> pos < spec_next_token(input, pos).1,
    decreases input.len() - pos,
{
    reveal(spec_next_token);
    lemma_skip_ws_bounds(input, pos);
    let p = spec_skip_ws(input, pos);
    if p < input.len() {
        let c = input[p as int];
        lemma_ident_end_bounds(input, p + 1);
        lemma_num_end_bounds(input, p + 1);
        lemma_str_end_bounds(input, p + 1);
        if c == '\n' && ch_at(input, p + 1) != '\n' {
            lemma_next_token_bounds(input, p + 1);
        }
    }
}

/// The full token sequence of an input: tokens from `pos` up to and
/// including the first end-of-input token.
pub open spec fn spec_tokens(input: Seq<char>, pos: nat) -> Seq<TokenV>
    decreases input.len() - pos,
{
    if pos > input.len() {
        seq![TokenV::Eof]
    } else {
        let (t, p) = spec_next_token(input, pos);
        if t is Eof {
            seq![TokenV::Eof]
        } else {
            proof {
                lemma_next_token_bounds(input, pos);
            }
            seq![t] + spec_tokens(input, p)
        }
    }
}

/// The models of a sequence of tokens.
pub open spec fn toks_v(ts: Seq<Token>) -> Seq<TokenV> {
    ts.map_values(|t: Token| tok_v(t))
}

/// The tokenizer is deterministic: the token stream, and every intermediate
/// state, is a function of the input text and the cursor position alone, so
/// repeated full tokenizations of one input yield identical token sequences.
pub proof fn lemma_tokenizer_deterministic(a: LexV, b: LexV)
    requires
        a.input == b.input,
        a.pos == b.pos,
    ensures
        spec_next_token(a.input, a.pos) == spec_next_token(b.input, b.pos),
        spec_tokens(a.input, a.pos) == spec_tokens(b.input, b.pos),
{
}

/// The model of a tokenizer: the input text and the cursor position.
#[verifier::ext_equal]
pub struct LexV {
    pub input: Seq<char>,
    pub pos: nat,
}

/// The tokenizer.  It owns the input as a character sequence and a cursor;
/// `next_token` consumes and returns one token at a time.
pub struct Lexer {
    input: Vec<char>,
    pos: usize,
}

impl View for Lexer {
    type V = LexV;

    closed spec fn view(&self) -> LexV {
        LexV { input: self.input@, pos: self.pos as nat }
    }
}

impl Lexer {
    /// The cursor never passes the end of the input.
    pub closed spec fn wf(&self) -> bool {
        self.pos <= self.input@.len()
    }

    /// Builds a tokenizer over `input`, with the cursor at the start.
    pub fn new(input: &str) -> (l: Lexer)
        ensures
            l.wf(),
            l@.input == input@,
            l@.pos == 0,
    {
        Lexer { input: string_to_chars(input), pos: 0 }
    }

    /// The character under the cursor, or NUL at the end of the input.
    fn ch(&self) -> (c: char)
        requires
            self.wf(),
        ensures
            c == ch_at(self@.input, self@.pos),
    {
        if self.pos < self.input.len() {
            self.input[self.pos]
        } else {
            '\0'
        }
    }

    /// The character after the cursor, or NUL at the end of the input.
    fn nextch(&self) -> (c: char)
        requires
            self.wf(),
        ensures
            c == ch_at(self@.input, self@.pos + 1),
    {
        if self.pos < self.input.len() && self.pos + 1 < self.input.len() {
            self.input[self.pos + 1]
        } else {
            '\0'
        }
    }

    /// Whether the cursor stands on blank space: a space, a tab, or the
    /// start of a `//` comment.
    fn at_blank_space(&self) -> (r: bool)
        requires
            self.wf(),
        ensures
            r == (self@.pos < self@.input.len() && {
                let c = self@.input[self@.pos as int];
                c == ' ' || c == '\t' || (c == '/' && ch_at(self@.input, self@.pos + 1) == '/')
            }),
    {
        if self.pos < self.input.len() {
            let c = self.input[self.pos];
            c == ' ' || c == '\t' || (c == '/' && self.nextch() == '/')
        } else {
            false
        }
    }

    /// Whether the cursor is inside a comment body: before the end of the
    /// input and not on a newline.
    fn in_comment_body(&self) -> (r: bool)
        requires
            self.wf(),
        ensures
            r == (self@.pos < self@.input.len() && self@.input[self@.pos as int] != '\n'),
    {
        self.pos < self.input.len() && self.input[self.pos] != '\n'
    }

    /// Advances the cursor past spaces, tabs and `//` comments.
    fn skip_whitespace(&mut self)
        requires
            old(self).wf(),
        ensures
            final(self).wf(),
            final(self)@.input == old(self)@.input,
            final(self)@.pos == spec_skip_ws(old(self)@.input, old(self)@.pos),
    {
        loop
            invariant
                self.wf(),
                self@.input == old(self)@.input,
                spec_skip_ws(self@.input, self@.pos) == spec_skip_ws(
                    old(self)@.input,
                    old(self)@.pos,
                ),
            ensures
                self.wf(),
                self@.input == old(self)@.input,
                self@.pos == spec_skip_ws(old(self)@.input, old(self)@.pos),
            decreases self@.input.len() - self@.pos,
        {
            if !self.at_blank_space() {
                break;
            }
            proof {
                crate::strutil::vec_len_fits(&self.input);
            }
            let c = self.input[self.pos];
            if c == ' ' || c == '\t' {
                self.pos = self.pos + 1;
            } else {
                // A `//` comment: skip both slashes, then read to the end of
                // the line.
                let ghost entry = self@.pos;
                proof {
                    lemma_skip_line_bounds(self@.input, entry + 2);
                    lemma_skip_ws_bounds(self@.input, spec_skip_line(self@.input, entry + 2));
                }
                if self.pos + 2 <= self.input.len() {
                    self.pos = self.pos + 2;
                } else {
                    self.pos = self.input.len();
                }
                loop
                    invariant
                        self.wf(),
                        self@.input == old(self)@.input,
                        spec_skip_line(self@.input, self@.pos) == spec_skip_line(
                            self@.input,
                            entry + 2,
                        ),
                    ensures
                        self.wf(),
                        self@.input == old(self)@.input,
                        self@.pos == spec_skip_line(self@.input, entry + 2),
                    decreases self@.input.len() - self@.pos,
                {
                    if !self.in_comment_body() {
                        break;
                    }
                    proof {
                        crate::strutil::vec_len_fits(&self.input);
                    }
                    self.pos = self.pos + 1;
                }
            }
        }
    }

    /// Consumes a maximal identifier run and classifies it as a keyword, a
    /// boolean literal or an identifier.
    fn consume_identifier(&mut self) -> (t: Token)
        requires
            old(self).wf(),
            old(self)@.pos < old(self)@.input.len(),
            is_letter(old(self)@.input[old(self)@.pos as int]),
        ensures
            final(self).wf(),
            final(self)@.input == old(self)@.input,
            final(self)@.pos == spec_ident_end(old(self)@.input, old(self)@.pos),
            tok_v(t) == spec_word_token(
                old(self)@.input.subrange(old(self)@.pos as int, final(self)@.pos as int),
            ),
    {
        let ghost start = self@.pos;
        let mut buf: Vec<char> = Vec::new();
        loop
            invariant
                self.wf(),
                self@.input == old(self)@.input,
                start <= self@.pos,
                buf@ == self@.input.subrange(start as int, self@.pos as int),
                spec_ident_end(self@.input, self@.pos) == spec_ident_end(self@.input, start),
            ensures
                self.wf(),
                self@.input == old(self)@.input,
                self@.pos == spec_ident_end(self@.input, start),
                buf@ == self@.input.subrange(start as int, self@.pos as int),
            decreases self@.input.len() - self@.pos,
        {
            let go = if self.pos < self.input.len() {
                is_letter_e(self.input[self.pos])
            } else {
                false
            };
            if !go {
                break;
            }
            proof {
                vec_len_fits(&self.input);
            }
            buf.push(self.input[self.pos]);
            self.pos = self.pos + 1;
            proof {
                assert(buf@ =~= self@.input.subrange(start as int, self@.pos as int));
            }
        }
        let s = chars_to_string(&buf);
        if s == String::from_str("fun") {
            Token::Func
        } else if s == String::from_str("let") {
            Token::Let
        } else if s == String::from_str("true") {
            Token::Bool(true)
        } else if s == String::from_str("false") {
            Token::Bool(false)
        } else if s == String::from_str("if") {
            Token::If
        } else if s == String::from_str("else") {
            Token::Else
        } else if s == String::from_str("return") {
            Token::Return
        } else {
            Token::Ident(s)
        }
    }

    /// Consumes a maximal digit run as a 64-bit signed integer literal; a
    /// run whose value does not fit yields the illegal token.
    fn consume_number(&mut self) -> (t: Token)
        requires
            old(self).wf(),
            old(self)@.pos < old(self)@.input.len(),
            is_digit(old(self)@.input[old(self)@.pos as int]),
        ensures
            final(self).wf(),
            final(self)@.input == old(self)@.input,
            final(self)@.pos == spec_num_end(old(self)@.input, old(self)@.pos),
            tok_v(t) == ({
                let v = spec_int_val(old(self)@.input, old(self)@.pos, final(self)@.pos);
                if v <= i64::MAX {
                    TokenV::Int(v as i64)
                } else {
                    TokenV::Illegal
                }
            }),
    {
        let ghost start = self@.pos;
        let mut val: i64 = 0;
        let mut over: bool = false;
        loop
            invariant
                self.wf(),
                self@.input == old(self)@.input,
                start <= self@.pos,
                spec_num_end(self@.input, self@.pos) == spec_num_end(self@.input, start),
                0 <= val,
                !over ==> val == spec_int_val(self@.input, start, self@.pos),
                over ==> spec_int_val(self@.input, start, self@.pos) > i64::MAX,
            ensures
                self.wf(),
                self@.input == old(self)@.input,
                self@.pos == spec_num_end(self@.input, start),
                0 <= val,
                !over ==> val == spec_int_val(self@.input, start, self@.pos),
                over ==> spec_int_val(self@.input, start, self@.pos) > i64::MAX,
            decreases self@.input.len() - self@.pos,
        {
            let go = if self.pos < self.input.len() {
                is_digit_e(self.input[self.pos])
            } else {
                false
            };
            if !go {
                break;
            }
            proof {
                vec_len_fits(&self.input);
            }
            let c = self.input[self.pos];
            let d = (c as u32 - '0' as u32) as i64;
            let ghost v_before = spec_int_val(self@.input, start, self@.pos);
            if !over {
                if val <= (i64::MAX - d) / 10 {
                    proof {
                        assert(val * 10 + d <= i64::MAX) by (nonlinear_arith)
                            requires
                                0 <= val,
                                0 <= d <= 9,
                                val <= (i64::MAX - d) / 10,
                        ;
                    }
                    val = val * 10 + d;
                } else {
                    over = true;
                    proof {
                        assert(v_before * 10 + d > i64::MAX) by (nonlinear_arith)
                            requires
                                0 <= v_before,
                                0 <= d <= 9,
                                v_before > (i64::MAX - d) / 10,
                        ;
                    }
                }
            } else {
                proof {
                    assert(v_before * 10 + d > i64::MAX) by (nonlinear_arith)
                        requires
                            0 <= d,
                            v_before > i64::MAX,
                    ;
                }
            }
            self.pos = self.pos + 1;
        }
        if over {
            Token::Illegal
        } else {
            Token::Int(val)
        }
    }

    /// Consumes a string literal: the text after the opening double quote up
    /// to the closing quote or the end of the input.
    fn consume_string(&mut self) -> (t: Token)
        requires
            old(self).wf(),
            old(self)@.pos < old(self)@.input.len(),
            old(self)@.input[old(self)@.pos as int] == '"',
        ensures
            final(self).wf(),
            final(self)@.input == old(self)@.input,
            final(self)@.pos == ({
                let e = spec_str_end(old(self)@.input, old(self)@.pos + 1);
                if e < old(self)@.input.len() {
                    e + 1
                } else {
                    e
                }
            }),
            tok_v(t) == TokenV::StrLit(
                old(self)@.input.subrange(
                    old(self)@.pos as int + 1,
                    spec_str_end(old(self)@.input, old(self)@.pos + 1) as int,
                ),
            ),
    {
        proof {
            vec_len_fits(&self.input);
        }
        self.pos = self.pos + 1;
        let ghost start = self@.pos;
        let mut buf: Vec<char> = Vec::new();
        loop
            invariant
                self.wf(),
                self@.input == old(self)@.input,
                start <= self@.pos,
                buf@ == self@.input.subrange(start as int, self@.pos as int),
                spec_str_end(self@.input, self@.pos) == spec_str_end(self@.input, start),
            ensures
                self.wf(),
                self@.input == old(self)@.input,
                self@.pos == spec_str_end(self@.input, start),
                buf@ == self@.input.subrange(start as int, self@.pos as int),
            decreases self@.input.len() - self@.pos,
        {
            let go = if self.pos < self.input.len() {
                let c = self.input[self.pos];
                c != '"' && c != '\0'
            } else {
                false
            };
            if !go {
                break;
            }
            proof {
                vec_len_fits(&self.input);
            }
            buf.push(self.input[self.pos]);
            self.pos = self.pos + 1;
            proof {
                assert(buf@ =~= self@.input.subrange(start as int, self@.pos as int));
            }
        }
        if self.pos < self.input.len() {
            self.pos = self.pos + 1;
        }
        Token::String(chars_to_string(&buf))
    }

    /// Consumes and returns exactly one token, advancing the cursor.  After
    /// the end of the input it returns the end-of-input token forever.
    pub fn next_token(&mut self) -> (t: Token)
        requires
            old(self).wf(),
        ensures
            final(self).wf(),
            final(self)@.input == old(self)@.input,
            tok_v(t) == spec_next_token(old(self)@.input, old(self)@.pos).0,
            final(self)@.pos == spec_next_token(old(self)@.input, old(self)@.pos).1,
    {
        loop
            invariant
                self.wf(),
                self@.input == old(self)@.input,
                spec_next_token(self@.input, self@.pos) == spec_next_token(
                    old(self)@.input,
                    old(self)@.pos,
                ),
            decreases self@.input.len() - self@.pos,
        {
            let ghost pe = self@.pos;
            proof {
                reveal(spec_next_token);
            }
            self.skip_whitespace();
            proof {
                lemma_skip_ws_idempotent(self@.input, pe);
                lemma_skip_ws_bounds(self@.input, pe);
            }
            if self.pos >= self.input.len() {
                return Token::Eof;
            }
            proof {
                vec_len_fits(&self.input);
            }
            let c = self.input[self.pos];
            if c == '=' {
                if self.nextch() == '=' {
                    self.pos = self.pos + 2;
                    return Token::Equal;
                } else {
                    self.pos = self.pos + 1;
                    return Token::Assign;
                }
            } else if c == '+' {
                self.pos = self.pos + 1;
                return Token::Plus;
            } else if c == '-' {
                self.pos = self.pos + 1;
                return Token::Minus;
            } else if c == '!' {
                if self.nextch() == '=' {
                    self.pos = self.pos + 2;
                    return Token::NotEqual;
                } else {
                    self.pos = self.pos + 1;
                    return Token::Bang;
                }
            } else if c == '/' {
                self.pos = self.pos + 1;
                return Token::Slash;
            } else if c == '*' {
                self.pos = self.pos + 1;
                return Token::Asterisk;
            } else if c == '<' {
                if self.nextch() == '=' {
                    self.pos = self.pos + 2;
                    return Token::LessThanEqual;
                } else {
                    self.pos = self.pos + 1;
                    return Token::LessThan;
                }
            } else if c == '>' {
                if self.nextch() == '=' {
                    self.pos = self.pos + 2;
                    return Token::GreaterThanEqual;
                } else {
                    self.pos = self.pos + 1;
                    return Token::GreaterThan;
                }
            } else if c == '(' {
                self.pos = self.pos + 1;
                return Token::Lparen;
            } else if c == ')' {
                self.pos = self.pos + 1;
                return Token::Rparen;
            } else if c == '{' {
                self.pos = self.pos + 1;
                return Token::Lbrace;
            } else if c == '}' {
                self.pos = self.pos + 1;
                return Token::Rbrace;
            } else if c == '[' {
                self.pos = self.pos + 1;
                return Token::Lbracket;
            } else if c == ']' {
                self.pos = self.pos + 1;
                return Token::Rbracket;
            } else if c == ',' {
                self.pos = self.pos + 1;
                return Token::Comma;
            } else if c == ';' {
                self.pos = self.pos + 1;
                return Token::Semicolon;
            } else if c == ':' {
                self.pos = self.pos + 1;
                return Token::Colon;
            } else if is_letter_e(c) {
                return self.consume_identifier();
            } else if is_digit_e(c) {
                return self.consume_number();
            } else if c == '"' {
                return self.consume_string();
            } else if c == '\n' {
                if self.nextch() == '\n' {
                    self.pos = self.pos + 1;
                    return Token::Blank;
                } else {
                    self.pos = self.pos + 1;
                }
            } else if c == '\0' {
                self.pos = self.pos + 1;
                return Token::Eof;
            } else {
                self.pos = self.pos + 1;
                return Token::Illegal;
            }
        }
    }
}

/// Tokenizes a whole input: every token in order, up to and including the
/// first end-of-input token.
pub fn tokenize(input: &str) -> (toks: Vec<Token>)
    ensures
        toks_v(toks@) == spec_tokens(input@, 0),
{
    let mut lexer = Lexer::new(input);
    let mut toks: Vec<Token> = Vec::new();
    loop
        invariant_except_break
            spec_tokens(input@, 0) == toks_v(toks@) + spec_tokens(input@, lexer@.pos),
        invariant
            lexer.wf(),
            lexer@.input == input@,
        ensures
            toks_v(toks@) == spec_tokens(input@, 0),
        decreases input@.len() - lexer@.pos,
    {
        let ghost pe = lexer@.pos;
        proof {
            lemma_next_token_bounds(input@, pe);
        }
        let ghost before = toks@;
        let t = lexer.next_token();
        let eof = matches!(t, Token::Eof);
        let ghost tv = tok_v(t);
        toks.push(t);
        proof {
            assert(toks_v(toks@) =~= toks_v(before).push(tv));
            if eof {
                assert(tv is Eof);
                assert(spec_tokens(input@, pe) =~= seq![TokenV::Eof]);
                assert(toks_v(before) + spec_tokens(input@, pe) =~= toks_v(toks@));
            } else {
                assert(!(tv is Eof));
                assert(spec_tokens(input@, pe) == seq![tv] + spec_tokens(input@, lexer@.pos));
                assert(toks_v(before) + (seq![tv] + spec_tokens(input@, lexer@.pos)) =~= toks_v(
                    toks@,
                ) + spec_tokens(input@, lexer@.pos));
            }
        }
        if eof {
            break;
        }
    }
    toks
}

} // verus!
