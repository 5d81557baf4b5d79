//! The scanner: a single pass over a byte buffer with one byte of lookahead.
use vstd::prelude::*;

use crate::token::{simple_token, tokens_view, Token, TokenKind, TokenView};

verus! {

/// ASCII whitespace, as `u8::is_ascii_whitespace` defines it.
pub open spec fn is_space(b: u8) -> bool {
    b == 0x20u8 || b == 0x09u8 || b == 0x0Au8 || b == 0x0Cu8 || b == 0x0Du8
}

pub open spec fn is_digit(b: u8) -> bool {
    0x30u8 <= b <= 0x39u8
}

pub open spec fn is_letter(b: u8) -> bool {
    (0x41u8 <= b <= 0x5Au8) || (0x61u8 <= b <= 0x7Au8)
}

/// A byte that may start an identifier.
pub open spec fn starts_ident(b: u8) -> bool {
    is_letter(b) || b == 0x5Fu8
}

/// A byte that may continue an identifier.
pub open spec fn continues_ident(b: u8) -> bool {
    is_letter(b) || is_digit(b) || b == 0x5Fu8
}

/// A byte of a number lexeme.
pub open spec fn in_number(b: u8) -> bool {
    is_digit(b) || b == 0x2Eu8
}

/// Each byte read as the character of the same code.
pub open spec fn chars_of(s: Seq<u8>) -> Seq<char> {
    s.map_values(|b: u8| b as char)
}

/// The first position at or after `p` that does not hold whitespace.
pub open spec fn skip_spaces(input: Seq<u8>, p: int) -> int
    decreases input.len() - p,
{
    if 0 <= p < input.len() && is_space(input[p]) {
        skip_spaces(input, p + 1)
    } else {
        p
    }
}

/// The end of the longest run from `p` of bytes that may continue an identifier.
pub open spec fn ident_end(input: Seq<u8>, p: int) -> int
    decreases input.len() - p,
{
    if 0 <= p < input.len() && continues_ident(input[p]) {
        ident_end(input, p + 1)
    } else {
        p
    }
}

/// The end of the longest run from `p` of digits and dots.
pub open spec fn number_end(input: Seq<u8>, p: int) -> int
    decreases input.len() - p,
{
    if 0 <= p < input.len() && in_number(input[p]) {
        number_end(input, p + 1)
    } else {
        p
    }
}

/// The position of the first `"` at or after `p`, or the end of the input.
pub open spec fn quote_at(input: Seq<u8>, p: int) -> int
    decreases input.len() - p,
{
    if 0 <= p < input.len() && input[p] != 0x22u8 {
        quote_at(input, p + 1)
    } else {
        p
    }
}

/// The kind of a word: a keyword, a type keyword, or an identifier.
pub open spec fn word_kind(w: Seq<char>) -> TokenKind {
    if w == "let"@ {
        TokenKind::Let
    } else if w == "fn"@ {
        TokenKind::Fn
    } else if w == "if"@ {
        TokenKind::If
    } else if w == "else"@ {
        TokenKind::Else
    } else if w == "while"@ {
        TokenKind::While
    } else if w == "for"@ {
        TokenKind::For
    } else if w == "return"@ {
        TokenKind::Return
    } else if w == "true"@ {
        TokenKind::True
    } else if w == "false"@ {
        TokenKind::False
    } else if w == "nil"@ {
        TokenKind::Nil
    } else if w == "struct"@ {
        TokenKind::Struct
    } else if w == "type"@ {
        TokenKind::Type
    } else if w == "str"@ {
        TokenKind::TypeStr
    } else if w == "number"@ {
        TokenKind::TypeNumber
    } else if w == "bool"@ {
        TokenKind::TypeBool
    } else {
        TokenKind::Identifier
    }
}

/// The token that a word stands for: a keyword carries no text.
pub open spec fn word_token(w: Seq<char>) -> TokenView {
    let kind = word_kind(w);
    if kind == TokenKind::Identifier {
        TokenView { kind, text: w }
    } else {
        simple_token(kind)
    }
}

/// The kind of a byte that forms a token of one character on its own.
pub open spec fn single_kind(b: u8) -> Option<TokenKind> {
    if b == 0x28u8 {
        Some(TokenKind::LeftParen)
    } else if b == 0x29u8 {
        Some(TokenKind::RightParen)
    } else if b == 0x7Bu8 {
        Some(TokenKind::LeftBrace)
    } else if b == 0x7Du8 {
        Some(TokenKind::RightBrace)
    } else if b == 0x5Bu8 {
        Some(TokenKind::LeftBracket)
    } else if b == 0x5Du8 {
        Some(TokenKind::RightBracket)
    } else if b == 0x2Cu8 {
        Some(TokenKind::Comma)
    } else if b == 0x2Eu8 {
        Some(TokenKind::Dot)
    } else if b == 0x3Bu8 {
        Some(TokenKind::Semicolon)
    } else if b == 0x3Au8 {
        Some(TokenKind::Colon)
    } else if b == 0x7Cu8 {
        Some(TokenKind::Pipe)
    } else if b == 0x2Bu8 {
        Some(TokenKind::Plus)
    } else if b == 0x2Au8 {
        Some(TokenKind::Star)
    } else if b == 0x2Fu8 {
        Some(TokenKind::Slash)
    } else {
        None
    }
}

/// For a byte that may be followed by a second one to form a longer operator:
/// the second byte, the kind of the long form and the kind of the short form.
pub open spec fn pair_kinds(b: u8) -> Option<(u8, TokenKind, TokenKind)> {
    if b == 0x2Du8 {
        Some((0x3Eu8, TokenKind::Arrow, TokenKind::Minus))
    } else if b == 0x3Du8 {
        Some((0x3Du8, TokenKind::EqualEqual, TokenKind::Equal))
    } else if b == 0x21u8 {
        Some((0x3Du8, TokenKind::BangEqual, TokenKind::Bang))
    } else if b == 0x3Cu8 {
        Some((0x3Du8, TokenKind::LessEqual, TokenKind::Less))
    } else if b == 0x3Eu8 {
        Some((0x3Du8, TokenKind::GreaterEqual, TokenKind::Greater))
    } else {
        None
    }
}

/// The token that starts at `p` (a byte that is not whitespace), and the
/// position just after it.
pub open spec fn scan_token(input: Seq<u8>, p: int) -> (TokenView, int)
    recommends
        0 <= p < input.len(),
{
    let b = input[p];
    if single_kind(b) is Some {
        (simple_token(single_kind(b)->0), p + 1)
    } else if pair_kinds(b) is Some {
        let (second, long, short) = pair_kinds(b)->0;
        if p + 1 < input.len() && input[p + 1] == second {
            (simple_token(long), p + 2)
        } else {
            (simple_token(short), p + 1)
        }
    } else if b == 0x22u8 {
        let q = quote_at(input, p + 1);
        let text = chars_of(input.subrange(p + 1, q));
        (TokenView { kind: TokenKind::Str, text }, if q < input.len() { q + 1 } else { q })
    } else if is_digit(b) {
        let q = number_end(input, p);
        (TokenView { kind: TokenKind::Number, text: chars_of(input.subrange(p, q)) }, q)
    } else if starts_ident(b) {
        let q = ident_end(input, p);
        (word_token(chars_of(input.subrange(p, q))), q)
    } else {
        (TokenView { kind: TokenKind::Identifier, text: "UNKNOWN"@ }, p + 1)
    }
}

/// The tokens of the input from position `p` on, ending with end-of-input.
pub open spec fn scan_from(input: Seq<u8>, p: int) -> Seq<TokenView>
    decreases input.len() - p,
{
    let q = skip_spaces(input, p);
    if 0 <= q < input.len() {
        let (t, r) = scan_token(input, q);
        if p < r <= input.len() {
            seq![t] + scan_from(input, r)
        } else {
            seq![t]
        }
    } else {
        seq![simple_token(TokenKind::Eof)]
    }
}

proof fn lemma_chars_of_extend(s: Seq<u8>, a: int, b: int)
    requires
        0 <= a <= b < s.len(),
    ensures
        chars_of(s.subrange(a, b + 1)) == chars_of(s.subrange(a, b)).push(s[b] as char),
{
    assert(chars_of(s.subrange(a, b + 1)) =~= chars_of(s.subrange(a, b)).push(s[b] as char));
}

proof fn lemma_skip_spaces(input: Seq<u8>, p: int)
    requires
        0 <= p <= input.len(),
    ensures
        p <= skip_spaces(input, p) <= input.len(),
        skip_spaces(input, skip_spaces(input, p)) == skip_spaces(input, p),
    decreases input.len() - p,
{
    if p < input.len() && is_space(input[p]) {
        lemma_skip_spaces(input, p + 1);
    }
}

proof fn lemma_run_ends(input: Seq<u8>, p: int)
    requires
        0 <= p <= input.len(),
    ensures
        p <= ident_end(input, p) <= input.len(),
        p <= number_end(input, p) <= input.len(),
        p <= quote_at(input, p) <= input.len(),
    decreases input.len() - p,
{
    if p < input.len() {
        lemma_run_ends(input, p + 1);
    }
}

/// A token spans at least one byte and stays within the input.
proof fn lemma_scan_token_advances(input: Seq<u8>, p: int)
    requires
        0 <= p < input.len(),
    ensures
        p < scan_token(input, p).1 <= input.len(),
{
    lemma_run_ends(input, p);
    lemma_run_ends(input, p + 1);
}

/// The token sequence of a whole input.
pub open spec fn lex(input: Seq<u8>) -> Seq<TokenView> {
    scan_from(input, 0)
}

pub struct Lexer {
    input: Vec<u8>,
    position: usize,
    current: Option<u8>,
}

impl Lexer {
    /// The bytes being scanned.
    pub closed spec fn input(&self) -> Seq<u8> {
        self.input@
    }

    /// The position of the next byte to read.
    pub closed spec fn position(&self) -> int {
        self.position as int
    }

    pub closed spec fn wf(&self) -> bool {
        &&& self.input@.len() <= usize::MAX
        &&& self.position <= self.input@.len()
        &&& self.current == if self.position < self.input@.len() {
            Some(self.input@[self.position as int])
        } else {
            None::<u8>
        }
    }

    pub fn new(input: Vec<u8>) -> (r: Lexer)
        ensures
            r.wf(),
            r.input() == input@,
            r.position() == 0,
    {
        let current = if input.len() == 0 {
            None
        } else {
            Some(input[0])
        };
        Lexer { input, position: 0, current }
    }

    /// Scans the rest of the input into tokens; the last one is end-of-input.
    pub fn tokenize(&mut self) -> (r: Vec<Token>)
        requires
            old(self).wf(),
        ensures
            final(self).wf(),
            final(self).input() == old(self).input(),
            tokens_view(r@) == scan_from(old(self).input(), old(self).position()),
    {
        let mut tokens: Vec<Token> = Vec::new();
        let ghost start = self.position as int;
        loop
            invariant
                self.wf(),
                self.input() == old(self).input(),
                tokens_view(tokens@) + scan_from(self.input(), self.position())
                    == scan_from(self.input(), start),
            ensures
                self.wf(),
                self.input() == old(self).input(),
                self.position() == self.input().len(),
                tokens_view(tokens@) + seq![simple_token(TokenKind::Eof)] == scan_from(
                    self.input(),
                    start,
                ),
            decreases self.input@.len() - self.position,
        {
            let ghost p = self.position as int;
            self.skip_whitespace();
            proof {
                lemma_skip_spaces(self.input(), p);
            }
            if self.current.is_none() {
                break;
            }
            let token = self.next_token();
            proof {
                let input = self.input();
                assert(scan_from(input, p) == seq![token@] + scan_from(input, self.position()));
                assert(tokens_view(tokens@.push(token)) =~= tokens_view(tokens@).push(token@));
                assert(tokens_view(tokens@).push(token@) + scan_from(input, self.position())
                    =~= tokens_view(tokens@) + (seq![token@] + scan_from(input, self.position())));
            }
            tokens.push(token);
        }
        let eof = Token::simple(TokenKind::Eof);
        proof {
            assert(tokens_view(tokens@.push(eof)) =~= tokens_view(tokens@).push(eof@));
        }
        tokens.push(eof);
        tokens
    }

    /// Reads the token that starts at the current byte.
    fn next_token(&mut self) -> (r: Token)
        requires
            old(self).wf(),
            old(self).current is Some,
        ensures
            final(self).wf(),
            final(self).input() == old(self).input(),
            (r@, final(self).position()) == scan_token(old(self).input(), old(self).position()),
            final(self).position() > old(self).position(),
    {
        let ch = self.current.unwrap();
        proof {
            lemma_scan_token_advances(self.input(), self.position());
        }
        let single = single_byte_kind(ch);
        if let Some(kind) = single {
            self.advance();
            return Token::simple(kind);
        }
        let pair = pair_byte_kinds(ch);
        if let Some((second, long, short)) = pair {
            self.advance();
            if self.current == Some(second) {
                self.advance();
                return Token::simple(long);
            } else {
                return Token::simple(short);
            }
        }
        if ch == 0x22u8 {
            self.read_string()
        } else if 0x30u8 <= ch && ch <= 0x39u8 {
            self.read_number()
        } else if (0x61u8 <= ch && ch <= 0x7Au8) || (0x41u8 <= ch && ch <= 0x5Au8) || ch == 0x5Fu8 {
            self.read_identifier()
        } else {
            self.advance();
            Token::with_text(TokenKind::Identifier, String::from_str("UNKNOWN"))
        }
    }

    /// Reads a string literal; the current byte is its opening quote.
    fn read_string(&mut self) -> (r: Token)
        requires
            old(self).wf(),
            old(self).current == Some(0x22u8),
        ensures
            final(self).wf(),
            final(self).input() == old(self).input(),
            (r@, final(self).position()) == scan_token(old(self).input(), old(self).position()),
    {
        let ghost p = self.position as int;
        self.advance();
        let mut value = String::new();
        loop
            invariant
                self.wf(),
                self.input() == old(self).input(),
                p == old(self).position(),
                0 <= p < self.input().len(),
                self.input()[p] == 0x22u8,
                p + 1 <= self.position(),
                quote_at(self.input(), p + 1) == quote_at(self.input(), self.position()),
                value@ == chars_of(self.input().subrange(p + 1, self.position())),
            ensures
                self.wf(),
                self.input() == old(self).input(),
                self.position() == self.input().len(),
                quote_at(self.input(), p + 1) == self.position(),
                value@ == chars_of(self.input().subrange(p + 1, self.position())),
            decreases self.input@.len() - self.position,
        {
            let ch = match self.current {
                Some(ch) => ch,
                None => break,
            };
            if ch == 0x22u8 {
                let ghost here = self.position as int;
                assert(quote_at(self.input(), here) == here);
                self.advance();
                return Token::with_text(TokenKind::Str, value);
            }
            push_char(&mut value, ch as char);
            proof {
                lemma_chars_of_extend(self.input(), p + 1, self.position());
            }
            self.advance();
        }
        Token::with_text(TokenKind::Str, value)
    }

    /// Reads a number literal: the longest run of digits and dots.
    fn read_number(&mut self) -> (r: Token)
        requires
            old(self).wf(),
            old(self).current is Some,
            is_digit(old(self).current->0),
        ensures
            final(self).wf(),
            final(self).input() == old(self).input(),
            (r@, final(self).position()) == scan_token(old(self).input(), old(self).position()),
    {
        let ghost p = self.position as int;
        let mut value = String::new();
        loop
            invariant
                self.wf(),
                self.input() == old(self).input(),
                0 <= p <= self.position(),
                number_end(self.input(), p) == number_end(self.input(), self.position()),
                value@ == chars_of(self.input().subrange(p, self.position())),
            ensures
                self.wf(),
                self.input() == old(self).input(),
                p <= self.position(),
                number_end(self.input(), p) == self.position(),
                value@ == chars_of(self.input().subrange(p, self.position())),
            decreases self.input@.len() - self.position,
        {
            let ch = match self.current {
                Some(ch) => ch,
                None => break,
            };
            if (0x30u8 <= ch && ch <= 0x39u8) || ch == 0x2Eu8 {
                push_char(&mut value, ch as char);
                proof {
                    lemma_chars_of_extend(self.input(), p, self.position());
                }
                self.advance();
            } else {
                break;
            }
        }
        Token::with_text(TokenKind::Number, value)
    }

    /// Reads a word and tells keywords from identifiers.
    fn read_identifier(&mut self) -> (r: Token)
        requires
            old(self).wf(),
            old(self).current is Some,
            starts_ident(old(self).current->0),
        ensures
            final(self).wf(),
            final(self).input() == old(self).input(),
            (r@, final(self).position()) == scan_token(old(self).input(), old(self).position()),
    {
        let ghost p = self.position as int;
        let mut value = String::new();
        loop
            invariant
                self.wf(),
                self.input() == old(self).input(),
                0 <= p <= self.position(),
                ident_end(self.input(), p) == ident_end(self.input(), self.position()),
                value@ == chars_of(self.input().subrange(p, self.position())),
            ensures
                self.wf(),
                self.input() == old(self).input(),
                p <= self.position(),
                ident_end(self.input(), p) == self.position(),
                value@ == chars_of(self.input().subrange(p, self.position())),
            decreases self.input@.len() - self.position,
        {
            let ch = match self.current {
                Some(ch) => ch,
                None => break,
            };
            if (0x61u8 <= ch && ch <= 0x7Au8) || (0x41u8 <= ch && ch <= 0x5Au8) || (0x30u8 <= ch && ch
                <= 0x39u8) || ch == 0x5Fu8 {
                push_char(&mut value, ch as char);
                proof {
                    lemma_chars_of_extend(self.input(), p, self.position());
                }
                self.advance();
            } else {
                break;
            }
        }
        let kind = keyword_kind(&value);
        if kind == TokenKind::Identifier {
            Token::with_text(kind, value)
        } else {
            Token::simple(kind)
        }
    }

    fn skip_whitespace(&mut self)
        requires
            old(self).wf(),
        ensures
            final(self).wf(),
            final(self).input() == old(self).input(),
            final(self).position() == skip_spaces(old(self).input(), old(self).position()),
    {
        loop
            invariant
                self.wf(),
                self.input() == old(self).input(),
                skip_spaces(self.input(), self.position()) == skip_spaces(
                    old(self).input(),
                    old(self).position(),
                ),
            ensures
                self.wf(),
                self.input() == old(self).input(),
                self.position() == skip_spaces(old(self).input(), old(self).position()),
            decreases self.input@.len() - self.position,
        {
            let ch = match self.current {
                Some(ch) => ch,
                None => break,
            };
            if ch == 0x20u8 || ch == 0x09u8 || ch == 0x0Au8 || ch == 0x0Cu8 || ch == 0x0Du8 {
                self.advance();
            } else {
                break;
            }
        }
    }

    fn advance(&mut self)
        requires
            old(self).wf(),
            old(self).position() < old(self).input().len(),
        ensures
            final(self).wf(),
            final(self).input() == old(self).input(),
            final(self).position() == old(self).position() + 1,
    {
        self.position = self.position + 1;
        self.current = if self.position < self.input.len() {
            Some(self.input[self.position])
        } else {
            None
        };
    }
}

fn single_byte_kind(b: u8) -> (r: Option<TokenKind>)
    ensures
        r == single_kind(b),
{
    match b {
        0x28u8 => Some(TokenKind::LeftParen),
        0x29u8 => Some(TokenKind::RightParen),
        0x7Bu8 => Some(TokenKind::LeftBrace),
        0x7Du8 => Some(TokenKind::RightBrace),
        0x5Bu8 => Some(TokenKind::LeftBracket),
        0x5Du8 => Some(TokenKind::RightBracket),
        0x2Cu8 => Some(TokenKind::Comma),
        0x2Eu8 => Some(TokenKind::Dot),
        0x3Bu8 => Some(TokenKind::Semicolon),
        0x3Au8 => Some(TokenKind::Colon),
        0x7Cu8 => Some(TokenKind::Pipe),
        0x2Bu8 => Some(TokenKind::Plus),
        0x2Au8 => Some(TokenKind::Star),
        0x2Fu8 => Some(TokenKind::Slash),
        _ => None,
    }
}

fn pair_byte_kinds(b: u8) -> (r: Option<(u8, TokenKind, TokenKind)>)
    ensures
        r == pair_kinds(b),
{
    match b {
        0x2Du8 => Some((0x3Eu8, TokenKind::Arrow, TokenKind::Minus)),
        0x3Du8 => Some((0x3Du8, TokenKind::EqualEqual, TokenKind::Equal)),
        0x21u8 => Some((0x3Du8, TokenKind::BangEqual, TokenKind::Bang)),
        0x3Cu8 => Some((0x3Du8, TokenKind::LessEqual, TokenKind::Less)),
        0x3Eu8 => Some((0x3Du8, TokenKind::GreaterEqual, TokenKind::Greater)),
        _ => None,
    }
}

fn is_word(s: &String, w: &str) -> (r: bool)
    ensures
        r == (s@ == w@),
{
    let k = String::from_str(w);
    *s == k
}

fn keyword_kind(w: &String) -> (r: TokenKind)
    ensures
        r == word_kind(w@),
{
    if is_word(w, "let") {
        TokenKind::Let
    } else if is_word(w, "fn") {
        TokenKind::Fn
    } else if is_word(w, "if") {
        TokenKind::If
    } else if is_word(w, "else") {
        TokenKind::Else
    } else if is_word(w, "while") {
        TokenKind::While
    } else if is_word(w, "for") {
        TokenKind::For
    } else if is_word(w, "return") {
        TokenKind::Return
    } else if is_word(w, "true") {
        TokenKind::True
    } else if is_word(w, "false") {
        TokenKind::False
    } else if is_word(w, "nil") {
        TokenKind::Nil
    } else if is_word(w, "struct") {
        TokenKind::Struct
    } else if is_word(w, "type") {
        TokenKind::Type
    } else if is_word(w, "str") {
        TokenKind::TypeStr
    } else if is_word(w, "number") {
        TokenKind::TypeNumber
    } else if is_word(w, "bool") {
        TokenKind::TypeBool
    } else {
        TokenKind::Identifier
    }
}

/// Relies on `String::push`: appends one character to the string.
#[verifier::external_body]
fn push_char(s: &mut String, c: char)
    ensures
        final(s)@ == old(s)@.push(c),
{
    s.push(c);
}

} // verus!
