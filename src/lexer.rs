//! The lexer: source text to a sequence of tokens.
use vstd::prelude::*;

use crate::text::{
    alphabetic, alphanumeric, chars_of, is_alphabetic, is_alphanumeric, is_ascii_digit, is_digit,
    string_of,
};
use crate::token::{keyword_spec, token_init, word_type, Token, TokenType};

verus! {

/// Why a source text could not be split into tokens.
#[derive(Debug, Clone, Copy, PartialEq, Eq, Structural)]
pub enum LexError {
    /// A string literal that opens on `line` is never closed.
    UnterminatedString { line: u32 },
}

/// The character at `i`, or `'\0'` past either end.
pub open spec fn char_at(s: Seq<char>, i: int) -> char {
    if 0 <= i < s.len() {
        s[i]
    } else {
        '\0'
    }
}

/// One past the last character that a token covers.
pub open spec fn token_end(t: Token) -> int {
    t.position + t.lexeme@.len()
}

/// Each token's lexeme is the non-empty slice of `text` at its position, and
/// the slices follow one another in order without overlapping.
pub open spec fn slices_source(text: Seq<char>, toks: Seq<Token>) -> bool {
    &&& forall|i: int|
        0 <= i < toks.len() ==> {
            &&& #[trigger] token_end(toks[i]) <= text.len()
            &&& toks[i].lexeme@.len() > 0
            &&& toks[i].lexeme@ == text.subrange(toks[i].position as int, token_end(toks[i]))
        }
    &&& forall|i: int| 0 <= i < toks.len() - 1 ==> token_end(toks[i]) <= #[trigger] toks[i + 1].position
}

pub open spec fn all_digits(w: Seq<char>) -> bool {
    forall|k: int| 0 <= k < w.len() ==> is_digit(#[trigger] w[k])
}

pub open spec fn is_quote(c: char) -> bool {
    c == '"' || c == '\''
}

/// A word: a letter or `_`, then letters, digits and `_`.
pub open spec fn is_word(w: Seq<char>) -> bool {
    &&& w.len() > 0
    &&& (alphabetic(w[0]) || w[0] == '_')
    &&& forall|k: int| 1 <= k < w.len() ==> alphanumeric(#[trigger] w[k]) || w[k] == '_'
}

/// Whether a token of category `t` may have the lexeme `w`.
pub open spec fn category_fits(t: TokenType, w: Seq<char>) -> bool {
    match t {
        TokenType::TokLparen => w == seq!['('],
        TokenType::TokRparen => w == seq![')'],
        TokenType::TokLcurly => w == seq!['{'],
        TokenType::TokRcurly => w == seq!['}'],
        TokenType::TokLsquar => w == seq!['['],
        TokenType::TokRsquar => w == seq![']'],
        TokenType::TokComma => w == seq![','],
        TokenType::TokDot => w == seq!['.'],
        TokenType::TokPlus => w == seq!['+'],
        TokenType::TokMinus => w == seq!['-'],
        TokenType::TokStar => w == seq!['*'],
        TokenType::TokSlash => w == seq!['/'],
        TokenType::TokCaret => w == seq!['^'],
        TokenType::TokMod => w == seq!['%'],
        TokenType::TokColon => w == seq![':'],
        TokenType::TokSemicolon => w == seq![';'],
        TokenType::TokQuestion => w == seq!['?'],
        TokenType::TokNot => w == seq!['~'] || (is_word(w) && keyword_spec(w) == Some(t)),
        TokenType::TokGt => w == seq!['>'],
        TokenType::TokLt => w == seq!['<'],
        TokenType::TokGe => w == seq!['>', '='],
        TokenType::TokLe => w == seq!['<', '='],
        TokenType::TokNe => w == seq!['~', '='],
        TokenType::TokEq => w == seq!['=', '='],
        TokenType::TokAssign => w == seq![':', '='],
        TokenType::TokGtgt => w == seq!['>', '>'],
        TokenType::TokLtlt => w == seq!['<', '<'],
        TokenType::TokInteger => w.len() > 0 && all_digits(w),
        TokenType::TokFloat => exists|d: int|
            0 < d < w.len() - 1 && w[d] == '.' && all_digits(w.subrange(0, d)) && all_digits(
                w.subrange(d + 1, w.len() as int),
            ),
        TokenType::TokString => w.len() >= 2 && is_quote(w[0]) && w[w.len() - 1] == w[0],
        TokenType::TokIdentifier => is_word(w) && keyword_spec(w) is None,
        _ => is_word(w) && keyword_spec(w) == Some(t),
    }
}

/// Every token's category fits its lexeme.
pub open spec fn categories_fit(toks: Seq<Token>) -> bool {
    forall|i: int| 0 <= i < toks.len() ==> category_fits(#[trigger] toks[i].token_type, toks[i].lexeme@)
}

/// `text` holds a quote with no matching quote after it.
pub open spec fn has_unclosed_quote(text: Seq<char>) -> bool {
    exists|p: int|
        0 <= p < text.len() && is_quote(#[trigger] text[p]) && forall|q: int|
            p < q < text.len() ==> text[q] != text[p]
}

/// Where a run of digits starting at `i` ends.
pub open spec fn digits_end(text: Seq<char>, i: int) -> int
    decreases text.len() - i,
{
    if 0 <= i < text.len() && is_digit(text[i]) {
        digits_end(text, i + 1)
    } else {
        i
    }
}

/// Where a run of letters, digits and `_` starting at `i` ends.
pub open spec fn word_end(text: Seq<char>, i: int) -> int
    decreases text.len() - i,
{
    if 0 <= i < text.len() && (alphanumeric(text[i]) || text[i] == '_') {
        word_end(text, i + 1)
    } else {
        i
    }
}

/// The index of the first newline at or after `i`, or the length.
pub open spec fn line_end(text: Seq<char>, i: int) -> int
    decreases text.len() - i,
{
    if 0 <= i < text.len() && text[i] != '\n' {
        line_end(text, i + 1)
    } else {
        i
    }
}

/// The index of the first `q` at or after `i`, or the length.
pub open spec fn quote_end(text: Seq<char>, i: int, q: char) -> int
    decreases text.len() - i,
{
    if 0 <= i < text.len() && text[i] != q {
        quote_end(text, i + 1, q)
    } else {
        i
    }
}

/// The number of newlines in `text[a..b]`.
pub open spec fn newlines(text: Seq<char>, a: int, b: int) -> nat
    decreases b - a,
{
    if b <= a {
        0
    } else {
        newlines(text, a, b - 1) + if text[b - 1] == '\n' {
            1nat
        } else {
            0nat
        }
    }
}

/// A token as the scan finds it: its category, where it starts and ends in
/// the text, and the line it starts on.
pub struct Lexed {
    pub token_type: TokenType,
    pub start: int,
    pub end: int,
    pub line: u32,
}

pub open spec fn lexed_of(t: Token) -> Lexed {
    Lexed { token_type: t.token_type, start: t.position as int, end: token_end(t), line: t.line }
}

pub open spec fn lexed_all(toks: Seq<Token>) -> Seq<Lexed> {
    toks.map_values(|t: Token| lexed_of(t))
}

/// `done` followed by the tokens of `r`, or the error of `r`.
pub open spec fn emit_all(done: Seq<Lexed>, r: Result<Seq<Lexed>, LexError>) -> Result<
    Seq<Lexed>,
    LexError,
> {
    match r {
        Ok(rest) => Ok(done + rest),
        Err(e) => Err(e),
    }
}

/// `e` when it lies past `pos` and within the text; a guard that makes the
/// scan's progress plain.
pub open spec fn forward(text: Seq<char>, pos: int, e: int) -> int {
    if pos < e <= text.len() {
        e
    } else {
        pos + 1
    }
}

/// The category of the one-character tokens.
pub open spec fn single_type(c: char) -> Option<TokenType> {
    if c == '(' {
        Some(TokenType::TokLparen)
    } else if c == ')' {
        Some(TokenType::TokRparen)
    } else if c == '{' {
        Some(TokenType::TokLcurly)
    } else if c == '}' {
        Some(TokenType::TokRcurly)
    } else if c == '[' {
        Some(TokenType::TokLsquar)
    } else if c == ']' {
        Some(TokenType::TokRsquar)
    } else if c == ',' {
        Some(TokenType::TokComma)
    } else if c == '.' {
        Some(TokenType::TokDot)
    } else if c == '+' {
        Some(TokenType::TokPlus)
    } else if c == '*' {
        Some(TokenType::TokStar)
    } else if c == '/' {
        Some(TokenType::TokSlash)
    } else if c == '^' {
        Some(TokenType::TokCaret)
    } else if c == '%' {
        Some(TokenType::TokMod)
    } else if c == ';' {
        Some(TokenType::TokSemicolon)
    } else if c == '?' {
        Some(TokenType::TokQuestion)
    } else {
        None
    }
}

/// The characters that begin operators and punctuation.
pub open spec fn is_symbol(c: char) -> bool {
    single_type(c) is Some || c == '-' || c == ':' || c == '>' || c == '<' || c == '=' || c == '~'
}

/// The operator token that starts with `c`, followed by `n`: its category
/// and length. A bare `=` is no token.
pub open spec fn operator(c: char, n: char) -> Option<(TokenType, int)> {
    if let Some(t) = single_type(c) {
        Some((t, 1))
    } else if c == '-' {
        Some((TokenType::TokMinus, 1))
    } else if c == ':' {
        if n == '=' {
            Some((TokenType::TokAssign, 2))
        } else {
            Some((TokenType::TokColon, 1))
        }
    } else if c == '>' {
        if n == '=' {
            Some((TokenType::TokGe, 2))
        } else if n == '>' {
            Some((TokenType::TokGtgt, 2))
        } else {
            Some((TokenType::TokGt, 1))
        }
    } else if c == '<' {
        if n == '=' {
            Some((TokenType::TokLe, 2))
        } else if n == '<' {
            Some((TokenType::TokLtlt, 2))
        } else {
            Some((TokenType::TokLt, 1))
        }
    } else if c == '=' {
        if n == '=' {
            Some((TokenType::TokEq, 2))
        } else {
            None
        }
    } else if c == '~' {
        if n == '=' {
            Some((TokenType::TokNe, 2))
        } else {
            Some((TokenType::TokNot, 1))
        }
    } else {
        None
    }
}

/// The number token that starts at `start`: digits, then `.` and digits
/// when a digit follows the `.`.
pub open spec fn number_lexed(text: Seq<char>, start: int, line: u32) -> Lexed {
    let d = digits_end(text, start + 1);
    if char_at(text, d) == '.' && is_digit(char_at(text, d + 1)) {
        Lexed { token_type: TokenType::TokFloat, start, end: digits_end(text, d + 2), line }
    } else {
        Lexed { token_type: TokenType::TokInteger, start, end: d, line }
    }
}

/// The word token that starts at `start`: a keyword or an identifier.
pub open spec fn word_lexed(text: Seq<char>, start: int, line: u32) -> Lexed {
    let e = word_end(text, start + 1);
    Lexed {
        token_type: match keyword_spec(text.subrange(start, e)) {
            Some(k) => k,
            None => TokenType::TokIdentifier,
        },
        start,
        end: e,
        line,
    }
}

/// The scan of `text[pos..]`, on line `line`: newlines count lines, `#` and
/// `--` begin comments to the end of the line, quotes begin string literals
/// (which must close), digits begin numbers, letters and `_` begin words,
/// the operators are read with one character of lookahead, and every other
/// character is skipped.
pub open spec fn lex_from(text: Seq<char>, pos: int, line: u32) -> Result<Seq<Lexed>, LexError>
    decreases text.len() - pos,
{
    if pos < 0 || pos >= text.len() {
        Ok(Seq::empty())
    } else {
        let c = text[pos];
        let n = char_at(text, pos + 1);
        if c == '\n' {
            lex_from(text, pos + 1, (line + 1) as u32)
        } else if c == '#' {
            lex_from(text, forward(text, pos, line_end(text, pos + 1)), line)
        } else if c == '-' && n == '-' {
            lex_from(text, forward(text, pos, line_end(text, pos + 2)), line)
        } else if is_quote(c) {
            let e = quote_end(text, pos + 1, c);
            if e >= text.len() {
                Err(LexError::UnterminatedString { line })
            } else {
                emit_all(
                    seq![Lexed { token_type: TokenType::TokString, start: pos, end: e + 1, line }],
                    lex_from(text, forward(text, pos, e + 1), (line + newlines(text, pos + 1, e)) as u32),
                )
            }
        } else if is_digit(c) {
            let l = number_lexed(text, pos, line);
            emit_all(seq![l], lex_from(text, forward(text, pos, l.end), line))
        } else if is_symbol(c) {
            if let Some((t, k)) = operator(c, n) {
                emit_all(
                    seq![Lexed { token_type: t, start: pos, end: pos + k, line }],
                    lex_from(text, forward(text, pos, pos + k), line),
                )
            } else {
                lex_from(text, pos + 1, line)
            }
        } else if alphabetic(c) || c == '_' {
            let l = word_lexed(text, pos, line);
            emit_all(seq![l], lex_from(text, forward(text, pos, l.end), line))
        } else {
            lex_from(text, pos + 1, line)
        }
    }
}

/// The scan of a whole text, from line 1.
pub open spec fn lex(text: Seq<char>) -> Result<Seq<Lexed>, LexError> {
    lex_from(text, 0, 1)
}

pub proof fn lemma_emit_all(a: Seq<Lexed>, b: Seq<Lexed>, r: Result<Seq<Lexed>, LexError>)
    ensures
        emit_all(a, emit_all(b, r)) == emit_all(a + b, r),
{
    if let Ok(rest) = r {
        assert(a + (b + rest) =~= (a + b) + rest);
    }
}

/// The scanning state over one source text.
#[derive(Debug)]
pub struct LexerImpl {
    pub tokens: Vec<Token>,
    start: usize,
    curr: usize,
    line: u32,
    source: String,
    text: Vec<char>,
}

pub fn lexer_init(source: String) -> (l: LexerImpl)
    ensures
        l.text() == source@,
        l.fresh(),
        l.lexed().len() == 0,
{
    let text = chars_of(source.as_str());
    LexerImpl { tokens: Vec::new(), start: 0, curr: 0, line: 1, source, text }
}

/// Splitting a source text into tokens.
pub trait Lexer {
    /// The characters being scanned.
    spec fn text(&self) -> Seq<char>;

    /// The tokens found so far.
    spec fn lexed(&self) -> Seq<Token>;

    /// Nothing has been scanned yet.
    spec fn fresh(&self) -> bool;

    /// Scans the whole text: the tokens are exactly those of the scan `lex`
    /// (category, position, extent and line), each lexeme the slice of the
    /// text it covers, and the error is the scan's error, which comes only
    /// from a quote that is never closed.
    fn tokenize(&mut self) -> (r: Result<(), LexError>)
        requires
            old(self).fresh(),
            old(self).text().len() < u32::MAX,
        ensures
            final(self).text() == old(self).text(),
            slices_source(final(self).text(), final(self).lexed()),
            categories_fit(final(self).lexed()),
            r is Err ==> has_unclosed_quote(final(self).text()),
            lex(final(self).text()) matches Ok(ls) ==> r is Ok && lexed_all(final(self).lexed())
                == ls,
            lex(final(self).text()) matches Err(e) ==> r == Err::<(), LexError>(e),
    ;
}

impl LexerImpl {
    pub closed spec fn inv(&self) -> bool {
        &&& self.start <= self.curr <= self.text@.len() < u32::MAX
        &&& 1 <= self.line <= self.curr + 1
        &&& slices_source(self.text@, self.tokens@)
        &&& categories_fit(self.tokens@)
        &&& forall|i: int| 0 <= i < self.tokens@.len() ==> #[trigger] token_end(self.tokens@[i]) <= self.curr
    }

    /// Consumes the next character; `'\0'` at the end.
    fn advance(&mut self) -> (c: char)
        requires
            old(self).inv(),
        ensures
            final(self).inv(),
            final(self).text == old(self).text,
            final(self).tokens == old(self).tokens,
            final(self).start == old(self).start,
            final(self).line == old(self).line,
            c == char_at(old(self).text@, old(self).curr as int),
            final(self).curr == if old(self).curr < old(self).text@.len() {
                old(self).curr + 1
            } else {
                old(self).curr as int
            },
    {
        if self.curr >= self.text.len() {
            return '\0';
        }
        let ch = self.text[self.curr];
        self.curr = self.curr + 1;
        ch
    }

    /// Appends a token of category `token_type` covering `text[start..curr]`.
    fn add_token(&mut self, token_type: TokenType)
        requires
            old(self).inv(),
            old(self).start < old(self).curr,
            forall|i: int|
                0 <= i < old(self).tokens@.len() ==> #[trigger] token_end(old(self).tokens@[i])
                    <= old(self).start,
            category_fits(
                token_type,
                old(self).text@.subrange(old(self).start as int, old(self).curr as int),
            ),
        ensures
            final(self).inv(),
            final(self).text == old(self).text,
            final(self).start == old(self).start,
            final(self).curr == old(self).curr,
            final(self).line == old(self).line,
            final(self).tokens@.len() == old(self).tokens@.len() + 1,
            final(self).tokens@ == old(self).tokens@.push(final(self).tokens@.last()),
            lexed_of(final(self).tokens@.last()) == (Lexed {
                token_type,
                start: old(self).start as int,
                end: old(self).curr as int,
                line: old(self).line,
            }),
    {
        let lexeme = string_of(&self.text, self.start, self.curr);
        let t = token_init(token_type, lexeme, self.line, self.start as u32);
        self.tokens.push(t);
        let ghost toks = self.tokens@;
        assert forall|i: int| 0 <= i < toks.len() - 1 implies token_end(toks[i]) <= #[trigger] toks[i
            + 1].position by {
            if i + 1 < toks.len() - 1 {
                assert(toks[i] == old(self).tokens@[i]);
                assert(toks[i + 1] == old(self).tokens@[i + 1]);
            } else {
                assert(toks[i] == old(self).tokens@[i]);
            }
        }
    }

    /// The next character without consuming it; `'\0'` at the end.
    fn peek(&self) -> (c: char)
        requires
            self.inv(),
        ensures
            c == char_at(self.text@, self.curr as int),
    {
        if self.curr >= self.text.len() {
            return '\0';
        }
        self.text[self.curr]
    }

    /// The character `n` places after the next one; `'\0'` past the end.
    fn lookahead(&self, n: usize) -> (c: char)
        requires
            self.inv(),
        ensures
            c == char_at(self.text@, self.curr + n),
    {
        if n >= self.text.len() - self.curr {
            return '\0';
        }
        self.text[self.curr + n]
    }

    /// Consumes the next character if it is `expected`.
    fn match_char(&mut self, expected: char) -> (r: bool)
        requires
            old(self).inv(),
        ensures
            final(self).inv(),
            final(self).text == old(self).text,
            final(self).tokens == old(self).tokens,
            final(self).start == old(self).start,
            final(self).line == old(self).line,
            r == (old(self).curr < old(self).text@.len() && old(self).text@[old(self).curr as int]
                == expected),
            final(self).curr == old(self).curr + if r {
                1int
            } else {
                0
            },
    {
        if self.curr >= self.text.len() || self.peek() != expected {
            return false;
        }
        self.curr = self.curr + 1;
        true
    }

    /// Scans the rest of a number whose first digit is `text[start]`.
    fn handle_number(&mut self)
        requires
            old(self).inv(),
            old(self).curr == old(self).start + 1,
            is_digit(old(self).text@[old(self).start as int]),
            forall|i: int|
                0 <= i < old(self).tokens@.len() ==> #[trigger] token_end(old(self).tokens@[i])
                    <= old(self).start,
        ensures
            final(self).inv(),
            final(self).text == old(self).text,
            final(self).line == old(self).line,
            old(self).curr <= final(self).curr,
            final(self).tokens@ == old(self).tokens@.push(final(self).tokens@.last()),
            lexed_of(final(self).tokens@.last()) == number_lexed(
                old(self).text@,
                old(self).start as int,
                old(self).line,
            ),
            final(self).curr == number_lexed(old(self).text@, old(self).start as int, old(self).line).end,
    {
        while is_ascii_digit(self.peek())
            invariant
                self.inv(),
                self.text == old(self).text,
                self.tokens == old(self).tokens,
                self.start == old(self).start,
                self.line == old(self).line,
                self.start < self.curr,
                digits_end(self.text@, self.curr as int) == digits_end(self.text@, self.start + 1),
                all_digits(self.text@.subrange(self.start as int, self.curr as int)),
            decreases self.text@.len() - self.curr,
        {
            self.advance();
            assert(all_digits(self.text@.subrange(self.start as int, self.curr as int))) by {
                assert forall|k: int| 0 <= k < self.curr - self.start implies is_digit(
                    #[trigger] self.text@.subrange(self.start as int, self.curr as int)[k],
                ) by {
                    if k < self.curr - 1 - self.start {
                        assert(self.text@.subrange(self.start as int, self.curr - 1)[k]
                            == self.text@.subrange(self.start as int, self.curr as int)[k]);
                    }
                }
            }
        }
        assert(digits_end(self.text@, self.curr as int) == self.curr);
        if self.peek() == '.' && is_ascii_digit(self.lookahead(1)) {
            let ghost dot = self.curr as int;
            self.advance();
            self.advance();
            while is_ascii_digit(self.peek())
                invariant
                    self.inv(),
                    self.text == old(self).text,
                    self.tokens == old(self).tokens,
                    self.start == old(self).start,
                    self.line == old(self).line,
                    self.start < dot < self.curr - 1,
                    self.text@[dot] == '.',
                    dot == digits_end(self.text@, self.start + 1),
                    digits_end(self.text@, self.curr as int) == digits_end(self.text@, dot + 2),
                    all_digits(self.text@.subrange(self.start as int, dot)),
                    all_digits(self.text@.subrange(dot + 1, self.curr as int)),
                decreases self.text@.len() - self.curr,
            {
                self.advance();
                assert(all_digits(self.text@.subrange(dot + 1, self.curr as int))) by {
                    assert forall|k: int| 0 <= k < self.curr - dot - 1 implies is_digit(
                        #[trigger] self.text@.subrange(dot + 1, self.curr as int)[k],
                    ) by {
                        if k < self.curr - 2 - dot {
                            assert(self.text@.subrange(dot + 1, self.curr - 1)[k]
                                == self.text@.subrange(dot + 1, self.curr as int)[k]);
                        }
                    }
                }
            }
            let ghost w = self.text@.subrange(self.start as int, self.curr as int);
            assert(w.subrange(0, dot - self.start) =~= self.text@.subrange(self.start as int, dot));
            assert(w.subrange(dot - self.start + 1, w.len() as int) =~= self.text@.subrange(
                dot + 1,
                self.curr as int,
            ));
            assert(w[dot - self.start] == '.');
            assert(digits_end(self.text@, self.curr as int) == self.curr);
            self.add_token(TokenType::TokFloat);
        } else {
            self.add_token(TokenType::TokInteger);
        }
    }

    /// Scans the rest of a string literal opened by `quote` at `text[start]`.
    fn handle_string(&mut self, quote: char) -> (r: Result<(), LexError>)
        requires
            old(self).inv(),
            old(self).curr == old(self).start + 1,
            is_quote(quote),
            old(self).text@[old(self).start as int] == quote,
            forall|i: int|
                0 <= i < old(self).tokens@.len() ==> #[trigger] token_end(old(self).tokens@[i])
                    <= old(self).start,
            old(self).line <= old(self).start + 1,
        ensures
            final(self).inv(),
            final(self).text == old(self).text,
            old(self).curr <= final(self).curr,
            r is Err ==> has_unclosed_quote(final(self).text@),
            r is Err ==> r == Err::<(), LexError>(LexError::UnterminatedString { line: old(self).line })
                && quote_end(old(self).text@, old(self).curr as int, quote) >= old(self).text@.len(),
            r is Ok ==> {
                let e = quote_end(old(self).text@, old(self).curr as int, quote);
                &&& e < old(self).text@.len()
                &&& final(self).tokens@ == old(self).tokens@.push(final(self).tokens@.last())
                &&& lexed_of(final(self).tokens@.last()) == (Lexed {
                    token_type: TokenType::TokString,
                    start: old(self).start as int,
                    end: e + 1,
                    line: old(self).line,
                })
                &&& final(self).curr == e + 1
                &&& final(self).line == old(self).line + newlines(
                    old(self).text@,
                    old(self).curr as int,
                    e,
                )
            },
    {
        let mut lines: u32 = 0;
        while self.peek() != quote && self.curr < self.text.len()
            invariant
                self.inv(),
                self.text == old(self).text,
                self.tokens == old(self).tokens,
                self.start == old(self).start,
                self.line == old(self).line,
                self.line <= self.start + 1,
                self.start < self.curr,
                old(self).curr == self.start + 1,
                forall|q: int| self.start < q < self.curr ==> self.text@[q] != quote,
                quote_end(self.text@, self.curr as int, quote) == quote_end(
                    self.text@,
                    self.start + 1,
                    quote,
                ),
                lines == newlines(self.text@, self.start + 1, self.curr as int),
                lines <= self.curr - self.start - 1,
            decreases self.text@.len() - self.curr,
        {
            let c = self.advance();
            if c == '\n' {
                lines = lines + 1;
            }
        }
        if self.curr >= self.text.len() {
            assert(is_quote(self.text@[self.start as int]));
            return Err(LexError::UnterminatedString { line: self.line });
        }
        assert(quote_end(self.text@, self.curr as int, quote) == self.curr);
        self.advance();
        self.add_token(TokenType::TokString);
        self.line = self.line + lines;
        Ok(())
    }

    /// Scans the rest of a word whose first character is `text[start]`.
    fn handle_identifier(&mut self)
        requires
            old(self).inv(),
            old(self).curr == old(self).start + 1,
            alphabetic(old(self).text@[old(self).start as int]) || old(self).text@[old(
                self,
            ).start as int] == '_',
            forall|i: int|
                0 <= i < old(self).tokens@.len() ==> #[trigger] token_end(old(self).tokens@[i])
                    <= old(self).start,
        ensures
            final(self).inv(),
            final(self).text == old(self).text,
            final(self).line == old(self).line,
            old(self).curr <= final(self).curr,
            final(self).tokens@ == old(self).tokens@.push(final(self).tokens@.last()),
            lexed_of(final(self).tokens@.last()) == word_lexed(
                old(self).text@,
                old(self).start as int,
                old(self).line,
            ),
            final(self).curr == word_lexed(old(self).text@, old(self).start as int, old(self).line).end,
    {
        loop
            invariant
                self.inv(),
                self.text == old(self).text,
                self.tokens == old(self).tokens,
                self.start == old(self).start,
                self.line == old(self).line,
                self.start < self.curr,
                is_word(self.text@.subrange(self.start as int, self.curr as int)),
                word_end(self.text@, self.curr as int) == word_end(self.text@, self.start + 1),
            ensures
                self.inv(),
                self.text == old(self).text,
                self.tokens == old(self).tokens,
                self.start == old(self).start,
                self.line == old(self).line,
                self.start < self.curr,
                is_word(self.text@.subrange(self.start as int, self.curr as int)),
                word_end(self.text@, self.curr as int) == self.curr,
                word_end(self.text@, self.curr as int) == word_end(self.text@, self.start + 1),
            decreases self.text@.len() - self.curr,
        {
            let c = self.peek();
            if !(is_alphanumeric(c) || c == '_') || self.curr >= self.text.len() {
                break ;
            }
            self.advance();
            let ghost w = self.text@.subrange(self.start as int, self.curr as int);
            assert forall|k: int| 1 <= k < w.len() implies alphanumeric(#[trigger] w[k]) || w[k]
                == '_' by {
                if k < w.len() - 1 {
                    assert(self.text@.subrange(self.start as int, self.curr - 1)[k] == w[k]);
                }
            }
            assert(w[0] == self.text@[self.start as int]);
        }
        let t = word_type(&self.text, self.start, self.curr);
        self.add_token(t);
    }
}

impl Lexer for LexerImpl {
    closed spec fn text(&self) -> Seq<char> {
        self.text@
    }

    closed spec fn lexed(&self) -> Seq<Token> {
        self.tokens@
    }

    closed spec fn fresh(&self) -> bool {
        &&& self.tokens@.len() == 0
        &&& self.start == 0
        &&& self.curr == 0
        &&& self.line == 1
    }

    fn tokenize(&mut self) -> (r: Result<(), LexError>) {
        assert(lexed_all(self.tokens@) =~= Seq::<Lexed>::empty());
        assert(emit_all(Seq::<Lexed>::empty(), lex(self.text@)) == lex(self.text@)) by {
            if let Ok(rest) = lex(self.text@) {
                assert(Seq::<Lexed>::empty() + rest =~= rest);
            }
        }
        while self.curr < self.text.len()
            invariant
                self.inv(),
                self.text == old(self).text,
                lex(self.text@) == emit_all(
                    lexed_all(self.tokens@),
                    lex_from(self.text@, self.curr as int, self.line),
                ),
            decreases self.text@.len() - self.curr,
        {
            let r = self.scan_token();
            if r.is_err() {
                return r;
            }
        }
        assert(lexed_all(self.tokens@) + Seq::<Lexed>::empty() =~= lexed_all(self.tokens@));
        Ok(())
    }
}

impl LexerImpl {
    /// The tokens found so far: the public `tokens` field.
    pub fn token_list(&self) -> (r: &Vec<Token>)
        ensures
            r@ == self.lexed(),
    {
        &self.tokens
    }

    /// Scans from the next character to the end of the next token, or past
    /// the next character that gives none.
    #[verifier::spinoff_prover]
    #[verifier::rlimit(60)]
    fn scan_token(&mut self) -> (r: Result<(), LexError>)
        requires
            old(self).inv(),
            old(self).curr < old(self).text@.len(),
        ensures
            final(self).inv(),
            final(self).text == old(self).text,
            final(self).curr > old(self).curr,
            r is Ok ==> emit_all(
                lexed_all(old(self).tokens@),
                lex_from(old(self).text@, old(self).curr as int, old(self).line),
            ) == emit_all(
                lexed_all(final(self).tokens@),
                lex_from(final(self).text@, final(self).curr as int, final(self).line),
            ),
            r matches Err(e) ==> lex_from(old(self).text@, old(self).curr as int, old(self).line)
                == Err::<Seq<Lexed>, LexError>(e) && has_unclosed_quote(final(self).text@),
    {
        let ghost t0 = self.tokens@;
        let ghost c0 = self.curr as int;
        let ghost l0 = self.line;
        self.start = self.curr;
        let ch = self.advance();
        assert(self.text@.subrange(self.start as int, self.curr as int) =~= seq![ch]);
        match ch {
            '\n' => {
                self.line = self.line + 1;
            },
            '#' => {
                self.skip_comment();
            },
            '(' => self.add_token(TokenType::TokLparen),
            ')' => self.add_token(TokenType::TokRparen),
            '{' => self.add_token(TokenType::TokLcurly),
            '}' => self.add_token(TokenType::TokRcurly),
            '[' => self.add_token(TokenType::TokLsquar),
            ']' => self.add_token(TokenType::TokRsquar),
            ',' => self.add_token(TokenType::TokComma),
            '.' => self.add_token(TokenType::TokDot),
            '+' => self.add_token(TokenType::TokPlus),
            '-' => {
                if self.match_char('-') {
                    self.skip_comment();
                } else {
                    self.add_token(TokenType::TokMinus);
                }
            },
            '*' => self.add_token(TokenType::TokStar),
            '/' => self.add_token(TokenType::TokSlash),
            '^' => self.add_token(TokenType::TokCaret),
            '%' => self.add_token(TokenType::TokMod),
            ':' => {
                if self.match_char('=') {
                    assert(self.text@.subrange(self.start as int, self.curr as int) =~= seq![ch, '=']);
                    self.add_token(TokenType::TokAssign);
                } else {
                    self.add_token(TokenType::TokColon);
                }
            },
            ';' => self.add_token(TokenType::TokSemicolon),
            '?' => self.add_token(TokenType::TokQuestion),
            '>' => {
                if self.match_char('=') {
                    assert(self.text@.subrange(self.start as int, self.curr as int) =~= seq![ch, '=']);
                    self.add_token(TokenType::TokGe);
                } else if self.match_char('>') {
                    assert(self.text@.subrange(self.start as int, self.curr as int) =~= seq![ch, '>']);
                    self.add_token(TokenType::TokGtgt);
                } else {
                    self.add_token(TokenType::TokGt);
                }
            },
            '<' => {
                if self.match_char('=') {
                    assert(self.text@.subrange(self.start as int, self.curr as int) =~= seq![ch, '=']);
                    self.add_token(TokenType::TokLe);
                } else if self.match_char('<') {
                    assert(self.text@.subrange(self.start as int, self.curr as int) =~= seq![ch, '<']);
                    self.add_token(TokenType::TokLtlt);
                } else {
                    self.add_token(TokenType::TokLt);
                }
            },
            '=' => {
                if self.match_char('=') {
                    assert(self.text@.subrange(self.start as int, self.curr as int) =~= seq![ch, '=']);
                    self.add_token(TokenType::TokEq);
                }
            },
            '~' => {
                if self.match_char('=') {
                    assert(self.text@.subrange(self.start as int, self.curr as int) =~= seq![ch, '=']);
                    self.add_token(TokenType::TokNe);
                } else {
                    self.add_token(TokenType::TokNot);
                }
            },
            '"' | '\'' => {
                let r = self.handle_string(ch);
                if r.is_err() {
                    return r;
                }
            },
            _ => {
                if is_ascii_digit(ch) {
                    self.handle_number();
                } else if is_alphabetic(ch) || ch == '_' {
                    self.handle_identifier();
                }
            },
        }
        proof {
            if self.tokens@.len() > t0.len() {
                assert(lex_from(self.text@, c0, l0) == emit_all(
                    seq![lexed_of(self.tokens@.last())],
                    lex_from(self.text@, self.curr as int, self.line),
                ));
                assert(lexed_all(self.tokens@) =~= lexed_all(t0) + seq![lexed_of(self.tokens@.last())]);
                lemma_emit_all(
                    lexed_all(t0),
                    seq![lexed_of(self.tokens@.last())],
                    lex_from(self.text@, self.curr as int, self.line),
                );
            } else {
                assert(self.tokens@ == t0);
                assert(lex_from(self.text@, c0, l0) == lex_from(self.text@, self.curr as int, self.line));
            }
        }
        Ok(())
    }

    /// Consumes the rest of a line comment, up to the newline.
    fn skip_comment(&mut self)
        requires
            old(self).inv(),
        ensures
            final(self).inv(),
            final(self).text == old(self).text,
            final(self).tokens == old(self).tokens,
            final(self).line == old(self).line,
            final(self).start == old(self).start,
            old(self).curr <= final(self).curr,
            final(self).curr == line_end(old(self).text@, old(self).curr as int),
    {
        while self.peek() != '\n' && self.curr < self.text.len()
            invariant
                self.inv(),
                self.text == old(self).text,
                self.tokens == old(self).tokens,
                self.line == old(self).line,
                self.start == old(self).start,
                old(self).curr <= self.curr,
                line_end(self.text@, self.curr as int) == line_end(self.text@, old(self).curr as int),
            decreases self.text@.len() - self.curr,
        {
            self.advance();
        }
    }
}

} // verus!
