//! Token categories, tokens and the keyword table.
use vstd::prelude::*;

verus! {

/// The lexical category of a token.
#[derive(Debug, Clone, Copy, PartialEq, Eq, Structural)]
pub enum TokenType {
    TokLparen,
    TokRparen,
    TokLcurly,
    TokRcurly,
    TokLsquar,
    TokRsquar,
    TokComma,
    TokDot,
    TokPlus,
    TokMinus,
    TokStar,
    TokSlash,
    TokCaret,
    TokMod,
    TokColon,
    TokSemicolon,
    TokQuestion,
    TokNot,
    TokGt,
    TokLt,
    TokGe,
    TokLe,
    TokNe,
    TokEq,
    TokAssign,
    TokGtgt,
    TokLtlt,
    TokIdentifier,
    TokString,
    TokInteger,
    TokFloat,
    TokIf,
    TokThen,
    TokElse,
    TokTrue,
    TokFalse,
    TokAnd,
    TokOr,
    TokWhile,
    TokDo,
    TokFor,
    TokFunc,
    TokNull,
    TokEnd,
    TokPrint,
    TokPrintln,
    TokRet,
}

/// A token: its category, the exact source text it covers, the 1-based line
/// it starts on and the character offset of its first character.
#[derive(Debug)]
pub struct Token {
    pub token_type: TokenType,
    pub lexeme: String,
    pub line: u32,
    pub position: u32,
}

pub fn token_init(token_type: TokenType, lexeme: String, line: u32, position: u32) -> (t: Token)
    ensures
        t.token_type == token_type,
        t.lexeme == lexeme,
        t.line == line,
        t.position == position,
{
    Token { token_type, lexeme, line, position }
}

impl Token {
    /// A copy of the token.
    pub fn duplicate(&self) -> (t: Token)
        ensures
            t == *self,
    {
        Token {
            token_type: self.token_type,
            lexeme: self.lexeme.clone(),
            line: self.line,
            position: self.position,
        }
    }
}

/// The keyword that a word spells, if any.
pub open spec fn keyword_spec(w: Seq<char>) -> Option<TokenType> {
    if w == "if"@ {
        Some(TokenType::TokIf)
    } else if w == "else"@ {
        Some(TokenType::TokElse)
    } else if w == "then"@ {
        Some(TokenType::TokThen)
    } else if w == "true"@ {
        Some(TokenType::TokTrue)
    } else if w == "false"@ {
        Some(TokenType::TokFalse)
    } else if w == "and"@ {
        Some(TokenType::TokAnd)
    } else if w == "not"@ {
        Some(TokenType::TokNot)
    } else if w == "or"@ {
        Some(TokenType::TokOr)
    } else if w == "while"@ {
        Some(TokenType::TokWhile)
    } else if w == "do"@ {
        Some(TokenType::TokDo)
    } else if w == "for"@ {
        Some(TokenType::TokFor)
    } else if w == "func"@ {
        Some(TokenType::TokFunc)
    } else if w == "null"@ {
        Some(TokenType::TokNull)
    } else if w == "end"@ {
        Some(TokenType::TokEnd)
    } else if w == "print"@ {
        Some(TokenType::TokPrint)
    } else if w == "println"@ {
        Some(TokenType::TokPrintln)
    } else if w == "ret"@ {
        Some(TokenType::TokRet)
    } else {
        None
    }
}

/// Whether `text[start..end]` spells `word`.
pub fn spells(text: &Vec<char>, start: usize, end: usize, word: &str) -> (r: bool)
    requires
        start <= end <= text@.len(),
    ensures
        r == (text@.subrange(start as int, end as int) == word@),
{
    let n = word.unicode_len();
    if end - start != n {
        return false;
    }
    let mut i: usize = 0;
    while i < n
        invariant
            i <= n,
            n == word@.len(),
            end - start == n,
            start <= end <= text@.len(),
            forall|k: int| 0 <= k < i ==> text@[start + k] == word@[k],
        decreases n - i,
    {
        if text[start + i] != word.get_char(i) {
            assert(text@.subrange(start as int, end as int)[i as int] != word@[i as int]);
            return false;
        }
        i = i + 1;
    }
    assert(text@.subrange(start as int, end as int) =~= word@);
    true
}

/// The category of the word `text[start..end]`: its keyword, or identifier.
pub fn word_type(text: &Vec<char>, start: usize, end: usize) -> (t: TokenType)
    requires
        start <= end <= text@.len(),
    ensures
        t == match keyword_spec(text@.subrange(start as int, end as int)) {
            Some(k) => k,
            None => TokenType::TokIdentifier,
        },
{
    if spells(text, start, end, "if") {
        TokenType::TokIf
    } else if spells(text, start, end, "else") {
        TokenType::TokElse
    } else if spells(text, start, end, "then") {
        TokenType::TokThen
    } else if spells(text, start, end, "true") {
        TokenType::TokTrue
    } else if spells(text, start, end, "false") {
        TokenType::TokFalse
    } else if spells(text, start, end, "and") {
        TokenType::TokAnd
    } else if spells(text, start, end, "not") {
        TokenType::TokNot
    } else if spells(text, start, end, "or") {
        TokenType::TokOr
    } else if spells(text, start, end, "while") {
        TokenType::TokWhile
    } else if spells(text, start, end, "do") {
        TokenType::TokDo
    } else if spells(text, start, end, "for") {
        TokenType::TokFor
    } else if spells(text, start, end, "func") {
        TokenType::TokFunc
    } else if spells(text, start, end, "null") {
        TokenType::TokNull
    } else if spells(text, start, end, "end") {
        TokenType::TokEnd
    } else if spells(text, start, end, "print") {
        TokenType::TokPrint
    } else if spells(text, start, end, "println") {
        TokenType::TokPrintln
    } else if spells(text, start, end, "ret") {
        TokenType::TokRet
    } else {
        TokenType::TokIdentifier
    }
}

} // verus!
