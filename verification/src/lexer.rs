use vstd::prelude::*;

use crate::error::{err_at, CompileError, ErrorV};
use crate::span::Span;
use crate::text::{
    char_debug, char_debug_text, chars_eq_str, chars_of, concat2, digit_test, digit_value,
    digits_value, ident_char_test, alpha_test, is_alpha, is_digit, is_ident_char,
    string_from_chars, decimal_text, digit_char,
};

verus! {

/// A lexical token. A float literal keeps its source text (`DIGITS.DIGITS`).
#[derive(Debug)]
pub enum Token {
    Let,
    Fn,
    If,
    Else,
    While,
    Return,
    True,
    False,
    As,
    Use,
    Int(i64),
    Float(String),
    Str(String),
    Ident(String),
    LParen,
    RParen,
    LBrace,
    RBrace,
    Comma,
    Colon,
    Arrow,
    Eq,
    EqEq,
    BangEq,
    Bang,
    Lt,
    LtEq,
    Gt,
    GtEq,
    AndAnd,
    OrOr,
    Plus,
    Minus,
    Star,
    Slash,
}

/// The mathematical value of a [`Token`].
pub enum TokenV {
    Let,
    Fn,
    If,
    Else,
    While,
    Return,
    True,
    False,
    As,
    Use,
    Int(i64),
    Float(Seq<char>),
    Str(Seq<char>),
    Ident(Seq<char>),
    LParen,
    RParen,
    LBrace,
    RBrace,
    Comma,
    Colon,
    Arrow,
    Eq,
    EqEq,
    BangEq,
    Bang,
    Lt,
    LtEq,
    Gt,
    GtEq,
    AndAnd,
    OrOr,
    Plus,
    Minus,
    Star,
    Slash,
}

pub open spec fn tok_v(t: Token) -> TokenV {
    match t {
        Token::Let => TokenV::Let,
        Token::Fn => TokenV::Fn,
        Token::If => TokenV::If,
        Token::Else => TokenV::Else,
        Token::While => TokenV::While,
        Token::Return => TokenV::Return,
        Token::True => TokenV::True,
        Token::False => TokenV::False,
        Token::As => TokenV::As,
        Token::Use => TokenV::Use,
        Token::Int(n) => TokenV::Int(n),
        Token::Float(s) => TokenV::Float(s@),
        Token::Str(s) => TokenV::Str(s@),
        Token::Ident(s) => TokenV::Ident(s@),
        Token::LParen => TokenV::LParen,
        Token::RParen => TokenV::RParen,
        Token::LBrace => TokenV::LBrace,
        Token::RBrace => TokenV::RBrace,
        Token::Comma => TokenV::Comma,
        Token::Colon => TokenV::Colon,
        Token::Arrow => TokenV::Arrow,
        Token::Eq => TokenV::Eq,
        Token::EqEq => TokenV::EqEq,
        Token::BangEq => TokenV::BangEq,
        Token::Bang => TokenV::Bang,
        Token::Lt => TokenV::Lt,
        Token::LtEq => TokenV::LtEq,
        Token::Gt => TokenV::Gt,
        Token::GtEq => TokenV::GtEq,
        Token::AndAnd => TokenV::AndAnd,
        Token::OrOr => TokenV::OrOr,
        Token::Plus => TokenV::Plus,
        Token::Minus => TokenV::Minus,
        Token::Star => TokenV::Star,
        Token::Slash => TokenV::Slash,
    }
}

impl View for Token {
    type V = TokenV;

    open spec fn view(&self) -> TokenV {
        tok_v(*self)
    }
}

/// The values of a token list.
pub open spec fn toks_v(s: Seq<(Token, Span)>) -> Seq<(TokenV, Span)> {
    s.map_values(|p: (Token, Span)| (tok_v(p.0), p.1))
}

impl Token {
    /// A copy of this token.
    pub fn duplicate(&self) -> (t: Token)
        ensures
            t@ == self@,
    {
        match self {
            Token::Let => Token::Let,
            Token::Fn => Token::Fn,
            Token::If => Token::If,
            Token::Else => Token::Else,
            Token::While => Token::While,
            Token::Return => Token::Return,
            Token::True => Token::True,
            Token::False => Token::False,
            Token::As => Token::As,
            Token::Use => Token::Use,
            Token::Int(n) => Token::Int(*n),
            Token::Float(s) => Token::Float(s.clone()),
            Token::Str(s) => Token::Str(s.clone()),
            Token::Ident(s) => Token::Ident(s.clone()),
            Token::LParen => Token::LParen,
            Token::RParen => Token::RParen,
            Token::LBrace => Token::LBrace,
            Token::RBrace => Token::RBrace,
            Token::Comma => Token::Comma,
            Token::Colon => Token::Colon,
            Token::Arrow => Token::Arrow,
            Token::Eq => Token::Eq,
            Token::EqEq => Token::EqEq,
            Token::BangEq => Token::BangEq,
            Token::Bang => Token::Bang,
            Token::Lt => Token::Lt,
            Token::LtEq => Token::LtEq,
            Token::Gt => Token::Gt,
            Token::GtEq => Token::GtEq,
            Token::AndAnd => Token::AndAnd,
            Token::OrOr => Token::OrOr,
            Token::Plus => Token::Plus,
            Token::Minus => Token::Minus,
            Token::Star => Token::Star,
            Token::Slash => Token::Slash,
        }
    }

    /// Whether two tokens are equal (same kind and same payload).
    pub fn same(&self, other: &Token) -> (b: bool)
        ensures
            b == (self@ == other@),
    {
        match (self, other) {
            (Token::Int(a), Token::Int(b)) => *a == *b,
            (Token::Float(a), Token::Float(b)) => a.eq(b),
            (Token::Str(a), Token::Str(b)) => a.eq(b),
            (Token::Ident(a), Token::Ident(b)) => a.eq(b),
            _ => {
                let ta = self.tag();
                let tb = other.tag();
                proof {
                    if !self.has_payload() && !other.has_payload() {
                        lemma_tag_determines(*self, *other);
                    }
                }
                ta == tb
            },
        }
    }

    /// A number telling the variants apart.
    fn tag(&self) -> (n: u8)
        ensures
            n == self.tag_spec(),
    {
        match self {
            Token::Let => 0,
            Token::Fn => 1,
            Token::If => 2,
            Token::Else => 3,
            Token::While => 4,
            Token::Return => 5,
            Token::True => 6,
            Token::False => 7,
            Token::As => 8,
            Token::Use => 9,
            Token::Int(_) => 10,
            Token::Float(_) => 11,
            Token::Str(_) => 12,
            Token::Ident(_) => 13,
            Token::LParen => 14,
            Token::RParen => 15,
            Token::LBrace => 16,
            Token::RBrace => 17,
            Token::Comma => 18,
            Token::Colon => 19,
            Token::Arrow => 20,
            Token::Eq => 21,
            Token::EqEq => 22,
            Token::BangEq => 23,
            Token::Bang => 24,
            Token::Lt => 25,
            Token::LtEq => 26,
            Token::Gt => 27,
            Token::GtEq => 28,
            Token::AndAnd => 29,
            Token::OrOr => 30,
            Token::Plus => 31,
            Token::Minus => 32,
            Token::Star => 33,
            Token::Slash => 34,
        }
    }

    pub open spec fn has_payload(&self) -> bool {
        self is Int || self is Float || self is Str || self is Ident
    }

    pub open spec fn tag_spec(&self) -> u8 {
        match self {
            Token::Let => 0,
            Token::Fn => 1,
            Token::If => 2,
            Token::Else => 3,
            Token::While => 4,
            Token::Return => 5,
            Token::True => 6,
            Token::False => 7,
            Token::As => 8,
            Token::Use => 9,
            Token::Int(_) => 10,
            Token::Float(_) => 11,
            Token::Str(_) => 12,
            Token::Ident(_) => 13,
            Token::LParen => 14,
            Token::RParen => 15,
            Token::LBrace => 16,
            Token::RBrace => 17,
            Token::Comma => 18,
            Token::Colon => 19,
            Token::Arrow => 20,
            Token::Eq => 21,
            Token::EqEq => 22,
            Token::BangEq => 23,
            Token::Bang => 24,
            Token::Lt => 25,
            Token::LtEq => 26,
            Token::Gt => 27,
            Token::GtEq => 28,
            Token::AndAnd => 29,
            Token::OrOr => 30,
            Token::Plus => 31,
            Token::Minus => 32,
            Token::Star => 33,
            Token::Slash => 34,
        }
    }
}


// ---------------------------------------------------------------------------
// What the lexer computes.

/// Line and column (both 1-based) of the character at index `i`: every
/// newline before it starts a new line, every other character moves one
/// column right.
pub open spec fn pos_at(s: Seq<char>, i: int) -> (int, int)
    decreases i,
{
    if i <= 0 {
        (1, 1)
    } else {
        let p = pos_at(s, i - 1);
        if s[i - 1] == '\n' {
            (p.0 + 1, 1)
        } else {
            (p.0, p.1 + 1)
        }
    }
}

/// Every position of `s` (after each of its characters, and at its start)
/// has a line and a column that fit in 32 bits.
pub open spec fn positions_fit(s: Seq<char>) -> bool {
    forall|i: int| 0 <= i <= s.len() ==> #[trigger] pos_at(s, i).0 <= u32::MAX && pos_at(s, i).1 <= u32::MAX
}

pub open spec fn span_at(s: Seq<char>, i: int, file: u32) -> Span {
    Span { file, line: pos_at(s, i).0 as u32, col: pos_at(s, i).1 as u32 }
}

pub type LexResult = Result<Seq<(TokenV, Span)>, ErrorV>;

/// `t` at `sp`, followed by what `rest` holds.
pub open spec fn cons(t: TokenV, sp: Span, rest: LexResult) -> LexResult {
    match rest {
        Ok(r) => Ok(seq![(t, sp)] + r),
        Err(e) => Err(e),
    }
}

/// `pre` followed by what `rest` holds.
pub open spec fn extend(pre: Seq<(TokenV, Span)>, rest: LexResult) -> LexResult {
    match rest {
        Ok(r) => Ok(pre + r),
        Err(e) => Err(e),
    }
}

pub open spec fn is_space(c: char) -> bool {
    c == ' ' || c == '\t' || c == '\n' || c == '\r'
}

/// Tokens made of one character that no other token starts with.
pub open spec fn single_tok(c: char) -> Option<TokenV> {
    if c == '(' {
        Some(TokenV::LParen)
    } else if c == ')' {
        Some(TokenV::RParen)
    } else if c == '{' {
        Some(TokenV::LBrace)
    } else if c == '}' {
        Some(TokenV::RBrace)
    } else if c == ',' {
        Some(TokenV::Comma)
    } else if c == ':' {
        Some(TokenV::Colon)
    } else if c == '+' {
        Some(TokenV::Plus)
    } else if c == '*' {
        Some(TokenV::Star)
    } else {
        None
    }
}

/// Operators of one character that may be followed by a second one:
/// the second character, the two-character token, the one-character token.
pub open spec fn pair_tok(c: char) -> Option<(char, TokenV, TokenV)> {
    if c == '-' {
        Some(('>', TokenV::Arrow, TokenV::Minus))
    } else if c == '=' {
        Some(('=', TokenV::EqEq, TokenV::Eq))
    } else if c == '!' {
        Some(('=', TokenV::BangEq, TokenV::Bang))
    } else if c == '<' {
        Some(('=', TokenV::LtEq, TokenV::Lt))
    } else if c == '>' {
        Some(('=', TokenV::GtEq, TokenV::Gt))
    } else {
        None
    }
}

/// The keyword spelled by `name`, or an identifier.
pub open spec fn word_tok(name: Seq<char>) -> TokenV {
    if name == "let"@ {
        TokenV::Let
    } else if name == "fn"@ {
        TokenV::Fn
    } else if name == "if"@ {
        TokenV::If
    } else if name == "else"@ {
        TokenV::Else
    } else if name == "while"@ {
        TokenV::While
    } else if name == "return"@ {
        TokenV::Return
    } else if name == "true"@ {
        TokenV::True
    } else if name == "false"@ {
        TokenV::False
    } else if name == "as"@ {
        TokenV::As
    } else if name == "use"@ {
        TokenV::Use
    } else {
        TokenV::Ident(name)
    }
}

/// The character an escape `\c` stands for, if `c` names one.
pub open spec fn escape_char(c: char) -> Option<char> {
    if c == 'n' {
        Some('\n')
    } else if c == 't' {
        Some('\t')
    } else if c == '\\' {
        Some('\\')
    } else if c == '"' {
        Some('"')
    } else if c == '0' {
        Some('\0')
    } else {
        None
    }
}

/// The tokens of `s` from index `i` on, or the first error.
pub open spec fn lex_from(s: Seq<char>, i: int, file: u32) -> LexResult
    decreases s.len() - i, 0int,
{
    if i < 0 || i >= s.len() {
        Ok(Seq::empty())
    } else {
        let c = s[i];
        let sp = span_at(s, i, file);
        if is_space(c) {
            lex_from(s, i + 1, file)
        } else if c == '/' {
            if i + 1 < s.len() && s[i + 1] == '/' {
                lex_comment(s, i + 1, file)
            } else {
                cons(TokenV::Slash, sp, lex_from(s, i + 1, file))
            }
        } else if single_tok(c) is Some {
            cons(single_tok(c).unwrap(), sp, lex_from(s, i + 1, file))
        } else if pair_tok(c) is Some {
            let (c2, two, one) = pair_tok(c).unwrap();
            if i + 1 < s.len() && s[i + 1] == c2 {
                cons(two, sp, lex_from(s, i + 2, file))
            } else {
                cons(one, sp, lex_from(s, i + 1, file))
            }
        } else if c == '&' {
            if i + 1 < s.len() && s[i + 1] == '&' {
                cons(TokenV::AndAnd, sp, lex_from(s, i + 2, file))
            } else {
                Err(err_at(sp, "unexpected '&' (did you mean '&&'?)"@))
            }
        } else if c == '|' {
            if i + 1 < s.len() && s[i + 1] == '|' {
                cons(TokenV::OrOr, sp, lex_from(s, i + 2, file))
            } else {
                Err(err_at(sp, "unexpected '|' (did you mean '||'?)"@))
            }
        } else if c == '"' {
            lex_str(s, i + 1, i, Seq::empty(), file)
        } else if is_digit(c) {
            lex_int(s, i + 1, i, file)
        } else if is_alpha(c) || c == '_' {
            lex_word(s, i + 1, i, file)
        } else {
            Err(err_at(sp, "unexpected character: "@ + char_debug_text(c)))
        }
    }
}

/// Inside a line comment at index `k`: everything up to and including the
/// next newline is skipped.
pub open spec fn lex_comment(s: Seq<char>, k: int, file: u32) -> LexResult
    decreases s.len() - k, 1int,
{
    if k < 0 || k >= s.len() {
        Ok(Seq::empty())
    } else if s[k] == '\n' {
        lex_from(s, k + 1, file)
    } else {
        lex_comment(s, k + 1, file)
    }
}

/// Inside a string literal that opened at `start`, at index `k`, with `acc`
/// read so far.
pub open spec fn lex_str(s: Seq<char>, k: int, start: int, acc: Seq<char>, file: u32) -> LexResult
    decreases s.len() - k, 1int,
{
    let sp = span_at(s, start, file);
    if k < 0 || k >= s.len() {
        Err(err_at(sp, "unterminated string literal"@))
    } else if s[k] == '"' {
        cons(TokenV::Str(acc), sp, lex_from(s, k + 1, file))
    } else if s[k] == '\\' {
        if k + 1 >= s.len() {
            Err(err_at(sp, "unterminated string literal"@))
        } else if escape_char(s[k + 1]) is Some {
            lex_str(s, k + 2, start, acc.push(escape_char(s[k + 1]).unwrap()), file)
        } else {
            Err(err_at(sp, "unknown escape \\"@ + seq![s[k + 1]]))
        }
    } else {
        lex_str(s, k + 1, start, acc.push(s[k]), file)
    }
}

/// Inside the integer part of a number literal that starts at `start`.
pub open spec fn lex_int(s: Seq<char>, k: int, start: int, file: u32) -> LexResult
    decreases s.len() - k, 1int,
{
    let sp = span_at(s, start, file);
    if 0 <= k < s.len() && is_digit(s[k]) {
        lex_int(s, k + 1, start, file)
    } else if 0 <= k && k + 1 < s.len() && s[k] == '.' && is_digit(s[k + 1]) {
        lex_frac(s, k + 1, start, file)
    } else {
        let text = s.subrange(start, k);
        if digits_value(text) <= i64::MAX {
            cons(TokenV::Int(digits_value(text) as i64), sp, lex_from(s, k, file))
        } else {
            Err(err_at(sp, "integer literal overflow: "@ + text))
        }
    }
}

/// Inside the fraction of a float literal that starts at `start`.
pub open spec fn lex_frac(s: Seq<char>, k: int, start: int, file: u32) -> LexResult
    decreases s.len() - k, 1int,
{
    if 0 <= k < s.len() && is_digit(s[k]) {
        lex_frac(s, k + 1, start, file)
    } else {
        cons(TokenV::Float(s.subrange(start, k)), span_at(s, start, file), lex_from(s, k, file))
    }
}

/// Inside a word (keyword or identifier) that starts at `start`.
pub open spec fn lex_word(s: Seq<char>, k: int, start: int, file: u32) -> LexResult
    decreases s.len() - k, 1int,
{
    if 0 <= k < s.len() && is_ident_char(s[k]) {
        lex_word(s, k + 1, start, file)
    } else {
        cons(word_tok(s.subrange(start, k)), span_at(s, start, file), lex_from(s, k, file))
    }
}

/// The tokens of a whole source text.
pub open spec fn lex(s: Seq<char>, file: u32) -> LexResult {
    lex_from(s, 0, file)
}

// ---------------------------------------------------------------------------
// Lemmas.

proof fn lemma_pos_bound(s: Seq<char>, i: int)
    requires
        0 <= i,
    ensures
        pos_at(s, i).0 >= 1,
        pos_at(s, i).1 >= 1,
        pos_at(s, i).0 + pos_at(s, i).1 <= i + 2,
    decreases i,
{
    if i > 0 {
        lemma_pos_bound(s, i - 1);
    }
}

proof fn lemma_extend_cons(pre: Seq<(TokenV, Span)>, t: TokenV, sp: Span, r: LexResult)
    ensures
        extend(pre, cons(t, sp, r)) == extend(pre.push((t, sp)), r),
{
    if let Ok(rest) = r {
        assert(pre + (seq![(t, sp)] + rest) =~= pre.push((t, sp)) + rest);
    }
}

proof fn lemma_digits_step(s: Seq<char>, start: int, k: int)
    requires
        0 <= start <= k < s.len(),
    ensures
        digits_value(s.subrange(start, k + 1)) == digits_value(s.subrange(start, k)) * 10
            + digit_value(s[k]),
{
    assert(s.subrange(start, k + 1).drop_last() =~= s.subrange(start, k));
}

// ---------------------------------------------------------------------------
// The lexer.

/// Line and column after the character at `i`.
fn step_pos(s: &Vec<char>, i: usize, line: u32, col: u32) -> (r: (u32, u32))
    requires
        i < s@.len(),
        positions_fit(s@),
        line as int == pos_at(s@, i as int).0,
        col as int == pos_at(s@, i as int).1,
    ensures
        r.0 as int == pos_at(s@, i + 1).0,
        r.1 as int == pos_at(s@, i + 1).1,
{
    proof {
        lemma_pos_bound(s@, i as int);
        assert(pos_at(s@, i + 1).0 <= u32::MAX && pos_at(s@, i + 1).1 <= u32::MAX);
    }
    if s[i] == '\n' {
        (line + 1, 1)
    } else {
        (line, col + 1)
    }
}

fn push_tok(out: &mut Vec<(Token, Span)>, t: Token, sp: Span)
    ensures
        toks_v(final(out)@) == toks_v(old(out)@).push((t@, sp)),
{
    out.push((t, sp));
    assert(toks_v(out@) =~= toks_v(old(out)@).push((t@, sp)));
}

fn single_token(c: char) -> (r: Option<Token>)
    ensures
        match r {
            Some(t) => single_tok(c) == Some(t@),
            None => single_tok(c) is None,
        },
{
    if c == '(' {
        Some(Token::LParen)
    } else if c == ')' {
        Some(Token::RParen)
    } else if c == '{' {
        Some(Token::LBrace)
    } else if c == '}' {
        Some(Token::RBrace)
    } else if c == ',' {
        Some(Token::Comma)
    } else if c == ':' {
        Some(Token::Colon)
    } else if c == '+' {
        Some(Token::Plus)
    } else if c == '*' {
        Some(Token::Star)
    } else {
        None
    }
}

fn pair_token(c: char) -> (r: Option<(char, Token, Token)>)
    ensures
        match r {
            Some((c2, two, one)) => pair_tok(c) == Some((c2, two@, one@)),
            None => pair_tok(c) is None,
        },
{
    if c == '-' {
        Some(('>', Token::Arrow, Token::Minus))
    } else if c == '=' {
        Some(('=', Token::EqEq, Token::Eq))
    } else if c == '!' {
        Some(('=', Token::BangEq, Token::Bang))
    } else if c == '<' {
        Some(('=', Token::LtEq, Token::Lt))
    } else if c == '>' {
        Some(('=', Token::GtEq, Token::Gt))
    } else {
        None
    }
}

fn word_token(name: &Vec<char>) -> (t: Token)
    ensures
        t@ == word_tok(name@),
{
    if chars_eq_str(name, "let") {
        Token::Let
    } else if chars_eq_str(name, "fn") {
        Token::Fn
    } else if chars_eq_str(name, "if") {
        Token::If
    } else if chars_eq_str(name, "else") {
        Token::Else
    } else if chars_eq_str(name, "while") {
        Token::While
    } else if chars_eq_str(name, "return") {
        Token::Return
    } else if chars_eq_str(name, "true") {
        Token::True
    } else if chars_eq_str(name, "false") {
        Token::False
    } else if chars_eq_str(name, "as") {
        Token::As
    } else if chars_eq_str(name, "use") {
        Token::Use
    } else {
        Token::Ident(string_from_chars(name))
    }
}

fn escape_of(c: char) -> (r: Option<char>)
    ensures
        r == escape_char(c),
{
    if c == 'n' {
        Some('\n')
    } else if c == 't' {
        Some('\t')
    } else if c == '\\' {
        Some('\\')
    } else if c == '"' {
        Some('"')
    } else if c == '0' {
        Some('\0')
    } else {
        None
    }
}

/// Where a lexing step goes on: the next index, its line and column.
pub type Resume = Result<(usize, u32, u32), CompileError>;

pub open spec fn resumes(s: Seq<char>, file: u32, start: int, out: Seq<(Token, Span)>, r: Resume) -> bool {
    match r {
        Ok((j, l, c)) => {
            &&& start < j <= s.len()
            &&& l as int == pos_at(s, j as int).0
            &&& c as int == pos_at(s, j as int).1
            &&& lex(s, file) == extend(toks_v(out), lex_from(s, j as int, file))
        },
        Err(e) => lex(s, file) == Err::<Seq<(TokenV, Span)>, ErrorV>(e@),
    }
}

/// Skips a line comment whose second `/` is at `k`.
fn skip_comment(s: &Vec<char>, k: usize, line: u32, col: u32, file: u32, out: &Vec<(Token, Span)>) -> (r: (usize, u32, u32))
    requires
        0 < k < s@.len(),
        positions_fit(s@),
        line as int == pos_at(s@, k as int).0,
        col as int == pos_at(s@, k as int).1,
        lex(s@, file) == extend(toks_v(out@), lex_comment(s@, k as int, file)),
    ensures
        resumes(s@, file, k - 1, out@, Ok(r)),
{
    let n = s.len();
    let mut j = k;
    let mut l = line;
    let mut c = col;
    while j < n && s[j] != '\n'
        invariant
            k <= j <= n,
            n == s@.len(),
            positions_fit(s@),
            l as int == pos_at(s@, j as int).0,
            c as int == pos_at(s@, j as int).1,
            lex(s@, file) == extend(toks_v(out@), lex_comment(s@, j as int, file)),
        decreases n - j,
    {
        let p = step_pos(s, j, l, c);
        l = p.0;
        c = p.1;
        j = j + 1;
    }
    if j < n {
        let p = step_pos(s, j, l, c);
        (j + 1, p.0, p.1)
    } else {
        (j, l, c)
    }
}

/// Reads a string literal whose opening quote is at `start`.
fn read_string(s: &Vec<char>, start: usize, line: u32, col: u32, file: u32, out: &mut Vec<(Token, Span)>) -> (r: Resume)
    requires
        start < s@.len(),
        positions_fit(s@),
        s@[start as int] == '"',
        line as int == pos_at(s@, start as int).0,
        col as int == pos_at(s@, start as int).1,
        lex(s@, file) == extend(toks_v(old(out)@), lex_from(s@, start as int, file)),
    ensures
        resumes(s@, file, start as int, final(out)@, r),
{
    proof {
        lemma_pos_bound(s@, start as int);
    }
    let sp = Span::new(file, line, col);
    assert(sp == span_at(s@, start as int, file));
    let n = s.len();
    let p0 = step_pos(s, start, line, col);
    let mut l = p0.0;
    let mut c = p0.1;
    let mut k = start + 1;
    let mut acc: Vec<char> = Vec::new();
    loop
        invariant
            start < k <= n,
            n == s@.len(),
            positions_fit(s@),
            sp == span_at(s@, start as int, file),
            l as int == pos_at(s@, k as int).0,
            c as int == pos_at(s@, k as int).1,
            lex(s@, file) == extend(toks_v(out@), lex_str(s@, k as int, start as int, acc@, file)),
        decreases n - k,
    {
        if k >= n {
            return Err(CompileError::at(sp, String::from_str("unterminated string literal")));
        }
        let ch = s[k];
        if ch == '"' {
            let p = step_pos(s, k, l, c);
            let text = string_from_chars(&acc);
            proof {
                lemma_extend_cons(toks_v(out@), TokenV::Str(acc@), sp, lex_from(s@, k + 1, file));
            }
            push_tok(out, Token::Str(text), sp);
            return Ok((k + 1, p.0, p.1));
        } else if ch == '\\' {
            if k + 1 >= n {
                return Err(CompileError::at(sp, String::from_str("unterminated string literal")));
            }
            let e = s[k + 1];
            match escape_of(e) {
                Some(x) => {
                    acc.push(x);
                    let p = step_pos(s, k, l, c);
                    let p2 = step_pos(s, k + 1, p.0, p.1);
                    l = p2.0;
                    c = p2.1;
                    k = k + 2;
                },
                None => {
                    let mut one: Vec<char> = Vec::new();
                    one.push(e);
                    let es = string_from_chars(&one);
                    let msg = concat2("unknown escape \\", es.as_str());
                    assert(one@ =~= seq![e]);
                    return Err(CompileError::at(sp, msg));
                },
            }
        } else {
            acc.push(ch);
            let p = step_pos(s, k, l, c);
            l = p.0;
            c = p.1;
            k = k + 1;
        }
    }
}

/// Reads a number literal whose first digit is at `start`.
fn read_number(s: &Vec<char>, start: usize, line: u32, col: u32, file: u32, out: &mut Vec<(Token, Span)>) -> (r: Resume)
    requires
        start < s@.len(),
        positions_fit(s@),
        is_digit(s@[start as int]),
        line as int == pos_at(s@, start as int).0,
        col as int == pos_at(s@, start as int).1,
        lex(s@, file) == extend(toks_v(old(out)@), lex_from(s@, start as int, file)),
    ensures
        resumes(s@, file, start as int, final(out)@, r),
{
    proof {
        lemma_pos_bound(s@, start as int);
    }
    let sp = Span::new(file, line, col);
    assert(sp == span_at(s@, start as int, file));
    let n = s.len();
    let mut k = start;
    let mut l = line;
    let mut c = col;
    let mut text: Vec<char> = Vec::new();
    let mut val: u64 = 0;
    let mut big = false;
    assert(s@.subrange(start as int, start as int) =~= Seq::<char>::empty());
    while k < n && digit_test(s[k])
        invariant
            start <= k <= n,
            n == s@.len(),
            positions_fit(s@),
            sp == span_at(s@, start as int, file),
            l as int == pos_at(s@, k as int).0,
            c as int == pos_at(s@, k as int).1,
            text@ == s@.subrange(start as int, k as int),
            !big ==> val as int == digits_value(text@) && val <= i64::MAX,
            big ==> digits_value(text@) > i64::MAX,
            k == start ==> lex_from(s@, start as int, file) == lex_int(s@, start + 1, start as int, file),
            k > start ==> lex_from(s@, start as int, file) == lex_int(s@, k as int, start as int, file),
        decreases n - k,
    {
        let ch = s[k];
        let d: u64 = (ch as u32 - '0' as u32) as u64;
        proof {
            lemma_digits_step(s@, start as int, k as int);
        }
        if !big {
            if val <= (9223372036854775807u64 - d) / 10 {
                assert(val * 10 + d <= 9223372036854775807u64) by (nonlinear_arith)
                    requires
                        val <= (9223372036854775807u64 - d) / 10,
                        d <= 9,
                ;
                val = val * 10 + d;
            } else {
                assert(val * 10 + d > 9223372036854775807u64) by (nonlinear_arith)
                    requires
                        val > (9223372036854775807u64 - d) / 10,
                        d <= 9,
                ;
                big = true;
            }
        }
        text.push(ch);
        let p = step_pos(s, k, l, c);
        l = p.0;
        c = p.1;
        k = k + 1;
        assert(text@ =~= s@.subrange(start as int, k as int));
    }
    if k < n && s[k] == '.' && k + 1 < n && digit_test(s[k + 1]) {
        text.push('.');
        let p = step_pos(s, k, l, c);
        l = p.0;
        c = p.1;
        k = k + 1;
        assert(text@ =~= s@.subrange(start as int, k as int));
        while k < n && digit_test(s[k])
            invariant
                start < k <= n,
                n == s@.len(),
                positions_fit(s@),
                sp == span_at(s@, start as int, file),
                l as int == pos_at(s@, k as int).0,
                c as int == pos_at(s@, k as int).1,
                text@ == s@.subrange(start as int, k as int),
                lex_from(s@, start as int, file) == lex_frac(s@, k as int, start as int, file),
            decreases n - k,
        {
            text.push(s[k]);
            let p = step_pos(s, k, l, c);
            l = p.0;
            c = p.1;
            k = k + 1;
            assert(text@ =~= s@.subrange(start as int, k as int));
        }
        let t = string_from_chars(&text);
        proof {
            lemma_extend_cons(toks_v(old(out)@), TokenV::Float(text@), sp, lex_from(s@, k as int, file));
        }
        push_tok(out, Token::Float(t), sp);
        Ok((k, l, c))
    } else if big {
        let t = string_from_chars(&text);
        let msg = concat2("integer literal overflow: ", t.as_str());
        Err(CompileError::at(sp, msg))
    } else {
        proof {
            lemma_extend_cons(toks_v(old(out)@), TokenV::Int(val as i64), sp, lex_from(s@, k as int, file));
        }
        push_tok(out, Token::Int(val as i64), sp);
        Ok((k, l, c))
    }
}

/// Reads a keyword or identifier whose first character is at `start`.
fn read_word(s: &Vec<char>, start: usize, line: u32, col: u32, file: u32, out: &mut Vec<(Token, Span)>) -> (r: Resume)
    requires
        start < s@.len(),
        positions_fit(s@),
        is_alpha(s@[start as int]) || s@[start as int] == '_',
        line as int == pos_at(s@, start as int).0,
        col as int == pos_at(s@, start as int).1,
        lex(s@, file) == extend(toks_v(old(out)@), lex_from(s@, start as int, file)),
    ensures
        resumes(s@, file, start as int, final(out)@, r),
{
    proof {
        lemma_pos_bound(s@, start as int);
    }
    let sp = Span::new(file, line, col);
    assert(sp == span_at(s@, start as int, file));
    let n = s.len();
    let mut name: Vec<char> = Vec::new();
    name.push(s[start]);
    let p0 = step_pos(s, start, line, col);
    let mut l = p0.0;
    let mut c = p0.1;
    let mut k = start + 1;
    assert(name@ =~= s@.subrange(start as int, k as int));
    while k < n && ident_char_test(s[k])
        invariant
            start < k <= n,
            n == s@.len(),
            positions_fit(s@),
            sp == span_at(s@, start as int, file),
            l as int == pos_at(s@, k as int).0,
            c as int == pos_at(s@, k as int).1,
            name@ == s@.subrange(start as int, k as int),
            lex_from(s@, start as int, file) == lex_word(s@, k as int, start as int, file),
        decreases n - k,
    {
        name.push(s[k]);
        let p = step_pos(s, k, l, c);
        l = p.0;
        c = p.1;
        k = k + 1;
        assert(name@ =~= s@.subrange(start as int, k as int));
    }
    let t = word_token(&name);
    proof {
        lemma_extend_cons(toks_v(old(out)@), t@, sp, lex_from(s@, k as int, file));
    }
    push_tok(out, t, sp);
    Ok((k, l, c))
}

/// Splits a source text into tokens; `file` is the id stamped on every span.
/// The result is exactly [`lex`] of the text: the tokens with their
/// positions, or the first lexical error.
/// Whether every line and column of `src` fits in 32 bits (what
/// [`tokenize`] needs).
pub fn fits_positions(src: &str) -> (b: bool)
    ensures
        b == positions_fit(src@),
{
    let s = chars_of(src);
    let n = s.len();
    let mut line: u64 = 1;
    let mut col: u64 = 1;
    let mut i: usize = 0;
    while i < n
        invariant
            n == s@.len(),
            s@ == src@,
            i <= n,
            line as int == pos_at(s@, i as int).0,
            col as int == pos_at(s@, i as int).1,
            line <= u32::MAX,
            col <= u32::MAX,
            forall|j: int| 0 <= j <= i ==> #[trigger] pos_at(s@, j).0 <= u32::MAX && pos_at(s@, j).1 <= u32::MAX,
        decreases n - i,
    {
        if s[i] == '\n' {
            line = line + 1;
            col = 1;
        } else {
            col = col + 1;
        }
        i = i + 1;
        if line > 0xffff_ffff || col > 0xffff_ffff {
            assert(!(pos_at(s@, i as int).0 <= u32::MAX && pos_at(s@, i as int).1 <= u32::MAX));
            return false;
        }
    }
    true
}

/// The error for a character that starts no token, given how the character
/// is shown (its `Debug` text).
pub fn unexpected_char_error(at: Span, shown: &str) -> (e: CompileError)
    ensures
        e@ == err_at(at, "unexpected character: "@ + shown@),
{
    CompileError::at(at, concat2("unexpected character: ", shown))
}

pub fn tokenize(src: &str, file: u32) -> (r: Result<Vec<(Token, Span)>, CompileError>)
    requires
        positions_fit(src@),
    ensures
        match r {
            Ok(v) => lex(src@, file) == Ok::<Seq<(TokenV, Span)>, ErrorV>(toks_v(v@)),
            Err(e) => lex(src@, file) == Err::<Seq<(TokenV, Span)>, ErrorV>(e@),
        },
{
    let s = chars_of(src);
    let n = s.len();
    let mut out: Vec<(Token, Span)> = Vec::new();
    let mut i: usize = 0;
    let mut line: u32 = 1;
    let mut col: u32 = 1;
    assert(toks_v(out@) =~= Seq::<(TokenV, Span)>::empty());
    assert(extend(Seq::empty(), lex_from(s@, 0, file)) == lex_from(s@, 0, file)) by {
        if let Ok(r) = lex_from(s@, 0, file) {
            assert(Seq::<(TokenV, Span)>::empty() + r =~= r);
        }
    }
    while i < n
        invariant
            0 <= i <= n,
            n == s@.len(),
            s@ == src@,
            positions_fit(s@),
            line as int == pos_at(s@, i as int).0,
            col as int == pos_at(s@, i as int).1,
            lex(s@, file) == extend(toks_v(out@), lex_from(s@, i as int, file)),
        decreases n - i,
    {
        proof {
            lemma_pos_bound(s@, i as int);
        }
        let ch = s[i];
        let sp = Span::new(file, line, col);
        assert(sp == span_at(s@, i as int, file));
        let step: Resume;
        if ch == ' ' || ch == '\t' || ch == '\n' || ch == '\r' {
            let p = step_pos(&s, i, line, col);
            step = Ok((i + 1, p.0, p.1));
        } else if ch == '/' {
            if i + 1 < n && s[i + 1] == '/' {
                let p = step_pos(&s, i, line, col);
                let r = skip_comment(&s, i + 1, p.0, p.1, file, &out);
                step = Ok(r);
            } else {
                let p = step_pos(&s, i, line, col);
                proof {
                    lemma_extend_cons(toks_v(out@), TokenV::Slash, sp, lex_from(s@, i + 1, file));
                }
                push_tok(&mut out, Token::Slash, sp);
                step = Ok((i + 1, p.0, p.1));
            }
        } else if let Some(t) = single_token(ch) {
            let p = step_pos(&s, i, line, col);
            proof {
                lemma_extend_cons(toks_v(out@), t@, sp, lex_from(s@, i + 1, file));
            }
            push_tok(&mut out, t, sp);
            step = Ok((i + 1, p.0, p.1));
        } else if let Some((c2, two, one)) = pair_token(ch) {
            let p = step_pos(&s, i, line, col);
            if i + 1 < n && s[i + 1] == c2 {
                let p2 = step_pos(&s, i + 1, p.0, p.1);
                proof {
                    lemma_extend_cons(toks_v(out@), two@, sp, lex_from(s@, i + 2, file));
                }
                push_tok(&mut out, two, sp);
                step = Ok((i + 2, p2.0, p2.1));
            } else {
                proof {
                    lemma_extend_cons(toks_v(out@), one@, sp, lex_from(s@, i + 1, file));
                }
                push_tok(&mut out, one, sp);
                step = Ok((i + 1, p.0, p.1));
            }
        } else if ch == '&' || ch == '|' {
            if i + 1 < n && s[i + 1] == ch {
                let p = step_pos(&s, i, line, col);
                let p2 = step_pos(&s, i + 1, p.0, p.1);
                let t = if ch == '&' { Token::AndAnd } else { Token::OrOr };
                proof {
                    lemma_extend_cons(toks_v(out@), t@, sp, lex_from(s@, i + 2, file));
                }
                push_tok(&mut out, t, sp);
                step = Ok((i + 2, p2.0, p2.1));
            } else if ch == '&' {
                step = Err(CompileError::at(sp, String::from_str("unexpected '&' (did you mean '&&'?)")));
            } else {
                step = Err(CompileError::at(sp, String::from_str("unexpected '|' (did you mean '||'?)")));
            }
        } else if ch == '"' {
            step = read_string(&s, i, line, col, file, &mut out);
        } else if digit_test(ch) {
            step = read_number(&s, i, line, col, file, &mut out);
        } else if alpha_test(ch) || ch == '_' {
            step = read_word(&s, i, line, col, file, &mut out);
        } else {
            let d = char_debug(ch);
            step = Err(unexpected_char_error(sp, d.as_str()));
        }
        match step {
            Ok((j, l, c)) => {
                i = j;
                line = l;
                col = c;
            },
            Err(e) => {
                return Err(e);
            },
        }
    }
    assert(lex_from(s@, n as int, file) == Ok::<Seq<(TokenV, Span)>, ErrorV>(Seq::empty()));
    assert(toks_v(out@) + Seq::<(TokenV, Span)>::empty() =~= toks_v(out@));
    Ok(out)
}

// ---------------------------------------------------------------------------
// Every token carries the file id it was lexed with.

pub open spec fn all_in_file(ts: Seq<(TokenV, Span)>, file: u32) -> bool {
    forall|k: int| 0 <= k < ts.len() ==> #[trigger] ts[k].1.file == file
}

proof fn lemma_cons_in_file(t: TokenV, sp: Span, rest: LexResult, file: u32)
    requires
        sp.file == file,
        rest matches Ok(r) ==> all_in_file(r, file),
    ensures
        cons(t, sp, rest) matches Ok(r) ==> all_in_file(r, file),
{
    if let Ok(r) = rest {
        let out = seq![(t, sp)] + r;
        assert forall|k: int| 0 <= k < out.len() implies #[trigger] out[k].1.file == file by {
            if k > 0 {
                assert(out[k] == r[k - 1]);
            }
        }
    }
}

pub proof fn lemma_lex_from_file(s: Seq<char>, i: int, file: u32)
    ensures
        lex_from(s, i, file) matches Ok(r) ==> all_in_file(r, file),
    decreases s.len() - i, 0int,
{
    if 0 <= i < s.len() {
        let c = s[i];
        let sp = span_at(s, i, file);
        if is_space(c) {
            lemma_lex_from_file(s, i + 1, file);
        } else if c == '/' {
            if i + 1 < s.len() && s[i + 1] == '/' {
                lemma_lex_comment_file(s, i + 1, file);
            } else {
                lemma_lex_from_file(s, i + 1, file);
                lemma_cons_in_file(TokenV::Slash, sp, lex_from(s, i + 1, file), file);
            }
        } else if single_tok(c) is Some {
            lemma_lex_from_file(s, i + 1, file);
            lemma_cons_in_file(single_tok(c).unwrap(), sp, lex_from(s, i + 1, file), file);
        } else if pair_tok(c) is Some {
            let (c2, two, one) = pair_tok(c).unwrap();
            if i + 1 < s.len() && s[i + 1] == c2 {
                lemma_lex_from_file(s, i + 2, file);
                lemma_cons_in_file(two, sp, lex_from(s, i + 2, file), file);
            } else {
                lemma_lex_from_file(s, i + 1, file);
                lemma_cons_in_file(one, sp, lex_from(s, i + 1, file), file);
            }
        } else if c == '&' || c == '|' {
            if i + 1 < s.len() && s[i + 1] == c {
                lemma_lex_from_file(s, i + 2, file);
                lemma_cons_in_file(TokenV::AndAnd, sp, lex_from(s, i + 2, file), file);
                lemma_cons_in_file(TokenV::OrOr, sp, lex_from(s, i + 2, file), file);
            }
        } else if c == '"' {
            lemma_lex_str_file(s, i + 1, i, Seq::empty(), file);
        } else if is_digit(c) {
            lemma_lex_int_file(s, i + 1, i, file);
        } else if is_alpha(c) || c == '_' {
            lemma_lex_word_file(s, i + 1, i, file);
        }
    }
}

proof fn lemma_lex_comment_file(s: Seq<char>, k: int, file: u32)
    ensures
        lex_comment(s, k, file) matches Ok(r) ==> all_in_file(r, file),
    decreases s.len() - k, 1int,
{
    if 0 <= k < s.len() {
        if s[k] == '\n' {
            lemma_lex_from_file(s, k + 1, file);
        } else {
            lemma_lex_comment_file(s, k + 1, file);
        }
    }
}

proof fn lemma_lex_str_file(s: Seq<char>, k: int, start: int, acc: Seq<char>, file: u32)
    ensures
        lex_str(s, k, start, acc, file) matches Ok(r) ==> all_in_file(r, file),
    decreases s.len() - k, 1int,
{
    if 0 <= k < s.len() {
        if s[k] == '"' {
            lemma_lex_from_file(s, k + 1, file);
            lemma_cons_in_file(TokenV::Str(acc), span_at(s, start, file), lex_from(s, k + 1, file), file);
        } else if s[k] == '\\' {
            if k + 1 < s.len() && escape_char(s[k + 1]) is Some {
                lemma_lex_str_file(s, k + 2, start, acc.push(escape_char(s[k + 1]).unwrap()), file);
            }
        } else {
            lemma_lex_str_file(s, k + 1, start, acc.push(s[k]), file);
        }
    }
}

proof fn lemma_lex_int_file(s: Seq<char>, k: int, start: int, file: u32)
    ensures
        lex_int(s, k, start, file) matches Ok(r) ==> all_in_file(r, file),
    decreases s.len() - k, 1int,
{
    if 0 <= k < s.len() && is_digit(s[k]) {
        lemma_lex_int_file(s, k + 1, start, file);
    } else if 0 <= k && k + 1 < s.len() && s[k] == '.' && is_digit(s[k + 1]) {
        lemma_lex_frac_file(s, k + 1, start, file);
    } else {
        let text = s.subrange(start, k);
        lemma_lex_from_file(s, k, file);
        lemma_cons_in_file(TokenV::Int(digits_value(text) as i64), span_at(s, start, file), lex_from(s, k, file), file);
    }
}

proof fn lemma_lex_frac_file(s: Seq<char>, k: int, start: int, file: u32)
    ensures
        lex_frac(s, k, start, file) matches Ok(r) ==> all_in_file(r, file),
    decreases s.len() - k, 1int,
{
    if 0 <= k < s.len() && is_digit(s[k]) {
        lemma_lex_frac_file(s, k + 1, start, file);
    } else {
        lemma_lex_from_file(s, k, file);
        lemma_cons_in_file(TokenV::Float(s.subrange(start, k)), span_at(s, start, file), lex_from(s, k, file), file);
    }
}

proof fn lemma_lex_word_file(s: Seq<char>, k: int, start: int, file: u32)
    ensures
        lex_word(s, k, start, file) matches Ok(r) ==> all_in_file(r, file),
    decreases s.len() - k, 1int,
{
    if 0 <= k < s.len() && is_ident_char(s[k]) {
        lemma_lex_word_file(s, k + 1, start, file);
    } else {
        lemma_lex_from_file(s, k, file);
        lemma_cons_in_file(word_tok(s.subrange(start, k)), span_at(s, start, file), lex_from(s, k, file), file);
    }
}

proof fn lemma_tag_determines(a: Token, b: Token)
    requires
        !a.has_payload(),
        !b.has_payload(),
    ensures
        (a.tag_spec() == b.tag_spec()) == (a@ == b@),
{
}


// ---------------------------------------------------------------------------
// Where tokens stand: in the order of the text, in the file lexed.

/// `a` comes strictly before `b` (by line, then column).
pub open spec fn before(a: Span, b: Span) -> bool {
    a.line < b.line || (a.line == b.line && a.col < b.col)
}

/// `a` is at `b` or after it.
pub open spec fn at_or_after(a: Span, b: Span) -> bool {
    !before(a, b)
}

/// A span in `file` with a 1-based line and column.
pub open spec fn good_span(sp: Span, file: u32) -> bool {
    sp.file == file && sp.line >= 1 && sp.col >= 1
}

/// What lexing from the position `from` gives: tokens in `file`, at or
/// after `from`, each strictly before the next; or an error reported at a
/// position in `file`.
pub open spec fn placed(r: LexResult, from: Span, file: u32) -> bool {
    match r {
        Ok(v) => {
            &&& forall|k: int| 0 <= k < v.len() ==> good_span(#[trigger] v[k].1, file) && at_or_after(v[k].1, from)
            &&& forall|a: int, b: int| 0 <= a < b < v.len() ==> before(#[trigger] v[a].1, #[trigger] v[b].1)
        },
        Err(e) => e.span matches Some(sp) && good_span(sp, file),
    }
}

proof fn lemma_pos_order(s: Seq<char>, j: int, j2: int)
    requires
        0 <= j < j2,
    ensures
        pos_at(s, j).0 < pos_at(s, j2).0 || (pos_at(s, j).0 == pos_at(s, j2).0 && pos_at(s, j).1 < pos_at(s, j2).1),
    decreases j2,
{
    if j < j2 - 1 {
        lemma_pos_order(s, j, j2 - 1);
    }
}

proof fn lemma_span_order(s: Seq<char>, j: int, j2: int, file: u32)
    requires
        positions_fit(s),
        0 <= j < j2 <= s.len(),
    ensures
        before(span_at(s, j, file), span_at(s, j2, file)),
        good_span(span_at(s, j, file), file),
        good_span(span_at(s, j2, file), file),
{
    lemma_pos_order(s, j, j2);
    lemma_pos_bound(s, j);
    lemma_pos_bound(s, j2);
    assert(pos_at(s, j).0 <= u32::MAX && pos_at(s, j).1 <= u32::MAX);
    assert(pos_at(s, j2).0 <= u32::MAX && pos_at(s, j2).1 <= u32::MAX);
}

proof fn lemma_placed_weaken(r: LexResult, from2: Span, from: Span, file: u32)
    requires
        placed(r, from2, file),
        at_or_after(from2, from),
    ensures
        placed(r, from, file),
{
}

proof fn lemma_cons_placed(t: TokenV, sp: Span, rest: LexResult, rest_from: Span, file: u32)
    requires
        good_span(sp, file),
        placed(rest, rest_from, file),
        before(sp, rest_from),
    ensures
        placed(cons(t, sp, rest), sp, file),
{
    if let Ok(r) = rest {
        let out = seq![(t, sp)] + r;
        assert forall|k: int| 0 <= k < out.len() implies good_span(#[trigger] out[k].1, file) && at_or_after(out[k].1, sp) by {
            if k > 0 {
                assert(out[k] == r[k - 1]);
            }
        }
        assert forall|a: int, b: int| 0 <= a < b < out.len() implies before(#[trigger] out[a].1, #[trigger] out[b].1) by {
            assert(out[b] == r[b - 1]);
            if a > 0 {
                assert(out[a] == r[a - 1]);
            }
        }
    }
}

proof fn lemma_lex_from_placed(s: Seq<char>, i: int, file: u32)
    requires
        positions_fit(s),
        0 <= i <= s.len(),
    ensures
        placed(lex_from(s, i, file), span_at(s, i, file), file),
    decreases s.len() - i, 0int,
{
    if i < s.len() {
        let c = s[i];
        let sp = span_at(s, i, file);
        lemma_span_order(s, i, i + 1, file);
        if is_space(c) {
            lemma_lex_from_placed(s, i + 1, file);
            lemma_placed_weaken(lex_from(s, i + 1, file), span_at(s, i + 1, file), sp, file);
        } else if c == '/' {
            if i + 1 < s.len() && s[i + 1] == '/' {
                lemma_lex_comment_placed(s, i + 1, file);
                lemma_placed_weaken(lex_comment(s, i + 1, file), span_at(s, i + 1, file), sp, file);
            } else {
                lemma_lex_from_placed(s, i + 1, file);
                lemma_cons_placed(TokenV::Slash, sp, lex_from(s, i + 1, file), span_at(s, i + 1, file), file);
            }
        } else if single_tok(c) is Some {
            lemma_lex_from_placed(s, i + 1, file);
            lemma_cons_placed(single_tok(c).unwrap(), sp, lex_from(s, i + 1, file), span_at(s, i + 1, file), file);
        } else if pair_tok(c) is Some {
            let (c2, two, one) = pair_tok(c).unwrap();
            if i + 1 < s.len() && s[i + 1] == c2 {
                lemma_span_order(s, i, i + 2, file);
                lemma_lex_from_placed(s, i + 2, file);
                lemma_cons_placed(two, sp, lex_from(s, i + 2, file), span_at(s, i + 2, file), file);
            } else {
                lemma_lex_from_placed(s, i + 1, file);
                lemma_cons_placed(one, sp, lex_from(s, i + 1, file), span_at(s, i + 1, file), file);
            }
        } else if c == '&' || c == '|' {
            if i + 1 < s.len() && s[i + 1] == c {
                lemma_span_order(s, i, i + 2, file);
                lemma_lex_from_placed(s, i + 2, file);
                lemma_cons_placed(TokenV::AndAnd, sp, lex_from(s, i + 2, file), span_at(s, i + 2, file), file);
                lemma_cons_placed(TokenV::OrOr, sp, lex_from(s, i + 2, file), span_at(s, i + 2, file), file);
            }
        } else if c == '"' {
            lemma_lex_str_placed(s, i + 1, i, Seq::empty(), file);
        } else if is_digit(c) {
            lemma_lex_int_placed(s, i + 1, i, file);
        } else if is_alpha(c) || c == '_' {
            lemma_lex_word_placed(s, i + 1, i, file);
        }
    }
}

proof fn lemma_lex_comment_placed(s: Seq<char>, k: int, file: u32)
    requires
        positions_fit(s),
        0 <= k <= s.len(),
    ensures
        placed(lex_comment(s, k, file), span_at(s, k, file), file),
    decreases s.len() - k, 1int,
{
    if k < s.len() {
        lemma_span_order(s, k, k + 1, file);
        if s[k] == '\n' {
            lemma_lex_from_placed(s, k + 1, file);
            lemma_placed_weaken(lex_from(s, k + 1, file), span_at(s, k + 1, file), span_at(s, k, file), file);
        } else {
            lemma_lex_comment_placed(s, k + 1, file);
            lemma_placed_weaken(lex_comment(s, k + 1, file), span_at(s, k + 1, file), span_at(s, k, file), file);
        }
    }
}

proof fn lemma_lex_str_placed(s: Seq<char>, k: int, start: int, acc: Seq<char>, file: u32)
    requires
        positions_fit(s),
        0 <= start < k <= s.len(),
    ensures
        placed(lex_str(s, k, start, acc, file), span_at(s, start, file), file),
    decreases s.len() - k, 1int,
{
    lemma_span_order(s, start, k, file);
    if k < s.len() {
        if s[k] == '"' {
            lemma_span_order(s, start, k + 1, file);
            lemma_lex_from_placed(s, k + 1, file);
            lemma_cons_placed(TokenV::Str(acc), span_at(s, start, file), lex_from(s, k + 1, file), span_at(s, k + 1, file), file);
        } else if s[k] == '\\' {
            if k + 1 < s.len() && escape_char(s[k + 1]) is Some {
                lemma_lex_str_placed(s, k + 2, start, acc.push(escape_char(s[k + 1]).unwrap()), file);
            }
        } else {
            lemma_lex_str_placed(s, k + 1, start, acc.push(s[k]), file);
        }
    }
}

proof fn lemma_lex_int_placed(s: Seq<char>, k: int, start: int, file: u32)
    requires
        positions_fit(s),
        0 <= start < k <= s.len(),
    ensures
        placed(lex_int(s, k, start, file), span_at(s, start, file), file),
    decreases s.len() - k, 1int,
{
    lemma_span_order(s, start, k, file);
    if 0 <= k < s.len() && is_digit(s[k]) {
        lemma_lex_int_placed(s, k + 1, start, file);
    } else if 0 <= k && k + 1 < s.len() && s[k] == '.' && is_digit(s[k + 1]) {
        lemma_lex_frac_placed(s, k + 1, start, file);
    } else {
        let text = s.subrange(start, k);
        lemma_lex_from_placed(s, k, file);
        lemma_cons_placed(TokenV::Int(digits_value(text) as i64), span_at(s, start, file), lex_from(s, k, file), span_at(s, k, file), file);
    }
}

proof fn lemma_lex_frac_placed(s: Seq<char>, k: int, start: int, file: u32)
    requires
        positions_fit(s),
        0 <= start < k <= s.len(),
    ensures
        placed(lex_frac(s, k, start, file), span_at(s, start, file), file),
    decreases s.len() - k, 1int,
{
    lemma_span_order(s, start, k, file);
    if 0 <= k < s.len() && is_digit(s[k]) {
        lemma_lex_frac_placed(s, k + 1, start, file);
    } else {
        lemma_lex_from_placed(s, k, file);
        lemma_cons_placed(TokenV::Float(s.subrange(start, k)), span_at(s, start, file), lex_from(s, k, file), span_at(s, k, file), file);
    }
}

proof fn lemma_lex_word_placed(s: Seq<char>, k: int, start: int, file: u32)
    requires
        positions_fit(s),
        0 <= start < k <= s.len(),
    ensures
        placed(lex_word(s, k, start, file), span_at(s, start, file), file),
    decreases s.len() - k, 1int,
{
    lemma_span_order(s, start, k, file);
    if 0 <= k < s.len() && is_ident_char(s[k]) {
        lemma_lex_word_placed(s, k + 1, start, file);
    } else {
        lemma_lex_from_placed(s, k, file);
        lemma_cons_placed(word_tok(s.subrange(start, k)), span_at(s, start, file), lex_from(s, k, file), span_at(s, k, file), file);
    }
}

/// Tokens stand in the order of the text: every token of a text that
/// [`tokenize`] accepts has a 1-based position in the lexed file, each
/// token strictly before the next; and an error is reported at a 1-based
/// position in that file.
pub proof fn law_token_positions(s: Seq<char>, file: u32)
    requires
        positions_fit(s),
    ensures
        match lex(s, file) {
            Ok(v) => {
                &&& forall|k: int| 0 <= k < v.len() ==> good_span(#[trigger] v[k].1, file)
                &&& forall|a: int, b: int| 0 <= a < b < v.len() ==> before(#[trigger] v[a].1, #[trigger] v[b].1)
            },
            Err(e) => e.span matches Some(sp) && good_span(sp, file),
        },
{
    lemma_lex_from_placed(s, 0, file);
}


// ---------------------------------------------------------------------------
// The file id only labels positions.

/// `sp` moved to the file `f`.
pub open spec fn refile(sp: Span, f: u32) -> Span {
    Span { file: f, ..sp }
}

/// A lexing result with every position moved to the file `f`.
pub open spec fn refile_result(r: LexResult, f: u32) -> LexResult {
    match r {
        Ok(v) => Ok(v.map_values(|p: (TokenV, Span)| (p.0, refile(p.1, f)))),
        Err(e) => Err(
            ErrorV {
                span: match e.span {
                    Some(sp) => Some(refile(sp, f)),
                    None => None,
                },
                msg: e.msg,
            },
        ),
    }
}

proof fn lemma_cons_refile(t: TokenV, sp: Span, rest: LexResult, f: u32)
    ensures
        cons(t, refile(sp, f), refile_result(rest, f)) == refile_result(cons(t, sp, rest), f),
{
    if let Ok(r) = rest {
        assert(seq![(t, refile(sp, f))] + r.map_values(|p: (TokenV, Span)| (p.0, refile(p.1, f)))
            =~= (seq![(t, sp)] + r).map_values(|p: (TokenV, Span)| (p.0, refile(p.1, f))));
    }
}

proof fn lemma_lex_from_refile(s: Seq<char>, i: int, f1: u32, f2: u32)
    ensures
        lex_from(s, i, f2) == refile_result(lex_from(s, i, f1), f2),
    decreases s.len() - i, 0int,
{
    if i < 0 || i >= s.len() {
        assert(Seq::<(TokenV, Span)>::empty().map_values(|p: (TokenV, Span)| (p.0, refile(p.1, f2)))
            =~= Seq::<(TokenV, Span)>::empty());
    } else {
        let c = s[i];
        let sp = span_at(s, i, f1);
        assert(span_at(s, i, f2) == refile(sp, f2));
        if is_space(c) {
            lemma_lex_from_refile(s, i + 1, f1, f2);
        } else if c == '/' {
            if i + 1 < s.len() && s[i + 1] == '/' {
                lemma_lex_comment_refile(s, i + 1, f1, f2);
            } else {
                lemma_lex_from_refile(s, i + 1, f1, f2);
                lemma_cons_refile(TokenV::Slash, sp, lex_from(s, i + 1, f1), f2);
            }
        } else if single_tok(c) is Some {
            lemma_lex_from_refile(s, i + 1, f1, f2);
            lemma_cons_refile(single_tok(c).unwrap(), sp, lex_from(s, i + 1, f1), f2);
        } else if pair_tok(c) is Some {
            let (c2, two, one) = pair_tok(c).unwrap();
            if i + 1 < s.len() && s[i + 1] == c2 {
                lemma_lex_from_refile(s, i + 2, f1, f2);
                lemma_cons_refile(two, sp, lex_from(s, i + 2, f1), f2);
            } else {
                lemma_lex_from_refile(s, i + 1, f1, f2);
                lemma_cons_refile(one, sp, lex_from(s, i + 1, f1), f2);
            }
        } else if c == '&' || c == '|' {
            if i + 1 < s.len() && s[i + 1] == c {
                lemma_lex_from_refile(s, i + 2, f1, f2);
                lemma_cons_refile(TokenV::AndAnd, sp, lex_from(s, i + 2, f1), f2);
                lemma_cons_refile(TokenV::OrOr, sp, lex_from(s, i + 2, f1), f2);
            }
        } else if c == '"' {
            lemma_lex_str_refile(s, i + 1, i, Seq::empty(), f1, f2);
        } else if is_digit(c) {
            lemma_lex_int_refile(s, i + 1, i, f1, f2);
        } else if is_alpha(c) || c == '_' {
            lemma_lex_word_refile(s, i + 1, i, f1, f2);
        }
    }
}

proof fn lemma_lex_comment_refile(s: Seq<char>, k: int, f1: u32, f2: u32)
    ensures
        lex_comment(s, k, f2) == refile_result(lex_comment(s, k, f1), f2),
    decreases s.len() - k, 1int,
{
    if 0 <= k < s.len() {
        if s[k] == '\n' {
            lemma_lex_from_refile(s, k + 1, f1, f2);
        } else {
            lemma_lex_comment_refile(s, k + 1, f1, f2);
        }
    } else {
        assert(Seq::<(TokenV, Span)>::empty().map_values(|p: (TokenV, Span)| (p.0, refile(p.1, f2)))
            =~= Seq::<(TokenV, Span)>::empty());
    }
}

proof fn lemma_lex_str_refile(s: Seq<char>, k: int, start: int, acc: Seq<char>, f1: u32, f2: u32)
    ensures
        lex_str(s, k, start, acc, f2) == refile_result(lex_str(s, k, start, acc, f1), f2),
    decreases s.len() - k, 1int,
{
    assert(span_at(s, start, f2) == refile(span_at(s, start, f1), f2));
    if 0 <= k < s.len() {
        if s[k] == '"' {
            lemma_lex_from_refile(s, k + 1, f1, f2);
            lemma_cons_refile(TokenV::Str(acc), span_at(s, start, f1), lex_from(s, k + 1, f1), f2);
        } else if s[k] == '\\' {
            if k + 1 < s.len() && escape_char(s[k + 1]) is Some {
                lemma_lex_str_refile(s, k + 2, start, acc.push(escape_char(s[k + 1]).unwrap()), f1, f2);
            }
        } else {
            lemma_lex_str_refile(s, k + 1, start, acc.push(s[k]), f1, f2);
        }
    }
}

proof fn lemma_lex_int_refile(s: Seq<char>, k: int, start: int, f1: u32, f2: u32)
    ensures
        lex_int(s, k, start, f2) == refile_result(lex_int(s, k, start, f1), f2),
    decreases s.len() - k, 1int,
{
    assert(span_at(s, start, f2) == refile(span_at(s, start, f1), f2));
    if 0 <= k < s.len() && is_digit(s[k]) {
        lemma_lex_int_refile(s, k + 1, start, f1, f2);
    } else if 0 <= k && k + 1 < s.len() && s[k] == '.' && is_digit(s[k + 1]) {
        lemma_lex_frac_refile(s, k + 1, start, f1, f2);
    } else {
        let text = s.subrange(start, k);
        lemma_lex_from_refile(s, k, f1, f2);
        lemma_cons_refile(TokenV::Int(digits_value(text) as i64), span_at(s, start, f1), lex_from(s, k, f1), f2);
    }
}

proof fn lemma_lex_frac_refile(s: Seq<char>, k: int, start: int, f1: u32, f2: u32)
    ensures
        lex_frac(s, k, start, f2) == refile_result(lex_frac(s, k, start, f1), f2),
    decreases s.len() - k, 1int,
{
    assert(span_at(s, start, f2) == refile(span_at(s, start, f1), f2));
    if 0 <= k < s.len() && is_digit(s[k]) {
        lemma_lex_frac_refile(s, k + 1, start, f1, f2);
    } else {
        lemma_lex_from_refile(s, k, f1, f2);
        lemma_cons_refile(TokenV::Float(s.subrange(start, k)), span_at(s, start, f1), lex_from(s, k, f1), f2);
    }
}

proof fn lemma_lex_word_refile(s: Seq<char>, k: int, start: int, f1: u32, f2: u32)
    ensures
        lex_word(s, k, start, f2) == refile_result(lex_word(s, k, start, f1), f2),
    decreases s.len() - k, 1int,
{
    assert(span_at(s, start, f2) == refile(span_at(s, start, f1), f2));
    if 0 <= k < s.len() && is_ident_char(s[k]) {
        lemma_lex_word_refile(s, k + 1, start, f1, f2);
    } else {
        lemma_lex_from_refile(s, k, f1, f2);
        lemma_cons_refile(word_tok(s.subrange(start, k)), span_at(s, start, f1), lex_from(s, k, f1), f2);
    }
}

/// The file id only labels positions: lexing a text under another file id
/// gives the same tokens, or the same error message, at the same lines and
/// columns, with only the file changed.
pub proof fn law_file_id_only_labels(s: Seq<char>, f1: u32, f2: u32)
    ensures
        lex(s, f2) == refile_result(lex(s, f1), f2),
        lex(s, f1) is Ok <==> lex(s, f2) is Ok,
{
    lemma_lex_from_refile(s, 0, f1, f2);
}


// ---------------------------------------------------------------------------
// Words of letters.

/// An ASCII letter, upper or lower case.
pub open spec fn ascii_letter(c: char) -> bool {
    ('a' <= c && c <= 'z') || ('A' <= c && c <= 'Z')
}

proof fn lemma_letters_word(w: Seq<char>, k: int, file: u32)
    requires
        1 <= k <= w.len(),
        forall|i: int| 0 <= i < w.len() ==> ascii_letter(#[trigger] w[i]),
    ensures
        lex_word(w, k, 0, file) == Ok::<Seq<(TokenV, Span)>, ErrorV>(seq![(word_tok(w), span_at(w, 0, file))]),
    decreases w.len() - k,
{
    if k < w.len() {
        assert(ascii_letter(w[k]));
        assert(is_ident_char(w[k]));
        lemma_letters_word(w, k + 1, file);
        assert(lex_word(w, k, 0, file) == lex_word(w, k + 1, 0, file));
    } else {
        assert(w.subrange(0, k) =~= w);
        assert(lex_from(w, k, file) == Ok::<Seq<(TokenV, Span)>, ErrorV>(Seq::empty()));
        assert(seq![(word_tok(w), span_at(w, 0, file))] + Seq::<(TokenV, Span)>::empty()
            =~= seq![(word_tok(w), span_at(w, 0, file))]);
        assert(lex_word(w, k, 0, file) == cons(word_tok(w), span_at(w, 0, file), lex_from(w, k, file)));
    }
}

/// Every ASCII letter, upper and lower case, starts and continues a word:
/// a text made only of letters lexes to one token, the word (an identifier
/// unless it is a keyword), at line 1, column 1.
pub proof fn law_letter_words(w: Seq<char>, file: u32)
    requires
        w.len() > 0,
        forall|i: int| 0 <= i < w.len() ==> ascii_letter(#[trigger] w[i]),
    ensures
        lex(w, file) == Ok::<Seq<(TokenV, Span)>, ErrorV>(seq![(word_tok(w), span_at(w, 0, file))]),
        span_at(w, 0, file) == (Span { file, line: 1, col: 1 }),
        word_tok(w) is Ident ==> word_tok(w) == TokenV::Ident(w),
{
    assert(ascii_letter(w[0]));
    lemma_letters_word(w, 1, file);
}


// ---------------------------------------------------------------------------
// Numbers written in decimal.

/// An ASCII decimal digit.
pub open spec fn ascii_digit(c: char) -> bool {
    '0' <= c && c <= '9'
}

proof fn lemma_digits_number(w: Seq<char>, k: int, file: u32)
    requires
        1 <= k <= w.len(),
        forall|i: int| 0 <= i < w.len() ==> ascii_digit(#[trigger] w[i]),
        digits_value(w) <= i64::MAX,
    ensures
        lex_int(w, k, 0, file) == Ok::<Seq<(TokenV, Span)>, ErrorV>(
            seq![(TokenV::Int(digits_value(w) as i64), span_at(w, 0, file))],
        ),
    decreases w.len() - k,
{
    if k < w.len() {
        assert(ascii_digit(w[k]));
        assert(is_digit(w[k]));
        lemma_digits_number(w, k + 1, file);
    } else {
        assert(w.subrange(0, k) =~= w);
        assert(lex_from(w, k, file) == Ok::<Seq<(TokenV, Span)>, ErrorV>(Seq::empty()));
        assert(seq![(TokenV::Int(digits_value(w) as i64), span_at(w, 0, file))]
            + Seq::<(TokenV, Span)>::empty() =~= seq![(TokenV::Int(digits_value(w) as i64), span_at(w, 0, file))]);
    }
}

/// Every ASCII digit starts and continues a number: a text made only of
/// the digits `0` to `9`, whose value fits in a signed 64-bit integer,
/// lexes to one integer token with that value, at line 1, column 1.
pub proof fn law_digit_numbers(w: Seq<char>, file: u32)
    requires
        w.len() > 0,
        forall|i: int| 0 <= i < w.len() ==> ascii_digit(#[trigger] w[i]),
        digits_value(w) <= i64::MAX,
    ensures
        lex(w, file) == Ok::<Seq<(TokenV, Span)>, ErrorV>(
            seq![(TokenV::Int(digits_value(w) as i64), span_at(w, 0, file))],
        ),
        span_at(w, 0, file) == (Span { file, line: 1, col: 1 }),
{
    assert(ascii_digit(w[0]));
    lemma_digits_number(w, 1, file);
}

proof fn lemma_decimal_text(n: nat)
    ensures
        decimal_text(n).len() > 0,
        forall|i: int| 0 <= i < decimal_text(n).len() ==> ascii_digit(#[trigger] decimal_text(n)[i]),
        digits_value(decimal_text(n)) == n,
    decreases n,
{
    let t = decimal_text(n);
    if n < 10 {
        assert(digit_char(n) as int == n + 48);
        assert('0' as int == 48);
        assert(digit_value(digit_char(n)) == n);
        assert(t.drop_last() =~= Seq::<char>::empty());
        assert(digits_value(t) == digits_value(t.drop_last()) * 10 + digit_value(t.last()));
    } else {
        lemma_decimal_text(n / 10);
        let d = (n % 10) as nat;
        assert(digit_char(d) as int == d + 48);
        assert('0' as int == 48);
        assert(digit_value(digit_char(d)) == d);
        assert(t.drop_last() =~= decimal_text(n / 10));
        assert(t.last() == digit_char(d));
        assert(digits_value(t) == digits_value(t.drop_last()) * 10 + digit_value(t.last()));
        assert((n / 10) * 10 + n % 10 == n);
    }
}

/// A number written in decimal reads back as that number: the decimal
/// text of every integer from 0 to `i64::MAX` (as positions and counts are
/// printed) lexes to one integer token holding it.
pub proof fn law_decimal_round_trip(n: nat, file: u32)
    requires
        n <= i64::MAX,
    ensures
        lex(decimal_text(n), file) == Ok::<Seq<(TokenV, Span)>, ErrorV>(
            seq![(TokenV::Int(n as i64), span_at(decimal_text(n), 0, file))],
        ),
{
    lemma_decimal_text(n);
    law_digit_numbers(decimal_text(n), file);
}


// ---------------------------------------------------------------------------
// Writing a string literal.

/// How a character is written inside a string literal: a newline, a tab, a
/// backslash, a double quote and a NUL with their escapes, every other
/// character as itself.
pub open spec fn quoted_char(c: char) -> Seq<char> {
    if c == '\n' {
        seq!['\\', 'n']
    } else if c == '\t' {
        seq!['\\', 't']
    } else if c == '\\' {
        seq!['\\', '\\']
    } else if c == '"' {
        seq!['\\', '"']
    } else if c == '\0' {
        seq!['\\', '0']
    } else {
        seq![c]
    }
}

/// The body of a string literal that holds `t`.
pub open spec fn quoted_text(t: Seq<char>) -> Seq<char>
    decreases t.len(),
{
    if t.len() == 0 {
        Seq::empty()
    } else {
        quoted_text(t.drop_last()) + quoted_char(t.last())
    }
}

/// The string literal that holds `t`, quotes included.
pub open spec fn string_literal(t: Seq<char>) -> Seq<char> {
    seq!['"'] + quoted_text(t) + seq!['"']
}

proof fn lemma_quoted_prefix(t: Seq<char>, j: int)
    requires
        0 <= j <= t.len(),
    ensures
        quoted_text(t.take(j)).len() <= quoted_text(t).len(),
        quoted_text(t).take(quoted_text(t.take(j)).len() as int) == quoted_text(t.take(j)),
    decreases t.len(),
{
    if j == t.len() {
        assert(t.take(j) =~= t);
        assert(quoted_text(t).take(quoted_text(t).len() as int) =~= quoted_text(t));
    } else {
        let u = t.drop_last();
        assert(t.take(j) =~= u.take(j));
        lemma_quoted_prefix(u, j);
        let a = quoted_text(u.take(j));
        assert(quoted_text(t).take(a.len() as int) =~= quoted_text(u).take(a.len() as int));
    }
}

proof fn lemma_quoted_step(t: Seq<char>, j: int)
    requires
        0 <= j < t.len(),
    ensures
        quoted_text(t.take(j + 1)) == quoted_text(t.take(j)) + quoted_char(t[j]),
{
    assert(t.take(j + 1).drop_last() =~= t.take(j));
    assert(t.take(j + 1).last() == t[j]);
}

proof fn lemma_str_step(s: Seq<char>, k: int, acc: Seq<char>, c: char, file: u32)
    requires
        0 <= k,
        k + quoted_char(c).len() <= s.len(),
        forall|m: int| 0 <= m < quoted_char(c).len() ==> s[k + m] == #[trigger] quoted_char(c)[m],
    ensures
        lex_str(s, k, 0, acc, file) == lex_str(s, k + quoted_char(c).len(), 0, acc.push(c), file),
{
    let qc = quoted_char(c);
    assert(s[k] == qc[0]);
    if c == '\n' || c == '\t' || c == '\\' || c == '"' || c == '\0' {
        assert(s[k + 1] == qc[1]);
        assert(escape_char(s[k + 1]) == Some(c));
    }
}

proof fn lemma_literal_at(t: Seq<char>, j: int)
    requires
        0 <= j < t.len(),
    ensures
        1 + quoted_text(t.take(j)).len() + quoted_char(t[j]).len() == 1 + quoted_text(t.take(j + 1)).len(),
        1 + quoted_text(t.take(j + 1)).len() <= string_literal(t).len() - 1,
        forall|m: int| 0 <= m < quoted_char(t[j]).len() ==> string_literal(t)[1 + quoted_text(t.take(j)).len() + m]
            == #[trigger] quoted_char(t[j])[m],
{
    let s = string_literal(t);
    let q = quoted_text(t);
    let a = quoted_text(t.take(j));
    let qc = quoted_char(t[j]);
    lemma_quoted_prefix(t, j + 1);
    lemma_quoted_step(t, j);
    assert forall|m: int| 0 <= m < qc.len() implies s[1 + a.len() + m] == #[trigger] qc[m] by {
        assert(s[1 + a.len() + m] == q[a.len() + m]);
        assert(q.take((a + qc).len() as int)[a.len() + m] == (a + qc)[a.len() + m]);
    }
}

proof fn lemma_string_body(t: Seq<char>, j: int, file: u32)
    requires
        0 <= j <= t.len(),
    ensures
        lex_str(string_literal(t), 1 + quoted_text(t.take(j)).len() as int, 0, t.take(j), file)
            == Ok::<Seq<(TokenV, Span)>, ErrorV>(seq![(TokenV::Str(t), span_at(string_literal(t), 0, file))]),
    decreases t.len() - j,
{
    let s = string_literal(t);
    let k: int = 1 + quoted_text(t.take(j)).len() as int;
    if j == t.len() {
        assert(t.take(j) =~= t);
        assert(s[k] == '"');
        assert(lex_from(s, k + 1, file) == Ok::<Seq<(TokenV, Span)>, ErrorV>(Seq::empty()));
        assert(seq![(TokenV::Str(t), span_at(s, 0, file))] + Seq::<(TokenV, Span)>::empty()
            =~= seq![(TokenV::Str(t), span_at(s, 0, file))]);
    } else {
        lemma_literal_at(t, j);
        lemma_string_body(t, j + 1, file);
        lemma_str_step(s, k, t.take(j), t[j], file);
        assert(t.take(j).push(t[j]) =~= t.take(j + 1));
    }
}

/// A string reads back from the literal that writes it: for every text,
/// the literal made of its characters in double quotes, each newline, tab,
/// backslash, double quote and NUL written with its escape, lexes to one
/// string token holding exactly that text.
pub proof fn law_string_round_trip(t: Seq<char>, file: u32)
    ensures
        lex(string_literal(t), file) == Ok::<Seq<(TokenV, Span)>, ErrorV>(
            seq![(TokenV::Str(t), span_at(string_literal(t), 0, file))],
        ),
{
    assert(t.take(0) =~= Seq::<char>::empty());
    lemma_string_body(t, 0, file);
    assert(string_literal(t)[0] == '"');
}

} // verus!
