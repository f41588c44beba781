//! The lexer: source text to tokens with their line and column.

use vstd::prelude::*;
use crate::ast::FloatValue;
use crate::text::{chars_of, digits_value, is_digit, nat_digits, parse_digits_i64, push_char, push_nat, push_str,
    push_string, string_of};

verus! {

// ---------------------------------------------------------------------------
// Tokens
// ---------------------------------------------------------------------------

/// A floating literal: its spelling, and its value once the host's `f64`
/// routines have converted it (the lexer leaves it unset).
#[derive(Debug, Clone, PartialEq)]
pub struct FloatLit {
    pub text: String,
    pub value: Option<FloatValue>,
}

/// The kinds of token.
#[derive(Debug, Clone, PartialEq)]
pub enum TokenType {
    IntLiteral(i64),
    FloatLiteral(FloatLit),
    StringLiteral(String),
    Identifier(String),
    Plus, Minus, Star, Slash, Percent,
    Ampersand, Pipe, Caret,
    LessLess, GreaterGreater,
    EqualEqual, BangEqual,
    Less, LessEqual, Greater, GreaterEqual,
    Bang, Tilde,
    LBrace, RBrace, LParen, RParen,
    Dot, DotDot, Colon, Comma,
    Header, Input, Module,
    If, Else, While,
    Func, Return,
    Newline, Eof,
}

/// A token and where it stands.
#[derive(Debug, Clone, PartialEq)]
pub struct Token {
    pub token_type: TokenType,
    pub line: usize,
    pub column: usize,
}

/// A token kind with its text as a character sequence.
pub enum TokenTypeV {
    IntLiteral(i64),
    /// A floating literal by its spelling, and its bits, display and debug
    /// texts once converted.
    FloatLiteral(Seq<char>, Option<(u64, Seq<char>, Seq<char>)>),
    StringLiteral(Seq<char>),
    Identifier(Seq<char>),
    Plus, Minus, Star, Slash, Percent,
    Ampersand, Pipe, Caret,
    LessLess, GreaterGreater,
    EqualEqual, BangEqual,
    Less, LessEqual, Greater, GreaterEqual,
    Bang, Tilde,
    LBrace, RBrace, LParen, RParen,
    Dot, DotDot, Colon, Comma,
    Header, Input, Module,
    If, Else, While,
    Func, Return,
    Newline, Eof,
}

/// A token with its text as a character sequence.
pub struct TokenV {
    pub ty: TokenTypeV,
    pub line: int,
    pub column: int,
}

impl View for TokenType {
    type V = TokenTypeV;

    open spec fn view(&self) -> TokenTypeV {
        match *self {
            TokenType::IntLiteral(v) => TokenTypeV::IntLiteral(v),
            TokenType::FloatLiteral(f) => TokenTypeV::FloatLiteral(f.text@, match f.value {
                Some(v) => Some((v.bits, v.display@, v.debug@)),
                None => None,
            }),
            TokenType::StringLiteral(s) => TokenTypeV::StringLiteral(s@),
            TokenType::Identifier(s) => TokenTypeV::Identifier(s@),
            TokenType::Plus => TokenTypeV::Plus,
            TokenType::Minus => TokenTypeV::Minus,
            TokenType::Star => TokenTypeV::Star,
            TokenType::Slash => TokenTypeV::Slash,
            TokenType::Percent => TokenTypeV::Percent,
            TokenType::Ampersand => TokenTypeV::Ampersand,
            TokenType::Pipe => TokenTypeV::Pipe,
            TokenType::Caret => TokenTypeV::Caret,
            TokenType::LessLess => TokenTypeV::LessLess,
            TokenType::GreaterGreater => TokenTypeV::GreaterGreater,
            TokenType::EqualEqual => TokenTypeV::EqualEqual,
            TokenType::BangEqual => TokenTypeV::BangEqual,
            TokenType::Less => TokenTypeV::Less,
            TokenType::LessEqual => TokenTypeV::LessEqual,
            TokenType::Greater => TokenTypeV::Greater,
            TokenType::GreaterEqual => TokenTypeV::GreaterEqual,
            TokenType::Bang => TokenTypeV::Bang,
            TokenType::Tilde => TokenTypeV::Tilde,
            TokenType::LBrace => TokenTypeV::LBrace,
            TokenType::RBrace => TokenTypeV::RBrace,
            TokenType::LParen => TokenTypeV::LParen,
            TokenType::RParen => TokenTypeV::RParen,
            TokenType::Dot => TokenTypeV::Dot,
            TokenType::DotDot => TokenTypeV::DotDot,
            TokenType::Colon => TokenTypeV::Colon,
            TokenType::Comma => TokenTypeV::Comma,
            TokenType::Header => TokenTypeV::Header,
            TokenType::Input => TokenTypeV::Input,
            TokenType::Module => TokenTypeV::Module,
            TokenType::If => TokenTypeV::If,
            TokenType::Else => TokenTypeV::Else,
            TokenType::While => TokenTypeV::While,
            TokenType::Func => TokenTypeV::Func,
            TokenType::Return => TokenTypeV::Return,
            TokenType::Newline => TokenTypeV::Newline,
            TokenType::Eof => TokenTypeV::Eof,
        }
    }
}

impl View for Token {
    type V = TokenV;

    open spec fn view(&self) -> TokenV {
        TokenV { ty: self.token_type@, line: self.line as int, column: self.column as int }
    }
}

/// The views of a sequence of tokens.
pub open spec fn tokens_view(ts: Seq<Token>) -> Seq<TokenV> {
    ts.map_values(|t: Token| t@)
}

// ---------------------------------------------------------------------------
// Characters
// ---------------------------------------------------------------------------

/// Unicode `White_Space` (what `char::is_whitespace` tests).
pub open spec fn is_whitespace(c: char) -> bool {
    ('\u{9}' <= c <= '\u{d}') || c == ' ' || c == '\u{85}' || c == '\u{a0}' || c == '\u{1680}'
        || ('\u{2000}' <= c <= '\u{200a}') || c == '\u{2028}' || c == '\u{2029}' || c == '\u{202f}'
        || c == '\u{205f}' || c == '\u{3000}'
}

/// An ASCII letter.
pub open spec fn is_alpha(c: char) -> bool {
    ('a' <= c <= 'z') || ('A' <= c <= 'Z')
}

/// A character that may continue an identifier.
pub open spec fn is_ident_char(c: char) -> bool {
    is_alpha(c) || is_digit(c) || c == '_'
}

/// The runs the lexer consumes in one go.
pub enum CharClass {
    /// Whitespace that ends no line.
    Blank,
    Digit,
    IdentChar,
    /// Anything up to the end of the line.
    NotNewline,
}

/// Whether a character belongs to a run.
pub open spec fn in_class(c: char, k: CharClass) -> bool {
    match k {
        CharClass::Blank => is_whitespace(c) && c != '\n' && c != '\r',
        CharClass::Digit => is_digit(c),
        CharClass::IdentChar => is_ident_char(c),
        CharClass::NotNewline => c != '\n',
    }
}

// ---------------------------------------------------------------------------
// Positions
// ---------------------------------------------------------------------------

/// Where the lexer stands: an index into the characters, and the line and
/// column (both from 1) of that character.
pub struct Pos {
    pub pos: int,
    pub line: int,
    pub col: int,
}

/// The character at `p`, if any.
pub open spec fn char_at(s: Seq<char>, p: int) -> Option<char> {
    if 0 <= p < s.len() { Some(s[p]) } else { None }
}

/// One character further: a line break starts the next line at column 1.
pub open spec fn step(s: Seq<char>, st: Pos) -> Pos {
    if char_at(s, st.pos) == Some('\n') {
        Pos { pos: st.pos + 1, line: st.line + 1, col: 1 }
    } else {
        Pos { pos: st.pos + 1, line: st.line, col: st.col + 1 }
    }
}

/// Past the run of class `k` that starts at `st`.
pub open spec fn run(s: Seq<char>, st: Pos, k: CharClass) -> Pos
    decreases s.len() - st.pos,
{
    if 0 <= st.pos < s.len() && in_class(s[st.pos], k) { run(s, step(s, st), k) } else { st }
}

// ---------------------------------------------------------------------------
// Messages
// ---------------------------------------------------------------------------

/// ` at line <line>, column <col>`.
pub open spec fn at_text(line: int, col: int) -> Seq<char> {
    " at line "@ + nat_digits(line as nat) + ", column "@ + nat_digits(col as nat)
}

/// A `=` not followed by another.
pub open spec fn unexpected_eq_msg(line: int, col: int) -> Seq<char> {
    "Unexpected '='"@ + at_text(line, col)
}

/// A character that starts no token.
pub open spec fn unexpected_char_msg(c: char, line: int, col: int) -> Seq<char> {
    "Unexpected character '"@ + seq![c] + "'"@ + at_text(line, col)
}

/// A string literal cut by a line end or the end of the text.
pub open spec fn unterminated_msg(line: int, col: int) -> Seq<char> {
    "Unterminated string literal starting"@ + at_text(line, col)
}

/// A backslash at the end of the text.
pub open spec fn unterminated_escape_msg(line: int, col: int) -> Seq<char> {
    "Unterminated escape sequence in string"@ + at_text(line, col)
}

/// An escape the language does not know.
pub open spec fn invalid_escape_msg(e: char, line: int, col: int) -> Seq<char> {
    "Invalid escape sequence '\\"@ + seq![e] + "' in string"@ + at_text(line, col)
}

/// A run of digits too large for `i64`.
pub open spec fn invalid_int_msg(text: Seq<char>, line: int, col: int) -> Seq<char> {
    "Invalid integer '"@ + text + "'"@ + at_text(line, col)
}

// ---------------------------------------------------------------------------
// Scanning
// ---------------------------------------------------------------------------

/// The character an escape stands for.
pub open spec fn escape_value(e: char) -> Option<char> {
    if e == 'n' {
        Some('\n')
    } else if e == 't' {
        Some('\t')
    } else if e == 'r' {
        Some('\r')
    } else if e == '\\' {
        Some('\\')
    } else if e == '"' {
        Some('"')
    } else if e == '0' {
        Some('\0')
    } else {
        None
    }
}

/// The rest of a string literal from `st`, its value so far `acc`: the
/// value and the position past the closing quote; or the error, with
/// `(sl, sc)` where the literal started.
pub open spec fn scan_str(s: Seq<char>, st: Pos, acc: Seq<char>, sl: int, sc: int) -> Result<(Seq<char>, Pos), Seq<char>>
    decreases s.len() - st.pos,
{
    if !(0 <= st.pos < s.len()) || s[st.pos] == '\n' {
        Err(unterminated_msg(sl, sc))
    } else if s[st.pos] == '"' {
        Ok((acc, step(s, st)))
    } else if s[st.pos] == '\\' {
        let st2 = step(s, st);
        if st2.pos >= s.len() {
            let st3 = step(s, st2);
            Err(unterminated_escape_msg(st3.line, st3.col))
        } else {
            let e = s[st2.pos];
            let st3 = step(s, st2);
            match escape_value(e) {
                Some(v) => scan_str(s, st3, acc.push(v), sl, sc),
                None => Err(invalid_escape_msg(e, st3.line, st3.col)),
            }
        }
    } else {
        scan_str(s, step(s, st), acc.push(s[st.pos]), sl, sc)
    }
}

/// The token kind of an identifier-like word: a keyword, or an identifier.
pub open spec fn keyword_or_ident(w: Seq<char>) -> TokenTypeV {
    if w == "header"@ {
        TokenTypeV::Header
    } else if w == "input"@ {
        TokenTypeV::Input
    } else if w == "module"@ {
        TokenTypeV::Module
    } else if w == "if"@ {
        TokenTypeV::If
    } else if w == "else"@ {
        TokenTypeV::Else
    } else if w == "while"@ {
        TokenTypeV::While
    } else if w == "func"@ {
        TokenTypeV::Func
    } else if w == "return"@ {
        TokenTypeV::Return
    } else {
        TokenTypeV::Identifier(w)
    }
}

/// A number whose first digit was at `st.pos - 1`: an integer, or a
/// floating literal when a `.` and a digit follow the digits.
pub open spec fn scan_num(s: Seq<char>, st: Pos) -> Result<(TokenV, Pos), Seq<char>> {
    let start = st.pos - 1;
    let sl = st.line;
    let sc = st.col - 1;
    let e1 = run(s, st, CharClass::Digit);
    if char_at(s, e1.pos) == Some('.') && (char_at(s, e1.pos + 1) matches Some(d) && is_digit(d)) {
        let e2 = run(s, step(s, e1), CharClass::Digit);
        Ok((TokenV { ty: TokenTypeV::FloatLiteral(s.subrange(start, e2.pos), None), line: sl, column: sc }, e2))
    } else {
        let text = s.subrange(start, e1.pos);
        if digits_value(text) <= i64::MAX {
            Ok((TokenV { ty: TokenTypeV::IntLiteral(digits_value(text) as i64), line: sl, column: sc }, e1))
        } else {
            Err(invalid_int_msg(text, sl, sc))
        }
    }
}

/// The token that starts at `st` (not at the end of the text, not at
/// whitespace), and the position after it; or the error.
pub open spec fn scan_token_spec(s: Seq<char>, st: Pos) -> Result<(TokenV, Pos), Seq<char>> {
    let c = s[st.pos];
    let st1 = step(s, st);
    let next = char_at(s, st1.pos);
    let at1 = |t: TokenTypeV| Ok::<(TokenV, Pos), Seq<char>>((TokenV { ty: t, line: st1.line, column: st1.col }, st1));
    let st2 = step(s, st1);
    let at2 = |t: TokenTypeV| Ok::<(TokenV, Pos), Seq<char>>((TokenV { ty: t, line: st2.line, column: st2.col }, st2));
    if c == '+' {
        at1(TokenTypeV::Plus)
    } else if c == '-' {
        at1(TokenTypeV::Minus)
    } else if c == '*' {
        at1(TokenTypeV::Star)
    } else if c == '/' {
        if next == Some('/') {
            let e = run(s, st2, CharClass::NotNewline);
            Ok((TokenV { ty: TokenTypeV::Newline, line: e.line, column: e.col }, e))
        } else {
            at1(TokenTypeV::Slash)
        }
    } else if c == '%' {
        at1(TokenTypeV::Percent)
    } else if c == '&' {
        at1(TokenTypeV::Ampersand)
    } else if c == '|' {
        at1(TokenTypeV::Pipe)
    } else if c == '^' {
        at1(TokenTypeV::Caret)
    } else if c == '!' {
        if next == Some('=') { at2(TokenTypeV::BangEqual) } else { at1(TokenTypeV::Bang) }
    } else if c == '~' {
        at1(TokenTypeV::Tilde)
    } else if c == '(' {
        at1(TokenTypeV::LParen)
    } else if c == ')' {
        at1(TokenTypeV::RParen)
    } else if c == '{' {
        at1(TokenTypeV::LBrace)
    } else if c == '}' {
        at1(TokenTypeV::RBrace)
    } else if c == '.' {
        if next == Some('.') { at2(TokenTypeV::DotDot) } else { at1(TokenTypeV::Dot) }
    } else if c == ':' {
        at1(TokenTypeV::Colon)
    } else if c == ',' {
        at1(TokenTypeV::Comma)
    } else if c == '<' {
        if next == Some('<') {
            at2(TokenTypeV::LessLess)
        } else if next == Some('=') {
            at2(TokenTypeV::LessEqual)
        } else {
            at1(TokenTypeV::Less)
        }
    } else if c == '>' {
        if next == Some('>') {
            at2(TokenTypeV::GreaterGreater)
        } else if next == Some('=') {
            at2(TokenTypeV::GreaterEqual)
        } else {
            at1(TokenTypeV::Greater)
        }
    } else if c == '=' {
        if next == Some('=') { at2(TokenTypeV::EqualEqual) } else { Err(unexpected_eq_msg(st1.line, st1.col - 1)) }
    } else if c == '"' {
        match scan_str(s, st1, Seq::empty(), st1.line, st1.col - 1) {
            Ok((v, e)) => Ok((TokenV { ty: TokenTypeV::StringLiteral(v), line: st1.line, column: st1.col - 1 }, e)),
            Err(m) => Err(m),
        }
    } else if is_digit(c) {
        scan_num(s, st1)
    } else if is_alpha(c) || c == '_' {
        let e = run(s, st1, CharClass::IdentChar);
        Ok((TokenV { ty: keyword_or_ident(s.subrange(st.pos, e.pos)), line: st1.line, column: st1.col - 1 }, e))
    } else {
        Err(unexpected_char_msg(c, st1.line, st1.col - 1))
    }
}

// ---------------------------------------------------------------------------
// Progress
// ---------------------------------------------------------------------------

/// A run ends no earlier than it starts, and within the text if it starts
/// there.
pub proof fn lemma_run(s: Seq<char>, st: Pos, k: CharClass)
    ensures
        run(s, st, k).pos >= st.pos,
        st.pos <= s.len() ==> run(s, st, k).pos <= s.len(),
        run(s, st, k).line >= st.line,
        run(s, st, k).col >= 1 || run(s, st, k).col >= st.col,
    decreases s.len() - st.pos,
{
    if 0 <= st.pos < s.len() && in_class(s[st.pos], k) {
        lemma_run(s, step(s, st), k);
    }
}

/// A string literal that ends ends after its start, within the text.
proof fn lemma_scan_str(s: Seq<char>, st: Pos, acc: Seq<char>, sl: int, sc: int)
    requires
        0 <= st.pos,
    ensures
        scan_str(s, st, acc, sl, sc) matches Ok((_, e)) ==> st.pos < e.pos <= s.len(),
    decreases s.len() - st.pos,
{
    if 0 <= st.pos < s.len() && s[st.pos] != '\n' && s[st.pos] != '"' {
        if s[st.pos] == '\\' {
            let st2 = step(s, st);
            if st2.pos < s.len() {
                lemma_scan_str(s, step(s, st2), acc.push(s[st2.pos]), sl, sc);
                let e = s[st2.pos];
                match escape_value(e) {
                    Some(v) => lemma_scan_str(s, step(s, st2), acc.push(v), sl, sc),
                    None => {},
                }
            }
        } else {
            lemma_scan_str(s, step(s, st), acc.push(s[st.pos]), sl, sc);
        }
    }
}

/// A scanned token takes at least one character, all within the text.
pub proof fn lemma_scan_token(s: Seq<char>, st: Pos)
    requires
        0 <= st.pos < s.len(),
    ensures
        scan_token_spec(s, st) matches Ok((_, e)) ==> st.pos < e.pos <= s.len(),
{
    let st1 = step(s, st);
    let st2 = step(s, st1);
    lemma_run(s, st2, CharClass::NotNewline);
    lemma_run(s, st1, CharClass::IdentChar);
    lemma_run(s, st1, CharClass::Digit);
    let e1 = run(s, st1, CharClass::Digit);
    lemma_run(s, step(s, e1), CharClass::Digit);
    lemma_scan_str(s, st1, Seq::empty(), st1.line, st1.col - 1);
}

/// The tokens from `st` to the end of the text, ending with `Eof`; or the
/// first error.
pub open spec fn lex_from(s: Seq<char>, st: Pos) -> Result<Seq<TokenV>, Seq<char>>
    decreases s.len() - st.pos,
{
    let st2 = run(s, st, CharClass::Blank);
    if !(0 <= st.pos) || st2.pos >= s.len() {
        Ok(seq![TokenV { ty: TokenTypeV::Eof, line: st2.line, column: st2.col }])
    } else {
        proof {
            lemma_run(s, st, CharClass::Blank);
            lemma_scan_token(s, st2);
        }
        if s[st2.pos] == '\n' {
            match lex_from(s, step(s, st2)) {
                Ok(rest) => Ok(seq![TokenV { ty: TokenTypeV::Newline, line: st2.line, column: st2.col }] + rest),
                Err(m) => Err(m),
            }
        } else if s[st2.pos] == '\r' {
            lex_from(s, step(s, st2))
        } else {
            match scan_token_spec(s, st2) {
                Ok((t, e)) => match lex_from(s, e) {
                    Ok(rest) => Ok(seq![t] + rest),
                    Err(m) => Err(m),
                },
                Err(m) => Err(m),
            }
        }
    }
}

/// A scanned token is never the end marker.
proof fn lemma_scan_token_not_eof(s: Seq<char>, st: Pos)
    requires
        0 <= st.pos < s.len(),
    ensures
        scan_token_spec(s, st) matches Ok((t, _)) ==> !(t.ty is Eof),
{
}

/// A token list that is a token, not the end marker, before a list that
/// ends with its only end marker, ends with its only end marker too.
proof fn lemma_cons_ends_with_eof(t: TokenV, rest: Seq<TokenV>)
    requires
        !(t.ty is Eof),
        ends_with_eof(rest),
    ensures
        ends_with_eof(seq![t] + rest),
{
    let ts = seq![t] + rest;
    assert forall|i: int| 0 <= i < ts.len() - 1 implies !(#[trigger] ts[i].ty is Eof) by {
        if i > 0 {
            assert(ts[i] == rest[i - 1]);
        }
    }
}

/// The token list ends with an `Eof`, and holds no other.
pub open spec fn ends_with_eof(ts: Seq<TokenV>) -> bool {
    &&& ts.len() > 0
    &&& ts.last().ty is Eof
    &&& forall|i: int| 0 <= i < ts.len() - 1 ==> !(#[trigger] ts[i].ty is Eof)
}

/// The tokens lexed from any position end with the only `Eof`.
proof fn lemma_lex_from_ends_with_eof(s: Seq<char>, st: Pos)
    ensures
        lex_from(s, st) matches Ok(ts) ==> ends_with_eof(ts),
    decreases s.len() - st.pos,
{
    let st2 = run(s, st, CharClass::Blank);
    if !(0 <= st.pos) || st2.pos >= s.len() {
    } else {
        lemma_run(s, st, CharClass::Blank);
        lemma_scan_token(s, st2);
        lemma_scan_token_not_eof(s, st2);
        if s[st2.pos] == '\n' {
            lemma_lex_from_ends_with_eof(s, step(s, st2));
            if let Ok(rest) = lex_from(s, step(s, st2)) {
                lemma_cons_ends_with_eof(TokenV { ty: TokenTypeV::Newline, line: st2.line, column: st2.col }, rest);
            }
        } else if s[st2.pos] == '\r' {
            lemma_lex_from_ends_with_eof(s, step(s, st2));
        } else {
            if let Ok((t, e)) = scan_token_spec(s, st2) {
                lemma_lex_from_ends_with_eof(s, e);
                if let Ok(rest) = lex_from(s, e) {
                    lemma_cons_ends_with_eof(t, rest);
                }
            }
        }
    }
}

/// Whatever text the lexer accepts, its tokens end with an `Eof`, and no
/// other token is one.
pub proof fn lemma_lex_ends_with_eof(s: Seq<char>)
    ensures
        lex(s) matches Ok(ts) ==> ends_with_eof(ts),
{
    lemma_lex_from_ends_with_eof(s, start_pos());
}

/// The start of a text: line 1, column 1.
pub open spec fn start_pos() -> Pos {
    Pos { pos: 0, line: 1, col: 1 }
}

/// The tokens of a text.
pub open spec fn lex(s: Seq<char>) -> Result<Seq<TokenV>, Seq<char>> {
    lex_from(s, start_pos())
}

// ---------------------------------------------------------------------------
// The lexer
// ---------------------------------------------------------------------------

/// Whether a character is Unicode whitespace.
fn is_whitespace_char(c: char) -> (r: bool)
    ensures
        r == is_whitespace(c),
{
    ('\u{9}' <= c && c <= '\u{d}') || c == ' ' || c == '\u{85}' || c == '\u{a0}' || c == '\u{1680}'
        || ('\u{2000}' <= c && c <= '\u{200a}') || c == '\u{2028}' || c == '\u{2029}' || c == '\u{202f}'
        || c == '\u{205f}' || c == '\u{3000}'
}

fn is_digit_char(c: char) -> (r: bool)
    ensures
        r == is_digit(c),
{
    '0' <= c && c <= '9'
}

fn is_alpha_char(c: char) -> (r: bool)
    ensures
        r == is_alpha(c),
{
    ('a' <= c && c <= 'z') || ('A' <= c && c <= 'Z')
}

/// Appends ` at line <line>, column <col>`.
fn push_at(s: &mut String, line: usize, col: usize)
    ensures
        final(s)@ == old(s)@ + at_text(line as int, col as int),
{
    push_str(s, " at line ");
    push_nat(s, line as u64);
    push_str(s, ", column ");
    push_nat(s, col as u64);
    assert(s@ =~= old(s)@ + at_text(line as int, col as int));
}

/// A cursor over the characters of a source text.
#[derive(Debug)]
pub struct Lexer {
    source: Vec<char>,
    position: usize,
    line: usize,
    column: usize,
}

impl Lexer {
    /// The characters being lexed.
    pub closed spec fn src(&self) -> Seq<char> {
        self.source@
    }

    /// Where the lexer stands.
    pub closed spec fn at(&self) -> Pos {
        Pos { pos: self.position as int, line: self.line as int, col: self.column as int }
    }

    /// The lexer's counters stay within their machine integers.
    pub closed spec fn wf(&self) -> bool {
        &&& self.source@.len() + 2 <= usize::MAX
        &&& self.position <= self.source@.len() + 1
        &&& 1 <= self.line <= self.position + 1
        &&& 1 <= self.column <= self.position + 1
    }

    /// A lexer at the start of `source`.
    pub fn new(source: &str) -> (r: Self)
        requires
            source@.len() + 2 <= usize::MAX,
        ensures
            r.src() == source@,
            r.at() == start_pos(),
            r.wf(),
    {
        Lexer { source: chars_of(source), position: 0, line: 1, column: 1 }
    }

    fn current_char(&self) -> (r: Option<char>)
        ensures
            r == char_at(self.src(), self.at().pos),
    {
        if self.position < self.source.len() {
            Some(self.source[self.position])
        } else {
            None
        }
    }

    fn peek_char(&self) -> (r: Option<char>)
        requires
            self.wf(),
        ensures
            r == char_at(self.src(), self.at().pos + 1),
    {
        if self.position + 1 < self.source.len() {
            Some(self.source[self.position + 1])
        } else {
            None
        }
    }

    /// Moves one character on; returns the character left behind.
    fn advance(&mut self) -> (r: Option<char>)
        requires
            old(self).wf(),
            old(self).at().pos <= old(self).src().len(),
        ensures
            final(self).wf(),
            final(self).src() == old(self).src(),
            final(self).at() == step(old(self).src(), old(self).at()),
            r == char_at(old(self).src(), old(self).at().pos),
    {
        let ch = self.current_char();
        if ch == Some('\n') {
            self.line = self.line + 1;
            self.column = 1;
        } else {
            self.column = self.column + 1;
        }
        self.position = self.position + 1;
        ch
    }

    /// Whether the next character belongs to a run of class `k`.
    fn class_here(&self, k: CharClass) -> (r: bool)
        ensures
            r == (char_at(self.src(), self.at().pos) matches Some(c) && in_class(c, k)),
    {
        match self.current_char() {
            Some(c) => match k {
                CharClass::Blank => is_whitespace_char(c) && c != '\n' && c != '\r',
                CharClass::Digit => is_digit_char(c),
                CharClass::IdentChar => is_alpha_char(c) || is_digit_char(c) || c == '_',
                CharClass::NotNewline => c != '\n',
            },
            None => false,
        }
    }

    fn is_at_end(&self) -> (r: bool)
        ensures
            r == (self.at().pos >= self.src().len()),
    {
        self.position >= self.source.len()
    }

    fn make_token(&self, token_type: TokenType) -> (t: Token)
        ensures
            t.token_type == token_type,
            t.line == self.line,
            t.column == self.column,
            t@ == (TokenV { ty: token_type@, line: self.at().line, column: self.at().col }),
    {
        Token { token_type, line: self.line, column: self.column }
    }

    /// Skips whitespace that ends no line.
    fn skip_whitespace(&mut self)
        requires
            old(self).wf(),
            old(self).at().pos <= old(self).src().len(),
        ensures
            final(self).wf(),
            final(self).src() == old(self).src(),
            final(self).at() == run(old(self).src(), old(self).at(), CharClass::Blank),
            final(self).at().pos <= final(self).src().len(),
    {
        while self.class_here(CharClass::Blank)
            invariant
                self.wf(),
                self.src() == old(self).src(),
                self.at().pos <= self.src().len(),
                run(self.src(), self.at(), CharClass::Blank) == run(old(self).src(), old(self).at(), CharClass::Blank),
            decreases self.src().len() - self.at().pos,
        {
            self.advance();
        }
    }

    /// Consumes `expected` if it is next.
    fn match_char(&mut self, expected: char) -> (r: bool)
        requires
            old(self).wf(),
            old(self).at().pos <= old(self).src().len(),
        ensures
            final(self).wf(),
            final(self).src() == old(self).src(),
            r == (char_at(old(self).src(), old(self).at().pos) == Some(expected)),
            final(self).at() == if r { step(old(self).src(), old(self).at()) } else { old(self).at() },
    {
        if self.current_char() == Some(expected) {
            self.advance();
            true
        } else {
            false
        }
    }

    /// Skips a line comment up to (not including) the line break; the
    /// comment reads as a line break.
    fn scan_line_comment(&mut self) -> (r: Result<Token, String>)
        requires
            old(self).wf(),
            old(self).at().pos <= old(self).src().len(),
        ensures
            final(self).wf(),
            final(self).src() == old(self).src(),
            final(self).at() == run(old(self).src(), old(self).at(), CharClass::NotNewline),
            r matches Ok(t) && t@ == (TokenV { ty: TokenTypeV::Newline, line: final(self).at().line,
                column: final(self).at().col }),
    {
        while self.class_here(CharClass::NotNewline)
            invariant
                self.wf(),
                self.src() == old(self).src(),
                self.at().pos <= self.src().len(),
                run(self.src(), self.at(), CharClass::NotNewline) == run(old(self).src(), old(self).at(),
                    CharClass::NotNewline),
            decreases self.src().len() - self.at().pos,
        {
            self.advance();
        }
        Ok(Token { token_type: TokenType::Newline, line: self.line, column: self.column })
    }
}

/// The character an escape stands for.
fn escape_char(e: char) -> (r: Option<char>)
    ensures
        r == escape_value(e),
{
    if e == 'n' {
        Some('\n')
    } else if e == 't' {
        Some('\t')
    } else if e == 'r' {
        Some('\r')
    } else if e == '\\' {
        Some('\\')
    } else if e == '"' {
        Some('"')
    } else if e == '0' {
        Some('\0')
    } else {
        None
    }
}

/// No floating literal has a value yet.
pub open spec fn floats_unresolved(ts: Seq<Token>) -> bool {
    forall|i: int| 0 <= i < ts.len() ==> (#[trigger] ts[i].token_type matches TokenType::FloatLiteral(f)
        ==> f.value is None)
}

impl Lexer {
    /// The rest of a string literal, the opening quote consumed.
    fn scan_string(&mut self) -> (r: Result<Token, String>)
        requires
            old(self).wf(),
            old(self).at().pos <= old(self).src().len(),
        ensures
            final(self).wf(),
            final(self).src() == old(self).src(),
            match scan_str(old(self).src(), old(self).at(), Seq::empty(), old(self).at().line, old(self).at().col - 1) {
                Ok((v, e)) => r matches Ok(t) && t@ == (TokenV { ty: TokenTypeV::StringLiteral(v),
                    line: old(self).at().line, column: old(self).at().col - 1 }) && final(self).at() == e
                    && t.token_type matches TokenType::StringLiteral(_),
                Err(m) => r matches Err(x) && x@ == m,
            },
    {
        let start_line = self.line;
        let start_col = self.column - 1;
        let ghost res = scan_str(self.src(), self.at(), Seq::empty(), start_line as int, start_col as int);
        let mut value = String::new();
        loop
            invariant
                self.wf(),
                self.src() == old(self).src(),
                self.at().pos <= self.src().len(),
                start_line == old(self).line,
                start_col == old(self).column - 1,
                res == scan_str(old(self).src(), old(self).at(), Seq::empty(), old(self).at().line,
                    old(self).at().col - 1),
                scan_str(self.src(), self.at(), value@, start_line as int, start_col as int) == res,
            decreases self.src().len() - self.at().pos,
        {
            match self.current_char() {
                None => {
                    let mut msg = string_of("Unterminated string literal starting");
                    push_at(&mut msg, start_line, start_col);
                    return Err(msg);
                },
                Some(c) => {
                    if c == '\n' {
                        let mut msg = string_of("Unterminated string literal starting");
                        push_at(&mut msg, start_line, start_col);
                        return Err(msg);
                    } else if c == '"' {
                        self.advance();
                        return Ok(Token { token_type: TokenType::StringLiteral(value), line: start_line,
                            column: start_col });
                    } else if c == '\\' {
                        self.advance();
                        let escaped = self.advance();
                        match escaped {
                            None => {
                                let mut msg = string_of("Unterminated escape sequence in string");
                                push_at(&mut msg, self.line, self.column);
                                return Err(msg);
                            },
                            Some(e) => {
                                match escape_char(e) {
                                    Some(v) => push_char(&mut value, v),
                                    None => {
                                        let mut msg = string_of("Invalid escape sequence '\\");
                                        push_char(&mut msg, e);
                                        push_str(&mut msg, "' in string");
                                        push_at(&mut msg, self.line, self.column);
                                        return Err(msg);
                                    },
                                }
                            },
                        }
                    } else {
                        push_char(&mut value, c);
                        self.advance();
                    }
                },
            }
        }
    }

    /// A number, its first digit consumed.
    fn scan_number(&mut self, first: char) -> (r: Result<Token, String>)
        requires
            old(self).wf(),
            1 <= old(self).at().pos <= old(self).src().len(),
            old(self).src()[old(self).at().pos - 1] == first,
            is_digit(first),
        ensures
            final(self).wf(),
            final(self).src() == old(self).src(),
            match scan_num(old(self).src(), old(self).at()) {
                Ok((t, e)) => r matches Ok(x) && x@ == t && final(self).at() == e
                    && (x.token_type matches TokenType::FloatLiteral(f) ==> f.value is None),
                Err(m) => r matches Err(x) && x@ == m,
            },
    {
        let ghost s = self.src();
        let ghost start = self.at().pos - 1;
        let start_line = self.line;
        let start_col = self.column - 1;
        let mut value_str = String::new();
        push_char(&mut value_str, first);
        let mut digits: Vec<char> = Vec::new();
        digits.push(first);
        proof {
            lemma_run(s, self.at(), CharClass::Digit);
        }
        let ghost e1 = run(s, self.at(), CharClass::Digit);
        assert(value_str@ =~= s.subrange(start, self.at().pos));
        while self.class_here(CharClass::Digit)
            invariant
                self.wf(),
                self.src() == s,
                0 <= start,
                start + 1 <= self.at().pos <= s.len(),
                run(s, self.at(), CharClass::Digit) == e1,
                value_str@ == s.subrange(start, self.at().pos),
                digits@ == value_str@,
            decreases s.len() - self.at().pos,
        {
            let c = self.source[self.position];
            push_char(&mut value_str, c);
            digits.push(c);
            self.advance();
            assert(value_str@ =~= s.subrange(start, self.at().pos));
        }
        assert(self.at() == e1);
        let dot_then_digit = self.current_char() == Some('.') && match self.peek_char() {
            Some(d) => is_digit_char(d),
            None => false,
        };
        if dot_then_digit {
            self.advance();
            push_char(&mut value_str, '.');
            proof {
                lemma_run(s, self.at(), CharClass::Digit);
            }
            let ghost e2 = run(s, self.at(), CharClass::Digit);
            assert(value_str@ =~= s.subrange(start, self.at().pos));
            while self.class_here(CharClass::Digit)
                invariant
                    self.wf(),
                    self.src() == s,
                    0 <= start,
                    start + 1 <= self.at().pos <= s.len(),
                    run(s, self.at(), CharClass::Digit) == e2,
                    value_str@ == s.subrange(start, self.at().pos),
                decreases s.len() - self.at().pos,
            {
                let c = self.source[self.position];
                push_char(&mut value_str, c);
                self.advance();
                assert(value_str@ =~= s.subrange(start, self.at().pos));
            }
            return Ok(Token {
                token_type: TokenType::FloatLiteral(FloatLit { text: value_str, value: None }),
                line: start_line,
                column: start_col,
            });
        }
        assert forall|i: int| 0 <= i < digits@.len() implies is_digit(#[trigger] digits@[i]) by {
            assert(digits@[i] == s[start + i]);
            if i > 0 {
                lemma_run_class(s, old(self).at(), CharClass::Digit, start + i);
            }
        }
        match parse_digits_i64(&digits) {
            Some(v) => Ok(Token { token_type: TokenType::IntLiteral(v), line: start_line, column: start_col }),
            None => {
                let mut msg = string_of("Invalid integer '");
                push_string(&mut msg, &value_str);
                push_str(&mut msg, "'");
                push_at(&mut msg, start_line, start_col);
                Err(msg)
            },
        }
    }
}

/// Every character a run passes belongs to its class.
pub proof fn lemma_run_class(s: Seq<char>, st: Pos, k: CharClass, i: int)
    requires
        st.pos <= i < run(s, st, k).pos,
    ensures
        0 <= i < s.len(),
        in_class(s[i], k),
    decreases s.len() - st.pos,
{
    if 0 <= st.pos < s.len() && in_class(s[st.pos], k) {
        if i > st.pos {
            lemma_run_class(s, step(s, st), k, i);
        }
    }
}

/// The token kind of a word.
fn keyword_or_identifier(value: String) -> (r: TokenType)
    ensures
        r@ == keyword_or_ident(value@),
        !(r is FloatLiteral),
{
    if value == string_of("header") {
        TokenType::Header
    } else if value == string_of("input") {
        TokenType::Input
    } else if value == string_of("module") {
        TokenType::Module
    } else if value == string_of("if") {
        TokenType::If
    } else if value == string_of("else") {
        TokenType::Else
    } else if value == string_of("while") {
        TokenType::While
    } else if value == string_of("func") {
        TokenType::Func
    } else if value == string_of("return") {
        TokenType::Return
    } else {
        TokenType::Identifier(value)
    }
}

impl Lexer {
    /// A word, its first character consumed: a keyword or an identifier.
    fn scan_identifier(&mut self, first: char) -> (r: Result<Token, String>)
        requires
            old(self).wf(),
            1 <= old(self).at().pos <= old(self).src().len(),
            old(self).src()[old(self).at().pos - 1] == first,
        ensures
            final(self).wf(),
            final(self).src() == old(self).src(),
            final(self).at() == run(old(self).src(), old(self).at(), CharClass::IdentChar),
            r matches Ok(t) && t@ == (TokenV { ty: keyword_or_ident(old(self).src().subrange(old(self).at().pos - 1,
                final(self).at().pos)), line: old(self).at().line, column: old(self).at().col - 1 })
                && !(t.token_type is FloatLiteral),
    {
        let ghost s = self.src();
        let ghost start = self.at().pos - 1;
        let start_line = self.line;
        let start_col = self.column - 1;
        let mut value = String::new();
        push_char(&mut value, first);
        proof {
            lemma_run(s, self.at(), CharClass::IdentChar);
        }
        let ghost e = run(s, self.at(), CharClass::IdentChar);
        assert(value@ =~= s.subrange(start, self.at().pos));
        while self.class_here(CharClass::IdentChar)
            invariant
                self.wf(),
                self.src() == s,
                0 <= start,
                start + 1 <= self.at().pos <= s.len(),
                run(s, self.at(), CharClass::IdentChar) == e,
                value@ == s.subrange(start, self.at().pos),
            decreases s.len() - self.at().pos,
        {
            let c = self.source[self.position];
            push_char(&mut value, c);
            self.advance();
            assert(value@ =~= s.subrange(start, self.at().pos));
        }
        let token_type = keyword_or_identifier(value);
        Ok(Token { token_type, line: start_line, column: start_col })
    }

    /// Appends ` at line <line>, column <column - 1>`: the position of the
    /// character just consumed.
    fn unexpected(&self, msg: &mut String)
        requires
            self.wf(),
        ensures
            final(msg)@ == old(msg)@ + at_text(self.at().line, self.at().col - 1),
    {
        push_at(msg, self.line, self.column - 1);
    }

    /// The next token (not at the end, not at whitespace).
    #[verifier::rlimit(100)]
    fn scan_token(&mut self) -> (r: Result<Token, String>)
        requires
            old(self).wf(),
            old(self).at().pos < old(self).src().len(),
        ensures
            final(self).wf(),
            final(self).src() == old(self).src(),
            match scan_token_spec(old(self).src(), old(self).at()) {
                Ok((t, e)) => r matches Ok(x) && x@ == t && final(self).at() == e
                    && (x.token_type matches TokenType::FloatLiteral(f) ==> f.value is None),
                Err(m) => r matches Err(x) && x@ == m,
            },
    {
        let ghost s = self.src();
        let ch = match self.advance() {
            Some(c) => c,
            None => return Err(string_of("Unexpected EOF")),
        };
        if ch == '+' {
            Ok(self.make_token(TokenType::Plus))
        } else if ch == '-' {
            Ok(self.make_token(TokenType::Minus))
        } else if ch == '*' {
            Ok(self.make_token(TokenType::Star))
        } else if ch == '/' {
            if self.match_char('/') {
                self.scan_line_comment()
            } else {
                Ok(self.make_token(TokenType::Slash))
            }
        } else if ch == '%' {
            Ok(self.make_token(TokenType::Percent))
        } else if ch == '&' {
            Ok(self.make_token(TokenType::Ampersand))
        } else if ch == '|' {
            Ok(self.make_token(TokenType::Pipe))
        } else if ch == '^' {
            Ok(self.make_token(TokenType::Caret))
        } else if ch == '!' {
            if self.match_char('=') {
                Ok(self.make_token(TokenType::BangEqual))
            } else {
                Ok(self.make_token(TokenType::Bang))
            }
        } else if ch == '~' {
            Ok(self.make_token(TokenType::Tilde))
        } else if ch == '(' {
            Ok(self.make_token(TokenType::LParen))
        } else if ch == ')' {
            Ok(self.make_token(TokenType::RParen))
        } else if ch == '{' {
            Ok(self.make_token(TokenType::LBrace))
        } else if ch == '}' {
            Ok(self.make_token(TokenType::RBrace))
        } else if ch == '.' {
            if self.match_char('.') {
                Ok(self.make_token(TokenType::DotDot))
            } else {
                Ok(self.make_token(TokenType::Dot))
            }
        } else if ch == ':' {
            Ok(self.make_token(TokenType::Colon))
        } else if ch == ',' {
            Ok(self.make_token(TokenType::Comma))
        } else if ch == '<' {
            if self.match_char('<') {
                Ok(self.make_token(TokenType::LessLess))
            } else if self.match_char('=') {
                Ok(self.make_token(TokenType::LessEqual))
            } else {
                Ok(self.make_token(TokenType::Less))
            }
        } else if ch == '>' {
            if self.match_char('>') {
                Ok(self.make_token(TokenType::GreaterGreater))
            } else if self.match_char('=') {
                Ok(self.make_token(TokenType::GreaterEqual))
            } else {
                Ok(self.make_token(TokenType::Greater))
            }
        } else if ch == '=' {
            if self.match_char('=') {
                Ok(self.make_token(TokenType::EqualEqual))
            } else {
                let mut msg = string_of("Unexpected '='");
                self.unexpected(&mut msg);
                Err(msg)
            }
        } else if ch == '"' {
            self.scan_string()
        } else if is_digit_char(ch) {
            self.scan_number(ch)
        } else if is_alpha_char(ch) || ch == '_' {
            self.scan_identifier(ch)
        } else {
            let mut msg = string_of("Unexpected character '");
            push_char(&mut msg, ch);
            push_str(&mut msg, "'");
            self.unexpected(&mut msg);
            Err(msg)
        }
    }
}

/// The result of lexing from a point, after the tokens already produced.
pub open spec fn after(prefix: Seq<TokenV>, rest: Result<Seq<TokenV>, Seq<char>>) -> Result<Seq<TokenV>, Seq<char>> {
    match rest {
        Ok(ts) => Ok(prefix + ts),
        Err(m) => Err(m),
    }
}

impl Lexer {
    /// Splits a source text into tokens, the last one `Eof`; line breaks
    /// (and line comments) are tokens, other whitespace is skipped.
    pub fn tokenize(source: &str) -> (r: Result<Vec<Token>, String>)
        requires
            source@.len() + 2 <= usize::MAX,
        ensures
            match lex(source@) {
                Ok(ts) => r matches Ok(v) && tokens_view(v@) == ts && floats_unresolved(v@),
                Err(m) => r matches Err(e) && e@ == m,
            },
    {
        let mut lexer = Self::new(source);
        let ghost s = source@;
        let mut tokens: Vec<Token> = Vec::new();
        loop
            invariant
                lexer.wf(),
                s == source@,
                lexer.src() == s,
                lexer.at().pos <= s.len(),
                lex(s) == after(tokens_view(tokens@), lex_from(s, lexer.at())),
                floats_unresolved(tokens@),
            decreases s.len() - lexer.at().pos,
        {
            let ghost st = lexer.at();
            lexer.skip_whitespace();
            proof {
                lemma_run(s, st, CharClass::Blank);
            }
            let ghost before = tokens@;
            if lexer.is_at_end() {
                let eof = Token { token_type: TokenType::Eof, line: lexer.line, column: lexer.column };
                tokens.push(eof);
                assert(tokens_view(tokens@) =~= tokens_view(before) + seq![eof@]);
                return Ok(tokens);
            }
            let ghost st2 = lexer.at();
            proof {
                lemma_scan_token(s, st2);
            }
            if lexer.current_char() == Some('\n') {
                let t = lexer.make_token(TokenType::Newline);
                tokens.push(t);
                lexer.advance();
                assert(tokens_view(tokens@) =~= tokens_view(before) + seq![t@]);
                proof {
                    assert(forall|p: Seq<TokenV>, q: Seq<TokenV>, u: Seq<TokenV>| (p + q) + u =~= p + (q + u));
                }
            } else if lexer.current_char() == Some('\r') {
                lexer.advance();
            } else {
                match lexer.scan_token() {
                    Ok(t) => {
                        tokens.push(t);
                        assert(tokens_view(tokens@) =~= tokens_view(before) + seq![t@]);
                        proof {
                            assert(forall|p: Seq<TokenV>, q: Seq<TokenV>, u: Seq<TokenV>| (p + q) + u =~= p + (q + u));
                        }
                    },
                    Err(e) => {
                        assert(lex_from(s, st) == Err::<Seq<TokenV>, Seq<char>>(e@));
                        return Err(e);
                    },
                }
            }
        }
    }
}

/// The string literal `"\e"` read from the start of a text.
pub open spec fn read_escape(e: char) -> Result<(TokenV, Pos), Seq<char>> {
    scan_token_spec(seq!['"', '\\', e, '"'], Pos { pos: 0, line: 1, col: 1 })
}

/// Law: the escapes of a string literal are those of C and Rust. A
/// backslash may be followed by `n`, `t`, `r`, `0`, `\` or `"` and by
/// nothing else; the literal then holds one character, a different one for
/// each escape: line feed, tab, carriage return, NUL, backslash, quote.
pub proof fn lemma_escapes(e: char, f: char)
    ensures
        read_escape(e) is Ok <==> (e == 'n' || e == 't' || e == 'r' || e == '0' || e == '\\' || e == '"'),
        read_escape(e) matches Ok((t, _)) ==> (t.ty matches TokenTypeV::StringLiteral(v) && v.len() == 1),
        read_escape(e) is Ok && read_escape(f) is Ok && read_escape(e)->Ok_0.0.ty == read_escape(f)->Ok_0.0.ty
            ==> e == f,
        e == 'n' ==> read_escape(e)->Ok_0.0.ty == TokenTypeV::StringLiteral(seq!['\n']),
        e == 't' ==> read_escape(e)->Ok_0.0.ty == TokenTypeV::StringLiteral(seq!['\t']),
        e == 'r' ==> read_escape(e)->Ok_0.0.ty == TokenTypeV::StringLiteral(seq!['\r']),
        e == '0' ==> read_escape(e)->Ok_0.0.ty == TokenTypeV::StringLiteral(seq!['\0']),
        e == '\\' ==> read_escape(e)->Ok_0.0.ty == TokenTypeV::StringLiteral(seq!['\\']),
        e == '"' ==> read_escape(e)->Ok_0.0.ty == TokenTypeV::StringLiteral(seq!['"']),
{
    lemma_escape_one(e);
    lemma_escape_one(f);
    if read_escape(e) is Ok && read_escape(f) is Ok && read_escape(e)->Ok_0.0.ty == read_escape(f)->Ok_0.0.ty {
        let v = read_escape(e)->Ok_0.0.ty->StringLiteral_0;
        assert(seq!['\n'][0] == '\n' && seq!['\t'][0] == '\t' && seq!['\r'][0] == '\r');
        assert(seq!['\0'][0] == '\0' && seq!['\\'][0] == '\\' && seq!['"'][0] == '"');
        assert(v[0] == v[0]);
    }
}

proof fn lemma_escape_one(e: char)
    ensures
        read_escape(e) is Ok <==> (e == 'n' || e == 't' || e == 'r' || e == '0' || e == '\\' || e == '"'),
        read_escape(e) matches Ok((t, _)) ==> (t.ty matches TokenTypeV::StringLiteral(v) && v.len() == 1),
        e == 'n' ==> read_escape(e)->Ok_0.0.ty == TokenTypeV::StringLiteral(seq!['\n']),
        e == 't' ==> read_escape(e)->Ok_0.0.ty == TokenTypeV::StringLiteral(seq!['\t']),
        e == 'r' ==> read_escape(e)->Ok_0.0.ty == TokenTypeV::StringLiteral(seq!['\r']),
        e == '0' ==> read_escape(e)->Ok_0.0.ty == TokenTypeV::StringLiteral(seq!['\0']),
        e == '\\' ==> read_escape(e)->Ok_0.0.ty == TokenTypeV::StringLiteral(seq!['\\']),
        e == '"' ==> read_escape(e)->Ok_0.0.ty == TokenTypeV::StringLiteral(seq!['"']),
{
    reveal_with_fuel(scan_str, 3);
    let s = seq!['"', '\\', e, '"'];
    assert(s[0] == '"' && s[1] == '\\' && s[2] == e && s[3] == '"');
    assert(Seq::<char>::empty().push('\n') =~= seq!['\n']);
    assert(Seq::<char>::empty().push('\t') =~= seq!['\t']);
    assert(Seq::<char>::empty().push('\r') =~= seq!['\r']);
    assert(Seq::<char>::empty().push('\0') =~= seq!['\0']);
    assert(Seq::<char>::empty().push('\\') =~= seq!['\\']);
    assert(Seq::<char>::empty().push('"') =~= seq!['"']);
}

} // verus!
