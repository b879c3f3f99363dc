//! The tokenizer engine: a one-character-lookahead scanner over source text
//! with line/column bookkeeping and a typed error channel.
//!
//! The mathematical model is `lex_step`: a spec-level description of what one
//! call to [`Lexer::next_token`] recognizes at a given cursor, which every
//! scanning routine is proved to implement exactly.

use vstd::prelude::*;

verus! {

/// The kind of one token, including the payload it carries.
#[derive(Debug, Clone, PartialEq, Eq)]
pub enum TokenType {
    BoolLiteral(bool),
    Case,
    Class,
    ClassName(String),
    Else,
    Eof,
    Esac,
    Fi,
    Ident(String),
    If,
    In,
    Illegal,
    Inherits,
    IsVoid,
    IntLiteral(i64),
    LBrace,
    Let,
    Loop,
    New,
    Not,
    Of,
    Pool,
    RBrace,
    Semicolon,
    StringLiteral(String),
    Then,
    While,
}

/// The mathematical shape of a token kind: payloads are sequences and
/// unbounded integers, so contracts can speak of them directly.
pub enum TokenKind {
    BoolLiteral(bool),
    Case,
    Class,
    ClassName(Seq<char>),
    Else,
    Eof,
    Esac,
    Fi,
    Ident(Seq<char>),
    If,
    In,
    Illegal,
    Inherits,
    IsVoid,
    IntLiteral(int),
    LBrace,
    Let,
    Loop,
    New,
    Not,
    Of,
    Pool,
    RBrace,
    Semicolon,
    StringLiteral(Seq<char>),
    Then,
    While,
}

impl View for TokenType {
    type V = TokenKind;

    open spec fn view(&self) -> TokenKind {
        match self {
            TokenType::BoolLiteral(b) => TokenKind::BoolLiteral(*b),
            TokenType::Case => TokenKind::Case,
            TokenType::Class => TokenKind::Class,
            TokenType::ClassName(s) => TokenKind::ClassName(s@),
            TokenType::Else => TokenKind::Else,
            TokenType::Eof => TokenKind::Eof,
            TokenType::Esac => TokenKind::Esac,
            TokenType::Fi => TokenKind::Fi,
            TokenType::Ident(s) => TokenKind::Ident(s@),
            TokenType::If => TokenKind::If,
            TokenType::In => TokenKind::In,
            TokenType::Illegal => TokenKind::Illegal,
            TokenType::Inherits => TokenKind::Inherits,
            TokenType::IsVoid => TokenKind::IsVoid,
            TokenType::IntLiteral(n) => TokenKind::IntLiteral(*n as int),
            TokenType::LBrace => TokenKind::LBrace,
            TokenType::Let => TokenKind::Let,
            TokenType::Loop => TokenKind::Loop,
            TokenType::New => TokenKind::New,
            TokenType::Not => TokenKind::Not,
            TokenType::Of => TokenKind::Of,
            TokenType::Pool => TokenKind::Pool,
            TokenType::RBrace => TokenKind::RBrace,
            TokenType::Semicolon => TokenKind::Semicolon,
            TokenType::StringLiteral(s) => TokenKind::StringLiteral(s@),
            TokenType::Then => TokenKind::Then,
            TokenType::While => TokenKind::While,
        }
    }
}

/// A source position: character offset from the start of the input,
/// 1-based line number, and 0-based column within the line.
#[derive(Debug, Clone, Copy, PartialEq, Eq, Structural)]
pub struct Pos {
    pub offset: usize,
    pub line: usize,
    pub col: usize,
}

/// The half-open range of source positions consumed to produce one token.
#[derive(Debug, Clone, Copy, PartialEq, Eq, Structural)]
pub struct Span {
    pub start: Pos,
    pub end: Pos,
}

/// A classified, position-tagged unit of lexical meaning.
#[derive(Debug, Clone, PartialEq, Eq)]
pub struct Token {
    pub token_type: TokenType,
    pub span: Span,
}

/// One unrecoverable-for-that-call lexical condition.
#[derive(Debug, Clone, PartialEq, Eq, Structural)]
pub enum LexerError {
    InvalidChar(char),
    StringConstantTooLong(usize),
    StringContainsNull,
    StringUnterminated,
    StringContainsEof,
    UnmatchedComment,
    UnterminatedComment,
}

/// The character for the decimal digit `d`.
pub open spec fn digit_char_of(d: int) -> char {
    ((d + '0' as int) as u32) as char
}

/// The decimal text of the non-negative integer `n`, most significant
/// digit first and without leading zeros (a lone zero for 0).
pub open spec fn dec_digits(n: int) -> Seq<char>
    recommends
        0 <= n,
    decreases n,
{
    if n < 10 {
        seq![digit_char_of(n)]
    } else {
        dec_digits(n / 10).push(digit_char_of(n % 10))
    }
}

/// The description of each error, as the surrounding tool prints it.
pub open spec fn message_of(e: LexerError) -> Seq<char> {
    match e {
        LexerError::InvalidChar(c) => "Invalid character: "@.push(c),
        LexerError::StringConstantTooLong(len) => "String constant too long: "@ + dec_digits(
            len as int,
        ) + " chars"@,
        LexerError::StringContainsNull => "String contains null character"@,
        LexerError::StringUnterminated => "Unterminated string constant"@,
        LexerError::StringContainsEof => "EOF in string constant"@,
        LexerError::UnmatchedComment => "Unmatched comment"@,
        LexerError::UnterminatedComment => "EOF in comment"@,
    }
}

/// Relies on `String::push`: appends the given character to the end of the
/// string.
#[verifier::external_body]
fn push_char(s: &mut String, c: char)
    ensures
        final(s)@ == old(s)@.push(c),
{
    s.push(c);
}

/// The executable character for the decimal digit `d`.
fn char_of_digit(d: usize) -> (c: char)
    requires
        d < 10,
    ensures
        c == digit_char_of(d as int),
{
    (48 + d as u8) as char
}

/// Appends the decimal text of `n` to `s`.
fn append_decimal(s: &mut String, n: usize)
    ensures
        final(s)@ == old(s)@ + dec_digits(n as int),
    decreases n,
{
    if n < 10 {
        push_char(s, char_of_digit(n));
        proof {
            assert(old(s)@.push(digit_char_of(n as int)) =~= old(s)@ + dec_digits(n as int));
        }
    } else {
        append_decimal(s, n / 10);
        push_char(s, char_of_digit(n % 10));
        proof {
            assert((old(s)@ + dec_digits(n as int / 10)).push(digit_char_of(n as int % 10)) =~= old(
                s,
            )@ + dec_digits(n as int));
        }
    }
}

impl LexerError {
    /// The human-readable description of the error.
    pub fn message(&self) -> (r: String)
        ensures
            r@ == message_of(*self),
    {
        match self {
            LexerError::InvalidChar(c) => {
                let mut s = String::from_str("Invalid character: ");
                push_char(&mut s, *c);
                s
            },
            LexerError::StringConstantTooLong(len) => {
                let mut s = String::from_str("String constant too long: ");
                append_decimal(&mut s, *len);
                s.append(" chars");
                s
            },
            LexerError::StringContainsNull => String::from_str("String contains null character"),
            LexerError::StringUnterminated => String::from_str("Unterminated string constant"),
            LexerError::StringContainsEof => String::from_str("EOF in string constant"),
            LexerError::UnmatchedComment => String::from_str("Unmatched comment"),
            LexerError::UnterminatedComment => String::from_str("EOF in comment"),
        }
    }
}

/// The line number (1-based) after consuming the first `i` characters of `s`:
/// one more than the number of newlines among them.
pub open spec fn line_at(s: Seq<char>, i: int) -> int
    decreases i,
{
    if i <= 0 {
        1
    } else if s[i - 1] == '\n' {
        line_at(s, i - 1) + 1
    } else {
        line_at(s, i - 1)
    }
}

/// The column (0-based) after consuming the first `i` characters of `s`:
/// the number of characters consumed since the last newline.
pub open spec fn col_at(s: Seq<char>, i: int) -> int
    decreases i,
{
    if i <= 0 {
        0
    } else if s[i - 1] == '\n' {
        0
    } else {
        col_at(s, i - 1) + 1
    }
}

/// The position reached after consuming the first `i` characters of `s`.
pub open spec fn pos_at(s: Seq<char>, i: int) -> Pos {
    Pos { offset: i as usize, line: line_at(s, i) as usize, col: col_at(s, i) as usize }
}

/// The line number never exceeds the offset by more than one and the column
/// never exceeds the offset, so position arithmetic cannot overflow while
/// the offset fits in `usize`.
pub proof fn lemma_pos_bounds(s: Seq<char>, i: int)
    requires
        0 <= i,
    ensures
        1 <= line_at(s, i) <= i + 1,
        0 <= col_at(s, i) <= i,
    decreases i,
{
    if i > 0 {
        lemma_pos_bounds(s, i - 1);
    }
}

/// Whether `c` separates tokens: the Unicode `White_Space` code points.
pub open spec fn is_ws(c: char) -> bool {
    let u = c as u32;
    (0x09 <= u && u <= 0x0D) || u == 0x20 || u == 0x85 || u == 0xA0 || u == 0x1680 || (0x2000 <= u
        && u <= 0x200A) || u == 0x2028 || u == 0x2029 || u == 0x202F || u == 0x205F || u == 0x3000
}

/// Whether `c` is an ASCII decimal digit.
pub open spec fn is_digit(c: char) -> bool {
    '0' <= c && c <= '9'
}

/// Whether `c` is an ASCII letter.
pub open spec fn is_ascii_letter(c: char) -> bool {
    ('a' <= c && c <= 'z') || ('A' <= c && c <= 'Z')
}

/// Whether `c` may open an identifier, class name or keyword.
pub open spec fn is_ident_start(c: char) -> bool {
    is_ascii_letter(c) || c == '_'
}

/// What `char::is_alphanumeric` returns for `c`: membership in the Unicode
/// alphabetic and numeric categories, a table this library does not restate.
pub uninterp spec fn unicode_alnum(c: char) -> bool;

/// Whether `c` may continue an identifier, class name or keyword: an
/// alphanumeric character or an underscore. The ASCII cases are spelled
/// out so that they are known here; `unicode_alnum` covers the rest.
pub open spec fn is_ident_char(c: char) -> bool {
    is_ascii_letter(c) || is_digit(c) || c == '_' || unicode_alnum(c)
}

/// Whether `c` ends the body of a string literal: the closing quote or one
/// of the two characters that are illegal inside it.
pub open spec fn is_str_stop(c: char) -> bool {
    c == '"' || c == '\0' || c == '\n'
}

/// The index of the first non-whitespace character at or after `i`, or the
/// end of the input.
pub open spec fn ws_end(s: Seq<char>, i: int) -> int
    recommends
        0 <= i <= s.len(),
    decreases s.len() - i,
{
    if i >= s.len() || !is_ws(s[i]) {
        i
    } else {
        ws_end(s, i + 1)
    }
}

/// The index just past the maximal run of ASCII digits starting at `i`.
pub open spec fn digits_end(s: Seq<char>, i: int) -> int
    recommends
        0 <= i <= s.len(),
    decreases s.len() - i,
{
    if i >= s.len() || !is_digit(s[i]) {
        i
    } else {
        digits_end(s, i + 1)
    }
}

/// The index just past the maximal run of identifier characters starting at `i`.
pub open spec fn ident_end(s: Seq<char>, i: int) -> int
    recommends
        0 <= i <= s.len(),
    decreases s.len() - i,
{
    if i >= s.len() || !is_ident_char(s[i]) {
        i
    } else {
        ident_end(s, i + 1)
    }
}

/// The index of the first character at or after `i` that ends a string body,
/// or the end of the input.
pub open spec fn str_body_end(s: Seq<char>, i: int) -> int
    recommends
        0 <= i <= s.len(),
    decreases s.len() - i,
{
    if i >= s.len() || is_str_stop(s[i]) {
        i
    } else {
        str_body_end(s, i + 1)
    }
}

/// The numeric value of the ASCII digit `c`.
pub open spec fn digit_val(c: char) -> int {
    c as int - '0' as int
}

/// The value of a run of ASCII digits read as a decimal numeral.
pub open spec fn digits_val(s: Seq<char>) -> int
    decreases s.len(),
{
    if s.len() == 0 {
        0
    } else {
        digits_val(s.drop_last()) * 10 + digit_val(s.last())
    }
}

/// The fixed keyword table: the token kind reserved for the word `w`, if any.
/// Lookup is case-sensitive, so only the exact reserved spelling matches.
pub open spec fn keyword_token(w: Seq<char>) -> Option<TokenKind> {
    if w == "true"@ {
        Some(TokenKind::BoolLiteral(true))
    } else if w == "false"@ {
        Some(TokenKind::BoolLiteral(false))
    } else if w == "if"@ {
        Some(TokenKind::If)
    } else if w == "fi"@ {
        Some(TokenKind::Fi)
    } else if w == "else"@ {
        Some(TokenKind::Else)
    } else if w == "while"@ {
        Some(TokenKind::While)
    } else if w == "case"@ {
        Some(TokenKind::Case)
    } else if w == "esac"@ {
        Some(TokenKind::Esac)
    } else if w == "isvoid"@ {
        Some(TokenKind::IsVoid)
    } else if w == "let"@ {
        Some(TokenKind::Let)
    } else if w == "loop"@ {
        Some(TokenKind::Loop)
    } else if w == "new"@ {
        Some(TokenKind::New)
    } else if w == "not"@ {
        Some(TokenKind::Not)
    } else if w == "of"@ {
        Some(TokenKind::Of)
    } else if w == "pool"@ {
        Some(TokenKind::Pool)
    } else if w == "then"@ {
        Some(TokenKind::Then)
    } else if w == "in"@ {
        Some(TokenKind::In)
    } else if w == "inherits"@ {
        Some(TokenKind::Inherits)
    } else if w == "class"@ {
        Some(TokenKind::Class)
    } else {
        None
    }
}

/// Classifies a scanned word: a keyword keeps its reserved kind; otherwise
/// an uppercase first character makes a class name and anything else an
/// identifier. A word always starts with an ASCII letter or an underscore,
/// so the case test needs no Unicode table.
pub open spec fn token_of_word(w: Seq<char>) -> TokenKind {
    match keyword_token(w) {
        Some(t) => t,
        None => if 'A' <= w[0] && w[0] <= 'Z' {
            TokenKind::ClassName(w)
        } else {
            TokenKind::Ident(w)
        },
    }
}

/// Relies on `char::is_alphanumeric`: whether the character is in the
/// Unicode alphabetic or numeric categories. The result depends on the
/// character alone, and every ASCII letter and digit qualifies.
#[verifier::external_body]
fn alnum_char(c: char) -> (r: bool)
    ensures
        r == unicode_alnum(c),
        is_ascii_letter(c) || is_digit(c) ==> r,
{
    c.is_alphanumeric()
}

/// Decides `is_ws` in executable code: the Unicode `White_Space` list.
fn ws_char(c: char) -> (r: bool)
    ensures
        r == is_ws(c),
{
    let u = c as u32;
    (0x09 <= u && u <= 0x0D) || u == 0x20 || u == 0x85 || u == 0xA0 || u == 0x1680 || (0x2000 <= u
        && u <= 0x200A) || u == 0x2028 || u == 0x2029 || u == 0x202F || u == 0x205F || u == 0x3000
}

/// Decides `is_digit` in executable code.
fn digit_char(c: char) -> (r: bool)
    ensures
        r == is_digit(c),
{
    '0' <= c && c <= '9'
}

/// Decides `is_ident_start` in executable code.
fn ident_start_char(c: char) -> (r: bool)
    ensures
        r == is_ident_start(c),
{
    ('a' <= c && c <= 'z') || ('A' <= c && c <= 'Z') || c == '_'
}

/// What one call to `next_token` does on input `s` with the cursor at `i`:
/// the token or error produced, the index where the token starts (after the
/// skipped whitespace), and the index where the scan leaves the cursor.
pub struct Lexed {
    pub out: Result<TokenKind, LexerError>,
    pub start: int,
    pub end: int,
}

/// The token-recognition step itself. Whitespace is skipped, then the first
/// remaining character selects the scan: end of input, single-character
/// punctuation, a string literal, an integer literal, a word, or an invalid
/// character. A failing call on an invalid character still consumes that one
/// character, so repeated calls always make progress; this is a deliberate
/// choice, not an accident of the scan.
pub open spec fn lex_step(s: Seq<char>, i: int) -> Lexed
    recommends
        0 <= i <= s.len(),
{
    let st = ws_end(s, i);
    if st >= s.len() {
        Lexed { out: Ok(TokenKind::Eof), start: st, end: st }
    } else {
        let c = s[st];
        if c == '{' {
            Lexed { out: Ok(TokenKind::LBrace), start: st, end: st + 1 }
        } else if c == '}' {
            Lexed { out: Ok(TokenKind::RBrace), start: st, end: st + 1 }
        } else if c == ';' {
            Lexed { out: Ok(TokenKind::Semicolon), start: st, end: st + 1 }
        } else if c == '"' {
            let e = str_body_end(s, st + 1);
            if e >= s.len() {
                Lexed { out: Err(LexerError::StringContainsEof), start: st, end: e }
            } else if s[e] == '"' {
                Lexed {
                    out: Ok(TokenKind::StringLiteral(s.subrange(st + 1, e))),
                    start: st,
                    end: e + 1,
                }
            } else if s[e] == '\0' {
                Lexed { out: Err(LexerError::StringContainsNull), start: st, end: e }
            } else {
                Lexed { out: Err(LexerError::StringUnterminated), start: st, end: e }
            }
        } else if is_digit(c) {
            let e = digits_end(s, st);
            if digits_val(s.subrange(st, e)) > i64::MAX {
                Lexed { out: Err(LexerError::InvalidChar('0')), start: st, end: e }
            } else {
                Lexed {
                    out: Ok(TokenKind::IntLiteral(digits_val(s.subrange(st, e)))),
                    start: st,
                    end: e,
                }
            }
        } else if is_ident_start(c) {
            let e = ident_end(s, st);
            Lexed { out: Ok(token_of_word(s.subrange(st, e))), start: st, end: e }
        } else {
            Lexed { out: Err(LexerError::InvalidChar(c)), start: st, end: st + 1 }
        }
    }
}

impl Pos {
    /// Builds a position from its three coordinates.
    pub fn new(offset: usize, line: usize, col: usize) -> (p: Self)
        ensures
            p == (Pos { offset, line, col }),
    {
        Self { offset, line, col }
    }

    /// Advances the position past one consumed character: a newline starts
    /// the next line at column 0, anything else moves one column right.
    fn advance(&mut self, c: char)
        requires
            old(self).offset < usize::MAX,
            old(self).line < usize::MAX,
            old(self).col < usize::MAX,
        ensures
            final(self).offset == old(self).offset + 1,
            c == '\n' ==> final(self).line == old(self).line + 1 && final(self).col == 0,
            c != '\n' ==> final(self).line == old(self).line && final(self).col == old(self).col
                + 1,
    {
        self.offset = self.offset + 1;
        if c == '\n' {
            self.line = self.line + 1;
            self.col = 0;
        } else {
            self.col = self.col + 1;
        }
    }
}

/// Whether two string slices hold the same characters.
fn str_eq(a: &str, b: &str) -> (r: bool)
    ensures
        r == (a@ == b@),
{
    let an = a.unicode_len();
    let bn = b.unicode_len();
    if an != bn {
        return false;
    }
    let mut i: usize = 0;
    loop
        invariant
            an == a@.len(),
            bn == b@.len(),
            an == bn,
            i <= an,
            forall|j: int| 0 <= j < i ==> a@[j] == b@[j],
        ensures
            i == an,
            forall|j: int| 0 <= j < i ==> a@[j] == b@[j],
        decreases an - i,
    {
        if i >= an {
            break ;
        }
        if a.get_char(i) != b.get_char(i) {
            return false;
        }
        i = i + 1;
    }
    proof {
        assert(a@ =~= b@);
    }
    true
}

/// Looks a scanned word up in the fixed keyword table.
fn keyword_lookup(w: &str) -> (r: Option<TokenType>)
    ensures
        match r {
            Some(t) => keyword_token(w@) == Some(t@),
            None => keyword_token(w@) is None,
        },
{
    if str_eq(w, "true") {
        Some(TokenType::BoolLiteral(true))
    } else if str_eq(w, "false") {
        Some(TokenType::BoolLiteral(false))
    } else if str_eq(w, "if") {
        Some(TokenType::If)
    } else if str_eq(w, "fi") {
        Some(TokenType::Fi)
    } else if str_eq(w, "else") {
        Some(TokenType::Else)
    } else if str_eq(w, "while") {
        Some(TokenType::While)
    } else if str_eq(w, "case") {
        Some(TokenType::Case)
    } else if str_eq(w, "esac") {
        Some(TokenType::Esac)
    } else if str_eq(w, "isvoid") {
        Some(TokenType::IsVoid)
    } else if str_eq(w, "let") {
        Some(TokenType::Let)
    } else if str_eq(w, "loop") {
        Some(TokenType::Loop)
    } else if str_eq(w, "new") {
        Some(TokenType::New)
    } else if str_eq(w, "not") {
        Some(TokenType::Not)
    } else if str_eq(w, "of") {
        Some(TokenType::Of)
    } else if str_eq(w, "pool") {
        Some(TokenType::Pool)
    } else if str_eq(w, "then") {
        Some(TokenType::Then)
    } else if str_eq(w, "in") {
        Some(TokenType::In)
    } else if str_eq(w, "inherits") {
        Some(TokenType::Inherits)
    } else if str_eq(w, "class") {
        Some(TokenType::Class)
    } else {
        None
    }
}

/// The tokenizer engine: borrows the source text for its whole lifetime and
/// owns its cursor state, so separate engines share nothing.
pub struct Lexer<'a> {
    buffer: &'a str,
    length: usize,
    cursor: usize,
    pos: Pos,
}

impl<'a> Lexer<'a> {
    /// The characters of the source text being scanned.
    pub closed spec fn text(self) -> Seq<char> {
        self.buffer@
    }

    /// How many characters have been consumed so far.
    pub closed spec fn at(self) -> int {
        self.cursor as int
    }

    /// Well-formedness: the cursor stays inside the text and the held
    /// position is exactly the one reached by consuming the first `at()`
    /// characters. The strict length bound keeps position arithmetic inside
    /// `usize`.
    pub closed spec fn wf(self) -> bool {
        &&& self.length == self.text().len()
        &&& self.length < usize::MAX
        &&& self.cursor <= self.length
        &&& self.pos == pos_at(self.text(), self.at())
    }

    /// Builds an engine over `buffer`, positioned at its first character,
    /// at line 1 and column 0.
    pub fn new(buffer: &'a str) -> (lexer: Self)
        requires
            buffer@.len() < usize::MAX,
        ensures
            lexer.wf(),
            lexer.text() == buffer@,
            lexer.at() == 0,
    {
        let length = buffer.unicode_len();
        Self { buffer, length, cursor: 0, pos: Pos::new(0, 1, 0) }
    }

    /// The character about to be consumed, or `None` at end of input.
    fn current(&self) -> (r: Option<char>)
        requires
            self.wf(),
        ensures
            r == if self.at() < self.text().len() {
                Some(self.text()[self.at()])
            } else {
                None::<char>
            },
    {
        if self.cursor < self.length {
            Some(self.buffer.get_char(self.cursor))
        } else {
            None
        }
    }

    /// The character after the current one, without consuming either.
    fn peek(&mut self) -> (r: Option<char>)
        requires
            old(self).wf(),
        ensures
            *final(self) == *old(self),
            r == if old(self).at() + 1 < old(self).text().len() {
                Some(old(self).text()[old(self).at() + 1])
            } else {
                None::<char>
            },
    {
        if self.cursor + 1 < self.length {
            Some(self.buffer.get_char(self.cursor + 1))
        } else {
            None
        }
    }

    /// Returns and consumes the current character, keeping the held position
    /// synchronized with what has been read; at end of input it returns
    /// `None` and changes nothing.
    fn advance(&mut self) -> (r: Option<char>)
        requires
            old(self).wf(),
        ensures
            final(self).wf(),
            final(self).text() == old(self).text(),
            old(self).at() < old(self).text().len() ==> r == Some(
                old(self).text()[old(self).at()],
            ) && final(self).at() == old(self).at() + 1,
            old(self).at() >= old(self).text().len() ==> r is None && *final(self) == *old(self),
    {
        if self.cursor < self.length {
            let c = self.buffer.get_char(self.cursor);
            proof {
                lemma_pos_bounds(self.text(), self.at());
            }
            self.pos.advance(c);
            self.cursor = self.cursor + 1;
            Some(c)
        } else {
            None
        }
    }

    /// Skips the maximal run of whitespace characters at the cursor.
    fn skip_whitespace(&mut self)
        requires
            old(self).wf(),
        ensures
            final(self).wf(),
            final(self).text() == old(self).text(),
            final(self).at() == ws_end(old(self).text(), old(self).at()),
    {
        loop
            invariant
                self.wf(),
                self.text() == old(self).text(),
                ws_end(self.text(), self.at()) == ws_end(old(self).text(), old(self).at()),
            ensures
                self.at() == ws_end(old(self).text(), old(self).at()),
            decreases self.text().len() - self.at(),
        {
            if self.cursor >= self.length {
                break ;
            }
            let c = self.buffer.get_char(self.cursor);
            if !ws_char(c) {
                break ;
            }
            self.advance();
        }
    }

    /// Scans a string literal: the cursor stands on the opening quote. The
    /// body is taken verbatim up to the closing quote — no escape processing —
    /// and a null byte, a literal newline or the end of the input inside the
    /// body is a typed error that leaves the cursor on (or, for end of input,
    /// at) the offending place.
    fn tokenize_string(&mut self) -> (res: Result<TokenType, LexerError>)
        requires
            old(self).wf(),
            old(self).at() < old(self).text().len(),
            old(self).text()[old(self).at()] == '"',
        ensures
            final(self).wf(),
            final(self).text() == old(self).text(),
            ({
                let s = old(self).text();
                let st = old(self).at();
                let e = str_body_end(s, st + 1);
                if e >= s.len() {
                    final(self).at() == e && res == Err::<TokenType, LexerError>(
                        LexerError::StringContainsEof,
                    )
                } else if s[e] == '"' {
                    final(self).at() == e + 1 && (res matches Ok(t) && t@
                        == TokenKind::StringLiteral(s.subrange(st + 1, e)))
                } else if s[e] == '\0' {
                    final(self).at() == e && res == Err::<TokenType, LexerError>(
                        LexerError::StringContainsNull,
                    )
                } else {
                    final(self).at() == e && res == Err::<TokenType, LexerError>(
                        LexerError::StringUnterminated,
                    )
                }
            }),
    {
        let ghost s = self.text();
        let ghost st = self.at();
        self.advance();
        let body_start = self.cursor;
        loop
            invariant
                self.wf(),
                self.text() == s,
                0 <= st,
                st + 1 <= self.at() <= s.len(),
                str_body_end(s, st + 1) == str_body_end(s, self.at()),
            ensures
                self.wf(),
                self.text() == s,
                self.at() == str_body_end(s, st + 1),
            decreases s.len() - self.at(),
        {
            if self.cursor >= self.length {
                break ;
            }
            let c = self.buffer.get_char(self.cursor);
            if c == '"' || c == '\0' || c == '\n' {
                break ;
            }
            self.advance();
        }
        if self.cursor >= self.length {
            return Err(LexerError::StringContainsEof);
        }
        let c = self.buffer.get_char(self.cursor);
        if c == '"' {
            let b = self.buffer;
            let w = b.substring_char(body_start, self.cursor);
            let payload = w.to_owned();
            self.advance();
            Ok(TokenType::StringLiteral(payload))
        } else if c == '\0' {
            Err(LexerError::StringContainsNull)
        } else {
            Err(LexerError::StringUnterminated)
        }
    }

    /// Scans an integer literal: the cursor stands on a digit. The maximal
    /// digit run is always consumed; a value beyond the 64-bit signed range
    /// is reported as an invalid-character error carrying the placeholder
    /// digit `'0'`, since no dedicated overflow error exists.
    fn tokenize_number(&mut self) -> (res: Result<TokenType, LexerError>)
        requires
            old(self).wf(),
            old(self).at() < old(self).text().len(),
            is_digit(old(self).text()[old(self).at()]),
        ensures
            final(self).wf(),
            final(self).text() == old(self).text(),
            ({
                let s = old(self).text();
                let st = old(self).at();
                let e = digits_end(s, st);
                let v = digits_val(s.subrange(st, e));
                final(self).at() == e && if v > i64::MAX {
                    res == Err::<TokenType, LexerError>(LexerError::InvalidChar('0'))
                } else {
                    0 <= v && res == Ok::<TokenType, LexerError>(TokenType::IntLiteral(v as i64))
                }
            }),
    {
        let ghost s = self.text();
        let ghost st = self.at();
        let mut val: i64 = 0;
        let mut over: bool = false;
        loop
            invariant
                self.wf(),
                self.text() == s,
                0 <= st <= self.at() <= s.len(),
                digits_end(s, st) == digits_end(s, self.at()),
                forall|j: int| st <= j < self.at() ==> is_digit(s[j]),
                !over ==> 0 <= val && val as int == digits_val(s.subrange(st, self.at())),
                over ==> digits_val(s.subrange(st, self.at())) > i64::MAX,
            ensures
                self.wf(),
                self.text() == s,
                self.at() == digits_end(s, st),
                !over ==> 0 <= val && val as int == digits_val(s.subrange(st, self.at())),
                over ==> digits_val(s.subrange(st, self.at())) > i64::MAX,
            decreases s.len() - self.at(),
        {
            if self.cursor >= self.length {
                break ;
            }
            let c = self.buffer.get_char(self.cursor);
            if !digit_char(c) {
                break ;
            }
            let ghost prefix = s.subrange(st, self.at());
            self.advance();
            proof {
                assert(s.subrange(st, self.at()) =~= prefix.push(c));
                assert(prefix.push(c).drop_last() =~= prefix);
            }
            let d = (c as u32 - '0' as u32) as i64;
            if over {
            } else if val > (i64::MAX - d) / 10 {
                over = true;
            } else {
                val = val * 10 + d;
            }
        }
        if over {
            Err(LexerError::InvalidChar('0'))
        } else {
            Ok(TokenType::IntLiteral(val))
        }
    }

    /// Scans an identifier, class name or keyword: the cursor stands on an
    /// ASCII letter or underscore. The maximal run of identifier characters
    /// is consumed, the keyword table is consulted first, and a non-keyword
    /// is classified by the case of its first character.
    fn tokenize_ident(&mut self) -> (res: Result<TokenType, LexerError>)
        requires
            old(self).wf(),
            old(self).at() < old(self).text().len(),
            is_ident_start(old(self).text()[old(self).at()]),
        ensures
            final(self).wf(),
            final(self).text() == old(self).text(),
            ({
                let s = old(self).text();
                let st = old(self).at();
                let e = ident_end(s, st);
                final(self).at() == e && (res matches Ok(t) && t@ == token_of_word(
                    s.subrange(st, e),
                ))
            }),
    {
        let start = self.cursor;
        let ghost s = self.text();
        let ghost st = self.at();
        loop
            invariant
                self.wf(),
                self.text() == s,
                0 <= st <= self.at() <= s.len(),
                st < s.len(),
                is_ident_start(s[st]),
                ident_end(s, st) == ident_end(s, self.at()),
            ensures
                self.wf(),
                self.text() == s,
                st < self.at(),
                self.at() == ident_end(s, st),
            decreases s.len() - self.at(),
        {
            if self.cursor >= self.length {
                break ;
            }
            let c = self.buffer.get_char(self.cursor);
            if c != '_' && !alnum_char(c) {
                break ;
            }
            self.advance();
        }
        let b = self.buffer;
        let w = b.substring_char(start, self.cursor);
        match keyword_lookup(w) {
            Some(t) => Ok(t),
            None => {
                let c0 = w.get_char(0);
                if 'A' <= c0 && c0 <= 'Z' {
                    Ok(TokenType::ClassName(w.to_owned()))
                } else {
                    Ok(TokenType::Ident(w.to_owned()))
                }
            },
        }
    }

    /// Produces the next token of the input, or the typed error that
    /// prevented one. The call skips leading whitespace, recognizes exactly
    /// what `lex_step` describes at the old cursor, leaves the cursor where
    /// `lex_step` says, and tags a produced token with the span of the
    /// characters consumed for it.
    pub fn next_token(&mut self) -> (res: Result<Token, LexerError>)
        requires
            old(self).wf(),
        ensures
            final(self).wf(),
            final(self).text() == old(self).text(),
            ({
                let step = lex_step(old(self).text(), old(self).at());
                final(self).at() == step.end && match res {
                    Ok(t) => step.out == Ok::<TokenKind, LexerError>(t.token_type@)
                        && t.span.start == pos_at(old(self).text(), step.start) && t.span.end
                        == pos_at(old(self).text(), step.end),
                    Err(e) => step.out == Err::<TokenKind, LexerError>(e),
                }
            }),
    {
        self.skip_whitespace();
        let start = self.pos;
        if self.cursor >= self.length {
            return Ok(Token { token_type: TokenType::Eof, span: Span { start, end: self.pos } });
        }
        let c = self.buffer.get_char(self.cursor);
        if c == '{' {
            self.advance();
            Ok(Token { token_type: TokenType::LBrace, span: Span { start, end: self.pos } })
        } else if c == '}' {
            self.advance();
            Ok(Token { token_type: TokenType::RBrace, span: Span { start, end: self.pos } })
        } else if c == ';' {
            self.advance();
            Ok(Token { token_type: TokenType::Semicolon, span: Span { start, end: self.pos } })
        } else if c == '"' {
            match self.tokenize_string() {
                Ok(t) => Ok(Token { token_type: t, span: Span { start, end: self.pos } }),
                Err(e) => Err(e),
            }
        } else if digit_char(c) {
            match self.tokenize_number() {
                Ok(t) => Ok(Token { token_type: t, span: Span { start, end: self.pos } }),
                Err(e) => Err(e),
            }
        } else if ident_start_char(c) {
            match self.tokenize_ident() {
                Ok(t) => Ok(Token { token_type: t, span: Span { start, end: self.pos } }),
                Err(e) => Err(e),
            }
        } else {
            // A deliberate choice: consume the invalid character, so a caller
            // that simply retries after the error always makes progress.
            self.advance();
            Err(LexerError::InvalidChar(c))
        }
    }

    /// One pull of the lazy token sequence: `None` once the end-of-input
    /// token is reached (that token itself is not yielded), otherwise the
    /// next token or error. Each pull is an independent `next_token` call,
    /// so pulling again after an error resumes wherever the failing scan
    /// left the cursor.
    pub fn next(&mut self) -> (r: Option<Result<Token, LexerError>>)
        requires
            old(self).wf(),
        ensures
            final(self).wf(),
            final(self).text() == old(self).text(),
            ({
                let step = lex_step(old(self).text(), old(self).at());
                final(self).at() == step.end && match r {
                    None => step.out == Ok::<TokenKind, LexerError>(TokenKind::Eof),
                    Some(Ok(t)) => step.out == Ok::<TokenKind, LexerError>(t.token_type@) && !(
                    t.token_type@ == TokenKind::Eof) && t.span.start == pos_at(
                        old(self).text(),
                        step.start,
                    ) && t.span.end == pos_at(old(self).text(), step.end),
                    Some(Err(e)) => step.out == Err::<TokenKind, LexerError>(e),
                }
            }),
    {
        match self.next_token() {
            Ok(token) => {
                if let TokenType::Eof = token.token_type {
                    None
                } else {
                    Some(Ok(token))
                }
            },
            Err(e) => Some(Err(e)),
        }
    }
}

} // verus!
