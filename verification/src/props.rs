//! Library-wide laws of the tokenizer, stated over the spec model
//! (`lex_step` and its helpers) and proved once for every input.

use vstd::prelude::*;

use crate::lexer::{
    dec_digits, digit_char_of, digit_val, digits_end, digits_val, ident_end, is_digit,
    is_ident_char, is_ident_start, is_str_stop, is_ws, lex_step, str_body_end, ws_end, LexerError,
    TokenKind,
};

verus! {

/// Skipping whitespace over an all-whitespace tail reaches the end.
proof fn lemma_ws_end_all(s: Seq<char>, i: int)
    requires
        0 <= i <= s.len(),
        forall|j: int| 0 <= j < s.len() ==> is_ws(s[j]),
    ensures
        ws_end(s, i) == s.len(),
    decreases s.len() - i,
{
    if i < s.len() {
        lemma_ws_end_all(s, i + 1);
    }
}

/// An input consisting solely of whitespace lexes to exactly the
/// end-of-input token on the first call, with a zero-width span at the end.
pub proof fn lemma_whitespace_only_gives_eof(s: Seq<char>)
    requires
        forall|j: int| 0 <= j < s.len() ==> is_ws(s[j]),
    ensures
        lex_step(s, 0).out == Ok::<TokenKind, LexerError>(TokenKind::Eof),
        lex_step(s, 0).start == s.len(),
        lex_step(s, 0).end == s.len(),
{
    lemma_ws_end_all(s, 0);
}

/// The decimal text of `n` is a non-empty digit run whose numeric value
/// is `n` again.
proof fn lemma_dec_digits(n: int)
    requires
        0 <= n,
    ensures
        dec_digits(n).len() >= 1,
        forall|j: int| 0 <= j < dec_digits(n).len() ==> is_digit(#[trigger] dec_digits(n)[j]),
        digits_val(dec_digits(n)) == n,
    decreases n,
{
    if n < 10 {
        let c = digit_char_of(n);
        assert(c as int == n + '0' as int);
        assert(is_digit(c));
        assert(dec_digits(n).drop_last() =~= Seq::<char>::empty());
        assert(digits_val(Seq::<char>::empty()) == 0);
        assert(dec_digits(n).last() == c);
        assert(digits_val(dec_digits(n)) == digit_val(c));
    } else {
        lemma_dec_digits(n / 10);
        let w = dec_digits(n / 10);
        let c = digit_char_of(n % 10);
        assert(0 <= n % 10 < 10);
        assert(c as int == n % 10 + '0' as int);
        assert(is_digit(c));
        assert(w.push(c).drop_last() =~= w);
        assert(digits_val(w.push(c)) == (n / 10) * 10 + n % 10);
        assert((n / 10) * 10 + n % 10 == n);
        assert(forall|j: int|
            0 <= j < w.push(c).len() ==> is_digit(#[trigger] w.push(c)[j]));
    }
}

/// A maximal digit run over an all-digit tail reaches the end.
proof fn lemma_digits_end_all(s: Seq<char>, i: int)
    requires
        0 <= i <= s.len(),
        forall|j: int| 0 <= j < s.len() ==> is_digit(s[j]),
    ensures
        digits_end(s, i) == s.len(),
    decreases s.len() - i,
{
    if i < s.len() {
        lemma_digits_end_all(s, i + 1);
    }
}

/// Lexing the decimal text of any non-negative 64-bit integer yields a
/// single integer-literal token carrying exactly that value, whose span
/// covers exactly the digit run.
pub proof fn lemma_int_literal_lexes_exactly(n: i64)
    requires
        0 <= n,
    ensures
        lex_step(dec_digits(n as int), 0).out == Ok::<TokenKind, LexerError>(
            TokenKind::IntLiteral(n as int),
        ),
        lex_step(dec_digits(n as int), 0).start == 0,
        lex_step(dec_digits(n as int), 0).end == dec_digits(n as int).len(),
{
    let s = dec_digits(n as int);
    lemma_dec_digits(n as int);
    assert(is_digit(s[0]));
    assert(ws_end(s, 0) == 0);
    lemma_digits_end_all(s, 0);
    assert(s.subrange(0, s.len() as int) =~= s);
}

/// The scan of a string body stops at the first quote, null or newline,
/// or at the end of the input if there is none.
proof fn lemma_str_body_end_from(s: Seq<char>, i: int, e: int)
    requires
        0 <= i <= e <= s.len(),
        forall|j: int| i <= j < e ==> !is_str_stop(s[j]),
        e == s.len() || is_str_stop(s[e]),
    ensures
        str_body_end(s, i) == e,
    decreases e - i,
{
    if i < e {
        lemma_str_body_end_from(s, i + 1, e);
    }
}

/// Wrapping any text free of quotes, nulls and newlines in double quotes
/// lexes to a single string-literal token whose payload is exactly that
/// text, with no transformation applied.
pub proof fn lemma_string_literal_roundtrip(body: Seq<char>)
    requires
        forall|j: int| 0 <= j < body.len() ==> !is_str_stop(body[j]),
    ensures
        lex_step(seq!['"'] + body + seq!['"'], 0).out == Ok::<TokenKind, LexerError>(
            TokenKind::StringLiteral(body),
        ),
        lex_step(seq!['"'] + body + seq!['"'], 0).start == 0,
        lex_step(seq!['"'] + body + seq!['"'], 0).end == body.len() + 2,
{
    let s = seq!['"'] + body + seq!['"'];
    assert(s[0] == '"');
    assert(ws_end(s, 0) == 0);
    let e = body.len() as int + 1;
    assert(forall|j: int| 1 <= j < e ==> s[j] == body[j - 1]);
    assert(s[e] == '"');
    lemma_str_body_end_from(s, 1, e);
    assert(s.subrange(1, e) =~= body);
}

/// A string literal whose body reaches a literal newline before any closing
/// quote (or null) fails with the string-unterminated error.
pub proof fn lemma_string_newline_unterminated(body: Seq<char>, j: int)
    requires
        0 <= j < body.len(),
        body[j] == '\n',
        forall|k: int| 0 <= k < j ==> !is_str_stop(body[k]),
    ensures
        lex_step(seq!['"'] + body, 0).out == Err::<TokenKind, LexerError>(
            LexerError::StringUnterminated,
        ),
{
    let s = seq!['"'] + body;
    assert(s[0] == '"');
    assert(ws_end(s, 0) == 0);
    assert(forall|k: int| 1 <= k < j + 1 ==> s[k] == body[k - 1]);
    assert(s[j + 1] == '\n');
    lemma_str_body_end_from(s, 1, j + 1);
}

/// A string literal whose body reaches a null byte before any closing quote
/// (or newline) fails with the string-contains-null error.
pub proof fn lemma_string_null_rejected(body: Seq<char>, j: int)
    requires
        0 <= j < body.len(),
        body[j] == '\0',
        forall|k: int| 0 <= k < j ==> !is_str_stop(body[k]),
    ensures
        lex_step(seq!['"'] + body, 0).out == Err::<TokenKind, LexerError>(
            LexerError::StringContainsNull,
        ),
{
    let s = seq!['"'] + body;
    assert(s[0] == '"');
    assert(ws_end(s, 0) == 0);
    assert(forall|k: int| 1 <= k < j + 1 ==> s[k] == body[k - 1]);
    assert(s[j + 1] == '\0');
    lemma_str_body_end_from(s, 1, j + 1);
}

/// A string literal with no closing quote, null or newline before the end
/// of the input fails with the string-contains-eof error.
pub proof fn lemma_string_eof_rejected(body: Seq<char>)
    requires
        forall|j: int| 0 <= j < body.len() ==> !is_str_stop(body[j]),
    ensures
        lex_step(seq!['"'] + body, 0).out == Err::<TokenKind, LexerError>(
            LexerError::StringContainsEof,
        ),
{
    let s = seq!['"'] + body;
    assert(s[0] == '"');
    assert(ws_end(s, 0) == 0);
    assert(forall|j: int| 1 <= j < s.len() ==> s[j] == body[j - 1]);
    lemma_str_body_end_from(s, 1, s.len() as int);
}

/// Whitespace skipping moves neither backwards nor past the end.
proof fn lemma_ws_end_bounds(s: Seq<char>, i: int)
    requires
        0 <= i <= s.len(),
    ensures
        i <= ws_end(s, i) <= s.len(),
    decreases s.len() - i,
{
    if i < s.len() && is_ws(s[i]) {
        lemma_ws_end_bounds(s, i + 1);
    }
}

/// A digit run moves neither backwards nor past the end.
proof fn lemma_digits_end_bounds(s: Seq<char>, i: int)
    requires
        0 <= i <= s.len(),
    ensures
        i <= digits_end(s, i) <= s.len(),
    decreases s.len() - i,
{
    if i < s.len() && is_digit(s[i]) {
        lemma_digits_end_bounds(s, i + 1);
    }
}

/// An identifier run moves neither backwards nor past the end.
proof fn lemma_ident_end_bounds(s: Seq<char>, i: int)
    requires
        0 <= i <= s.len(),
    ensures
        i <= ident_end(s, i) <= s.len(),
    decreases s.len() - i,
{
    if i < s.len() && is_ident_char(s[i]) {
        lemma_ident_end_bounds(s, i + 1);
    }
}

/// A string-body scan moves neither backwards nor past the end.
proof fn lemma_str_body_end_bounds(s: Seq<char>, i: int)
    requires
        0 <= i <= s.len(),
    ensures
        i <= str_body_end(s, i) <= s.len(),
    decreases s.len() - i,
{
    if i < s.len() && !is_str_stop(s[i]) {
        lemma_str_body_end_bounds(s, i + 1);
    }
}

/// One call never leaves the cursor outside the input, and unless it
/// produced the end-of-input token it consumes at least one character —
/// in particular an invalid character, which the failing call deliberately
/// consumes — so repeated calls always make progress.
pub proof fn lemma_next_token_progress(s: Seq<char>, i: int)
    requires
        0 <= i <= s.len(),
    ensures
        i <= lex_step(s, i).start,
        lex_step(s, i).start <= lex_step(s, i).end <= s.len(),
        lex_step(s, i).out != Ok::<TokenKind, LexerError>(TokenKind::Eof) ==> i < lex_step(
            s,
            i,
        ).end,
{
    lemma_ws_end_bounds(s, i);
    let st = ws_end(s, i);
    if st < s.len() {
        let c = s[st];
        if c == '"' {
            lemma_str_body_end_bounds(s, st + 1);
        } else if is_digit(c) {
            lemma_digits_end_bounds(s, st + 1);
            assert(digits_end(s, st) == digits_end(s, st + 1));
        } else if is_ident_start(c) {
            assert(is_ident_char(c));
            lemma_ident_end_bounds(s, st + 1);
            assert(ident_end(s, st) == ident_end(s, st + 1));
        }
    }
}

} // verus!
