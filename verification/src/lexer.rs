//! The lexical layer: source characters to tokens.
//!
//! Identifiers start with a letter and continue with letters, digits and
//! underscores; the reserved words `if`, `then`, `else`, `fn`, `let`, `true`
//! and `false` are keywords, not identifiers. An operator token is a maximal
//! run of the operator characters `+ - * / = < >`. Integer literals are digit
//! runs that must fit in an `i64`; string literals are double-quoted with the
//! escapes `\"`, `\\`, `\n`, `\t` and `\r`. Whitespace, `//` line comments
//! and `/* .. */` block comments separate tokens. Any character that fits
//! none of these classes is a position-tagged lexical error.
//!
//! `spec_tokenize` is the mathematical definition of the token stream of a
//! character sequence; `tokenize` computes it and is proved to agree with it.

use vstd::prelude::*;

use crate::ast::ErrV;
use crate::ast::ParseError;
use crate::ast::ParseErrorKind;

verus! {

/// The shape of one token. `Int` carries the literal's value; the others
/// carry only their source range (in `Token`).
#[derive(Debug, PartialEq, Eq, Structural, Clone, Copy)]
pub enum TokKind {
    KwIf,
    KwThen,
    KwElse,
    KwFn,
    KwLet,
    KwTrue,
    KwFalse,
    /// An identifier; the source range holds the name.
    Ident,
    /// An integer literal and its value.
    Int(i64),
    /// A string literal; the source range includes both quotes.
    Str,
    /// A maximal run of operator characters; the source range holds the text.
    Op,
    LParen,
    RParen,
    LBrace,
    RBrace,
    Comma,
    Semi,
    Colon,
}

/// One token: its shape and the half-open source range `[start, end)` it was
/// read from.
#[derive(Debug, PartialEq, Eq, Structural, Clone, Copy)]
pub struct Token {
    pub kind: TokKind,
    pub start: usize,
    pub end: usize,
}

/// Spec-level mirror of `Token`.
pub ghost struct TokenG {
    pub kind: TokKind,
    pub start: int,
    pub end: int,
}

impl View for Token {
    type V = TokenG;

    open spec fn view(&self) -> TokenG {
        TokenG { kind: self.kind, start: self.start as int, end: self.end as int }
    }
}

/// The views of a token sequence, element by element.
pub open spec fn toks_g(ts: Seq<Token>) -> Seq<TokenG> {
    ts.map_values(|t: Token| t@)
}

/// Whitespace skipped between tokens.
pub open spec fn is_ws(c: char) -> bool {
    c == ' ' || c == '\t' || c == '\n' || c == '\r'
}

/// The characters an identifier may start with.
pub open spec fn is_letter(c: char) -> bool {
    ('a' as u32 <= c as u32 && c as u32 <= 'z' as u32)
        || ('A' as u32 <= c as u32 && c as u32 <= 'Z' as u32)
}

pub open spec fn is_digit(c: char) -> bool {
    '0' as u32 <= c as u32 && c as u32 <= '9' as u32
}

/// The characters an identifier may continue with.
pub open spec fn is_ident_rest(c: char) -> bool {
    is_letter(c) || is_digit(c) || c == '_'
}

/// The operator character class.
pub open spec fn is_op_char(c: char) -> bool {
    c == '+' || c == '-' || c == '*' || c == '/' || c == '=' || c == '<' || c == '>'
}

/// The characters that may follow a backslash in a string literal.
pub open spec fn is_escape_code(c: char) -> bool {
    c == '"' || c == '\\' || c == 'n' || c == 't' || c == 'r'
}

/// What an escape code stands for.
pub open spec fn escape_value(c: char) -> char {
    if c == 'n' {
        '\n'
    } else if c == 't' {
        '\t'
    } else if c == 'r' {
        '\r'
    } else {
        c
    }
}

/// The numeric value of a digit character (0 for anything else).
pub open spec fn digit_of(c: char) -> nat {
    if is_digit(c) {
        (c as u32 - '0' as u32) as nat
    } else {
        0
    }
}

/// How many characters remain from position `i`.
pub open spec fn rem(s: Seq<char>, i: int) -> nat {
    if i <= s.len() {
        (s.len() - i) as nat
    } else {
        0
    }
}

/// Length of the identifier-continuation run starting at `i`.
pub open spec fn word_len(s: Seq<char>, i: int) -> nat
    decreases rem(s, i),
{
    if 0 <= i < s.len() && is_ident_rest(s[i]) {
        1 + word_len(s, i + 1)
    } else {
        0
    }
}

/// Length of the digit run starting at `i`.
pub open spec fn digits_len(s: Seq<char>, i: int) -> nat
    decreases rem(s, i),
{
    if 0 <= i < s.len() && is_digit(s[i]) {
        1 + digits_len(s, i + 1)
    } else {
        0
    }
}

/// Length of the operator-character run starting at `i`.
pub open spec fn oprun_len(s: Seq<char>, i: int) -> nat
    decreases rem(s, i),
{
    if 0 <= i < s.len() && is_op_char(s[i]) {
        1 + oprun_len(s, i + 1)
    } else {
        0
    }
}

/// Length of the rest of the line starting at `i` (the newline excluded).
pub open spec fn line_len(s: Seq<char>, i: int) -> nat
    decreases rem(s, i),
{
    if 0 <= i < s.len() && s[i] != '\n' {
        1 + line_len(s, i + 1)
    } else {
        0
    }
}

/// Distance from `i` to the first `*/` at or after it, if any.
pub open spec fn comment_close(s: Seq<char>, i: int) -> Option<nat>
    decreases rem(s, i),
{
    if i < 0 || i + 2 > s.len() {
        None
    } else if s[i] == '*' && s[i + 1] == '/' {
        Some(0nat)
    } else {
        match comment_close(s, i + 1) {
            Some(n) => Some(n + 1),
            None => None,
        }
    }
}

/// Length of the string-literal body starting at `i` (just after the opening
/// quote), up to but not including the closing quote. `Err(p)` tags a bad
/// escape at `p` or an unterminated literal at the end of input.
pub open spec fn str_body_len(s: Seq<char>, i: int) -> Result<nat, int>
    decreases rem(s, i),
{
    if i < 0 || i >= s.len() {
        Err(s.len() as int)
    } else if s[i] == '"' {
        Ok(0nat)
    } else if s[i] == '\\' {
        if i + 1 < s.len() && is_escape_code(s[i + 1]) {
            match str_body_len(s, i + 2) {
                Ok(n) => Ok(n + 2),
                Err(p) => Err(p),
            }
        } else {
            Err(i)
        }
    } else {
        match str_body_len(s, i + 1) {
            Ok(n) => Ok(n + 1),
            Err(p) => Err(p),
        }
    }
}

/// The text a string-literal body stands for, with escapes resolved.
pub open spec fn unescape(s: Seq<char>) -> Seq<char>
    decreases s.len(),
{
    if s.len() == 0 {
        Seq::empty()
    } else if s[0] == '\\' && s.len() >= 2 {
        seq![escape_value(s[1])] + unescape(s.skip(2))
    } else {
        seq![s[0]] + unescape(s.skip(1))
    }
}

/// The value of a digit run, most significant digit first.
pub open spec fn digits_val(s: Seq<char>) -> nat
    decreases s.len(),
{
    if s.len() == 0 {
        0
    } else {
        digits_val(s.drop_last()) * 10 + digit_of(s.last())
    }
}

/// How many characters of trivia (whitespace and comments) start at `i`.
/// `Err(p)` tags an unterminated block comment at its opening position.
pub open spec fn trivia_len(s: Seq<char>, i: int) -> Result<nat, int>
    decreases rem(s, i),
{
    if i < 0 || i >= s.len() {
        Ok(0nat)
    } else if is_ws(s[i]) {
        match trivia_len(s, i + 1) {
            Ok(n) => Ok(n + 1),
            Err(p) => Err(p),
        }
    } else if s[i] == '/' && i + 1 < s.len() && s[i + 1] == '/' {
        match trivia_len(s, i + 2 + line_len(s, i + 2)) {
            Ok(n) => Ok(n + 2 + line_len(s, i + 2)),
            Err(p) => Err(p),
        }
    } else if s[i] == '/' && i + 1 < s.len() && s[i + 1] == '*' {
        match comment_close(s, i + 2) {
            Some(k) => match trivia_len(s, i + 2 + k + 2) {
                Ok(n) => Ok(n + 2 + k + 2),
                Err(p) => Err(p),
            },
            None => Err(i),
        }
    } else {
        Ok(0nat)
    }
}

/// The keyword a word stands for, or `Ident` if it is none.
pub open spec fn word_kind(w: Seq<char>) -> TokKind {
    if w == seq!['i', 'f'] {
        TokKind::KwIf
    } else if w == seq!['t', 'h', 'e', 'n'] {
        TokKind::KwThen
    } else if w == seq!['e', 'l', 's', 'e'] {
        TokKind::KwElse
    } else if w == seq!['f', 'n'] {
        TokKind::KwFn
    } else if w == seq!['l', 'e', 't'] {
        TokKind::KwLet
    } else if w == seq!['t', 'r', 'u', 'e'] {
        TokKind::KwTrue
    } else if w == seq!['f', 'a', 'l', 's', 'e'] {
        TokKind::KwFalse
    } else {
        TokKind::Ident
    }
}

/// The shape of the single punctuation character `c`, if it is one.
pub open spec fn punct_kind(c: char) -> Option<TokKind> {
    if c == '(' {
        Some(TokKind::LParen)
    } else if c == ')' {
        Some(TokKind::RParen)
    } else if c == '{' {
        Some(TokKind::LBrace)
    } else if c == '}' {
        Some(TokKind::RBrace)
    } else if c == ',' {
        Some(TokKind::Comma)
    } else if c == ';' {
        Some(TokKind::Semi)
    } else if c == ':' {
        Some(TokKind::Colon)
    } else {
        None
    }
}

/// Prepend a token to a tokenization result.
pub open spec fn cons_tok(t: TokenG, r: Result<Seq<TokenG>, ErrV>) -> Result<Seq<TokenG>, ErrV> {
    match r {
        Ok(rest) => Ok(seq![t] + rest),
        Err(e) => Err(e),
    }
}

/// The token stream of `s` from position `i` on: skip trivia, read one token,
/// continue after it. This is the definition the executable lexer is held to.
pub open spec fn spec_tokenize(s: Seq<char>, i: int) -> Result<Seq<TokenG>, ErrV>
    decreases rem(s, i), 1int,
{
    match trivia_len(s, i) {
        Err(p) => Err(ErrV { kind: ParseErrorKind::Lex, pos: p }),
        Ok(n) => {
            let j = i + n;
            if !(0 <= j < s.len()) {
                Ok(Seq::empty())
            } else {
                spec_token_at(s, j)
            }
        },
    }
}

/// One token read at the non-trivia position `j`, prepended to the stream
/// that follows it.
pub open spec fn spec_token_at(s: Seq<char>, j: int) -> Result<Seq<TokenG>, ErrV>
    decreases rem(s, j), 0int,
{
    let c = s[j];
    if !(0 <= j < s.len()) {
        Ok(Seq::empty())
    } else if is_letter(c) {
        let end = j + 1 + word_len(s, j + 1);
        cons_tok(
            TokenG { kind: word_kind(s.subrange(j, end)), start: j, end },
            spec_tokenize(s, end),
        )
    } else if is_digit(c) {
        let end = j + 1 + digits_len(s, j + 1);
        let v = digits_val(s.subrange(j, end));
        if v > i64::MAX as nat {
            Err(ErrV { kind: ParseErrorKind::Lex, pos: j })
        } else {
            cons_tok(
                TokenG { kind: TokKind::Int(v as i64), start: j, end },
                spec_tokenize(s, end),
            )
        }
    } else if is_op_char(c) {
        let end = j + 1 + oprun_len(s, j + 1);
        cons_tok(TokenG { kind: TokKind::Op, start: j, end }, spec_tokenize(s, end))
    } else if c == '"' {
        match str_body_len(s, j + 1) {
            Err(p) => Err(ErrV { kind: ParseErrorKind::Lex, pos: p }),
            Ok(n) => {
                let end = j + 1 + n + 1;
                cons_tok(TokenG { kind: TokKind::Str, start: j, end }, spec_tokenize(s, end))
            },
        }
    } else {
        match punct_kind(c) {
            Some(k) => cons_tok(
                TokenG { kind: k, start: j, end: j + 1 },
                spec_tokenize(s, j + 1),
            ),
            None => Err(ErrV { kind: ParseErrorKind::Lex, pos: j }),
        }
    }
}

/// What the parser relies on of a token: its range lies within the source,
/// it is not empty, and a string token is quoted with a body that scans as
/// its range says.
pub open spec fn tok_wf(s: Seq<char>, t: TokenG) -> bool {
    &&& 0 <= t.start < t.end <= s.len()
    &&& (t.kind == TokKind::Str ==> t.start + 2 <= t.end && str_body_len(s, t.start + 1)
        == Ok::<nat, int>((t.end - t.start - 2) as nat))
}

/// Every token of the stream is well formed.
pub open spec fn toks_wf(s: Seq<char>, ts: Seq<TokenG>) -> bool {
    forall|i: int| 0 <= i < ts.len() ==> tok_wf(s, #[trigger] ts[i])
}

proof fn lemma_word_len_bound(s: Seq<char>, i: int)
    requires
        0 <= i <= s.len(),
    ensures
        word_len(s, i) <= s.len() - i,
    decreases rem(s, i),
{
    if i < s.len() && is_ident_rest(s[i]) {
        lemma_word_len_bound(s, i + 1);
    }
}

proof fn lemma_digits_len_bound(s: Seq<char>, i: int)
    requires
        0 <= i <= s.len(),
    ensures
        digits_len(s, i) <= s.len() - i,
    decreases rem(s, i),
{
    if i < s.len() && is_digit(s[i]) {
        lemma_digits_len_bound(s, i + 1);
    }
}

proof fn lemma_oprun_len_bound(s: Seq<char>, i: int)
    requires
        0 <= i <= s.len(),
    ensures
        oprun_len(s, i) <= s.len() - i,
    decreases rem(s, i),
{
    if i < s.len() && is_op_char(s[i]) {
        lemma_oprun_len_bound(s, i + 1);
    }
}

proof fn lemma_str_body_bound(s: Seq<char>, i: int)
    requires
        0 <= i,
    ensures
        str_body_len(s, i) matches Ok(n) ==> i + n < s.len() && s[i + n] == '"',
    decreases rem(s, i),
{
    if i < s.len() {
        if s[i] == '"' {
        } else if s[i] == '\\' {
            if i + 1 < s.len() && is_escape_code(s[i + 1]) {
                lemma_str_body_bound(s, i + 2);
            }
        } else {
            lemma_str_body_bound(s, i + 1);
        }
    }
}

proof fn lemma_cons_wf(s: Seq<char>, t: TokenG, r: Result<Seq<TokenG>, ErrV>)
    requires
        tok_wf(s, t),
        r matches Ok(ts) ==> toks_wf(s, ts),
    ensures
        cons_tok(t, r) matches Ok(ts) ==> toks_wf(s, ts),
{
    match r {
        Ok(ts) => {
            assert forall|i: int| 0 <= i < (seq![t] + ts).len() implies tok_wf(
                s,
                #[trigger] (seq![t] + ts)[i],
            ) by {
                if i > 0 {
                    assert((seq![t] + ts)[i] == ts[i - 1]);
                }
            }
        },
        Err(_) => {},
    }
}

/// Every token stream the lexer accepts is well formed.
pub proof fn lemma_tokenize_wf(s: Seq<char>, i: int)
    requires
        0 <= i,
    ensures
        spec_tokenize(s, i) matches Ok(ts) ==> toks_wf(s, ts),
    decreases rem(s, i), 1int,
{
    match trivia_len(s, i) {
        Err(_) => {},
        Ok(n) => {
            let j = i + n;
            if 0 <= j < s.len() {
                lemma_token_at_wf(s, j);
            }
        },
    }
}

proof fn lemma_token_at_wf(s: Seq<char>, j: int)
    requires
        0 <= j < s.len(),
    ensures
        spec_token_at(s, j) matches Ok(ts) ==> toks_wf(s, ts),
    decreases rem(s, j), 0int,
{
    let c = s[j];
    if is_letter(c) {
        let end = j + 1 + word_len(s, j + 1);
        lemma_word_len_bound(s, j + 1);
        lemma_tokenize_wf(s, end);
        lemma_cons_wf(
            s,
            TokenG { kind: word_kind(s.subrange(j, end)), start: j, end },
            spec_tokenize(s, end),
        );
    } else if is_digit(c) {
        let end = j + 1 + digits_len(s, j + 1);
        lemma_digits_len_bound(s, j + 1);
        let v = digits_val(s.subrange(j, end));
        if v <= i64::MAX as nat {
            lemma_tokenize_wf(s, end);
            lemma_cons_wf(
                s,
                TokenG { kind: TokKind::Int(v as i64), start: j, end },
                spec_tokenize(s, end),
            );
        }
    } else if is_op_char(c) {
        let end = j + 1 + oprun_len(s, j + 1);
        lemma_oprun_len_bound(s, j + 1);
        lemma_tokenize_wf(s, end);
        lemma_cons_wf(s, TokenG { kind: TokKind::Op, start: j, end }, spec_tokenize(s, end));
    } else if c == '"' {
        match str_body_len(s, j + 1) {
            Err(_) => {},
            Ok(n) => {
                lemma_str_body_bound(s, j + 1);
                let end = j + 1 + n + 1;
                lemma_tokenize_wf(s, end);
                lemma_cons_wf(
                    s,
                    TokenG { kind: TokKind::Str, start: j, end },
                    spec_tokenize(s, end),
                );
            },
        }
    } else {
        match punct_kind(c) {
            Some(k) => {
                lemma_tokenize_wf(s, j + 1);
                lemma_cons_wf(
                    s,
                    TokenG { kind: k, start: j, end: j + 1 },
                    spec_tokenize(s, j + 1),
                );
            },
            None => {},
        }
    }
}

fn ws(c: char) -> (b: bool)
    ensures
        b == is_ws(c),
{
    c == ' ' || c == '\t' || c == '\n' || c == '\r'
}

fn letter(c: char) -> (b: bool)
    ensures
        b == is_letter(c),
{
    let u = c as u32;
    ('a' as u32 <= u && u <= 'z' as u32) || ('A' as u32 <= u && u <= 'Z' as u32)
}

fn digit(c: char) -> (b: bool)
    ensures
        b == is_digit(c),
{
    let u = c as u32;
    '0' as u32 <= u && u <= '9' as u32
}

fn ident_rest(c: char) -> (b: bool)
    ensures
        b == is_ident_rest(c),
{
    letter(c) || digit(c) || c == '_'
}

fn op_char(c: char) -> (b: bool)
    ensures
        b == is_op_char(c),
{
    c == '+' || c == '-' || c == '*' || c == '/' || c == '=' || c == '<' || c == '>'
}

fn escape_code(c: char) -> (b: bool)
    ensures
        b == is_escape_code(c),
{
    c == '"' || c == '\\' || c == 'n' || c == 't' || c == 'r'
}

fn scan_word(src: &Vec<char>, start: usize) -> (end: usize)
    requires
        start <= src@.len(),
    ensures
        end == start + word_len(src@, start as int),
        start <= end <= src@.len(),
{
    let mut j = start;
    while j < src.len() && ident_rest(src[j])
        invariant
            start <= j <= src@.len(),
            word_len(src@, start as int) == j - start + word_len(src@, j as int),
        decreases src@.len() - j,
    {
        j = j + 1;
    }
    j
}

fn scan_digits(src: &Vec<char>, start: usize) -> (end: usize)
    requires
        start <= src@.len(),
    ensures
        end == start + digits_len(src@, start as int),
        start <= end <= src@.len(),
{
    let mut j = start;
    while j < src.len() && digit(src[j])
        invariant
            start <= j <= src@.len(),
            digits_len(src@, start as int) == j - start + digits_len(src@, j as int),
        decreases src@.len() - j,
    {
        j = j + 1;
    }
    j
}

fn scan_oprun(src: &Vec<char>, start: usize) -> (end: usize)
    requires
        start <= src@.len(),
    ensures
        end == start + oprun_len(src@, start as int),
        start <= end <= src@.len(),
{
    let mut j = start;
    while j < src.len() && op_char(src[j])
        invariant
            start <= j <= src@.len(),
            oprun_len(src@, start as int) == j - start + oprun_len(src@, j as int),
        decreases src@.len() - j,
    {
        j = j + 1;
    }
    j
}

fn scan_line(src: &Vec<char>, start: usize) -> (end: usize)
    requires
        start <= src@.len(),
    ensures
        end == start + line_len(src@, start as int),
        start <= end <= src@.len(),
{
    let mut j = start;
    while j < src.len() && src[j] != '\n'
        invariant
            start <= j <= src@.len(),
            line_len(src@, start as int) == j - start + line_len(src@, j as int),
        decreases src@.len() - j,
    {
        j = j + 1;
    }
    j
}

fn find_comment_close(src: &Vec<char>, start: usize) -> (r: Option<usize>)
    requires
        start <= src@.len(),
    ensures
        match r {
            Some(j) => start <= j && j + 2 <= src@.len() && comment_close(src@, start as int)
                == Some((j - start) as nat),
            None => comment_close(src@, start as int) is None,
        },
{
    let mut j = start;
    while src.len() - j >= 2
        invariant
            start <= j <= src@.len(),
            ({
                match comment_close(src@, j as int) {
                    Some(n) => comment_close(src@, start as int) == Some((n + j - start) as nat),
                    None => comment_close(src@, start as int) is None,
                }
            }),
        decreases src@.len() - j,
    {
        if src[j] == '*' && src[j + 1] == '/' {
            return Some(j);
        }
        j = j + 1;
    }
    None
}

fn scan_string_body(src: &Vec<char>, start: usize) -> (r: Result<usize, usize>)
    requires
        start <= src@.len(),
    ensures
        match r {
            Ok(n) => str_body_len(src@, start as int) == Ok::<nat, int>(n as nat) && start + n
                < src@.len(),
            Err(p) => str_body_len(src@, start as int) == Err::<nat, int>(p as int) && p
                <= src@.len(),
        },
{
    let mut j = start;
    loop
        invariant
            start <= j <= src@.len(),
            ({
                match str_body_len(src@, j as int) {
                    Ok(n) => str_body_len(src@, start as int) == Ok::<nat, int>(
                        (n + j - start) as nat,
                    ),
                    Err(p) => str_body_len(src@, start as int) == Err::<nat, int>(p),
                }
            }),
        decreases src@.len() - j,
    {
        if j >= src.len() {
            return Err(src.len());
        }
        let c = src[j];
        if c == '"' {
            return Ok(j - start);
        }
        if c == '\\' {
            if j + 1 < src.len() && escape_code(src[j + 1]) {
                j = j + 2;
            } else {
                return Err(j);
            }
        } else {
            j = j + 1;
        }
    }
}

fn skip_trivia(src: &Vec<char>, start: usize) -> (r: Result<usize, usize>)
    requires
        start <= src@.len(),
    ensures
        match r {
            Ok(j) => start <= j <= src@.len() && trivia_len(src@, start as int) == Ok::<nat, int>(
                (j - start) as nat,
            ),
            Err(p) => trivia_len(src@, start as int) == Err::<nat, int>(p as int) && p
                < src@.len(),
        },
{
    let mut j = start;
    loop
        invariant
            start <= j <= src@.len(),
            ({
                match trivia_len(src@, j as int) {
                    Ok(n) => trivia_len(src@, start as int) == Ok::<nat, int>(
                        (n + j - start) as nat,
                    ),
                    Err(p) => trivia_len(src@, start as int) == Err::<nat, int>(p),
                }
            }),
        decreases src@.len() - j,
    {
        if j >= src.len() {
            return Ok(j);
        }
        let c = src[j];
        if ws(c) {
            j = j + 1;
        } else if c == '/' && j + 1 < src.len() && src[j + 1] == '/' {
            j = scan_line(src, j + 2);
        } else if c == '/' && j + 1 < src.len() && src[j + 1] == '*' {
            match find_comment_close(src, j + 2) {
                Some(k) => {
                    j = k + 2;
                },
                None => {
                    return Err(j);
                },
            }
        } else {
            return Ok(j);
        }
    }
}

/// The characters of a digit run are digits.
proof fn lemma_digits_run(s: Seq<char>, i: int)
    ensures
        forall|k: int| i <= k < i + digits_len(s, i) ==> is_digit(#[trigger] s[k]),
    decreases rem(s, i),
{
    if 0 <= i < s.len() && is_digit(s[i]) {
        lemma_digits_run(s, i + 1);
    }
}

/// The value of a prefix of a digit run is no more than the whole run's.
proof fn lemma_digits_val_mono(s: Seq<char>, m: int)
    requires
        0 <= m <= s.len(),
    ensures
        digits_val(s.take(m)) <= digits_val(s),
    decreases s.len(),
{
    if m < s.len() {
        assert(s.drop_last().take(m) =~= s.take(m));
        lemma_digits_val_mono(s.drop_last(), m);
    } else {
        assert(s.take(m) =~= s);
    }
}

fn digits_value(src: &Vec<char>, start: usize, end: usize) -> (r: Option<i64>)
    requires
        start <= end <= src@.len(),
        forall|k: int| start <= k < end ==> is_digit(#[trigger] src@[k]),
    ensures
        match r {
            Some(v) => v as int == digits_val(src@.subrange(start as int, end as int)),
            None => digits_val(src@.subrange(start as int, end as int)) > i64::MAX as nat,
        },
{
    let mut acc: i64 = 0;
    let mut k = start;
    while k < end
        invariant
            start <= k <= end <= src@.len(),
            forall|m: int| start <= m < end ==> is_digit(#[trigger] src@[m]),
            0 <= acc,
            acc as int == digits_val(src@.subrange(start as int, k as int)),
        decreases end - k,
    {
        let u = src[k] as u32;
        let d: i64 = ((u - '0' as u32) as u8) as i64;
        proof {
            assert(is_digit(src@[k as int]));
            assert(0 <= d <= 9);
            assert(src@.subrange(start as int, k + 1).drop_last() =~= src@.subrange(
                start as int,
                k as int,
            ));
            assert(src@.subrange(start as int, k + 1).last() == src@[k as int]);
            assert(digits_val(src@.subrange(start as int, k + 1)) == acc * 10 + d);
        }
        if acc > (i64::MAX - d) / 10 {
            proof {
                assert(acc * 10 + d > i64::MAX) by (nonlinear_arith)
                    requires
                        acc > (i64::MAX - d) / 10,
                        0 <= d <= 9,
                        0 <= acc,
                ;
                lemma_digits_val_mono(src@.subrange(start as int, end as int), k + 1 - start);
                assert(src@.subrange(start as int, end as int).take(k + 1 - start)
                    =~= src@.subrange(start as int, k + 1));
            }
            return None;
        }
        proof {
            assert(acc * 10 + d <= i64::MAX) by (nonlinear_arith)
                requires
                    acc <= (i64::MAX - d) / 10,
                    0 <= d <= 9,
                    0 <= acc,
            ;
        }
        acc = acc * 10 + d;
        k = k + 1;
    }
    proof {
        assert(src@.subrange(start as int, end as int) =~= src@.subrange(
            start as int,
            k as int,
        ));
    }
    Some(acc)
}

fn classify_word(src: &Vec<char>, start: usize, end: usize) -> (k: TokKind)
    requires
        start <= end <= src@.len(),
    ensures
        k == word_kind(src@.subrange(start as int, end as int)),
{
    let ghost w = src@.subrange(start as int, end as int);
    let n = end - start;
    if n == 2 && src[start] == 'i' && src[start + 1] == 'f' {
        proof {
            assert(w =~= seq!['i', 'f']);
        }
        TokKind::KwIf
    } else if n == 4 && src[start] == 't' && src[start + 1] == 'h' && src[start + 2] == 'e'
        && src[start + 3] == 'n' {
        proof {
            assert(w =~= seq!['t', 'h', 'e', 'n']);
        }
        TokKind::KwThen
    } else if n == 4 && src[start] == 'e' && src[start + 1] == 'l' && src[start + 2] == 's'
        && src[start + 3] == 'e' {
        proof {
            assert(w =~= seq!['e', 'l', 's', 'e']);
        }
        TokKind::KwElse
    } else if n == 2 && src[start] == 'f' && src[start + 1] == 'n' {
        proof {
            assert(w =~= seq!['f', 'n']);
        }
        TokKind::KwFn
    } else if n == 3 && src[start] == 'l' && src[start + 1] == 'e' && src[start + 2] == 't' {
        proof {
            assert(w =~= seq!['l', 'e', 't']);
        }
        TokKind::KwLet
    } else if n == 4 && src[start] == 't' && src[start + 1] == 'r' && src[start + 2] == 'u'
        && src[start + 3] == 'e' {
        proof {
            assert(w =~= seq!['t', 'r', 'u', 'e']);
        }
        TokKind::KwTrue
    } else if n == 5 && src[start] == 'f' && src[start + 1] == 'a' && src[start + 2] == 'l'
        && src[start + 3] == 's' && src[start + 4] == 'e' {
        proof {
            assert(w =~= seq!['f', 'a', 'l', 's', 'e']);
        }
        TokKind::KwFalse
    } else {
        proof {
            assert(w.len() == n);
            assert(forall|m: int| 0 <= m < n ==> w[m] == src@[start + m]);
        }
        TokKind::Ident
    }
}

/// One step of the main lexing loop: pushing the token the spec stream
/// begins with keeps the partial-result invariant.
proof fn lemma_tok_step(
    s: Seq<char>,
    whole: Result<Seq<TokenG>, ErrV>,
    old_toks: Seq<Token>,
    tok: Token,
    i: int,
    i2: int,
)
    requires
        spec_tokenize(s, i) == cons_tok(tok@, spec_tokenize(s, i2)),
        match spec_tokenize(s, i) {
            Ok(ts) => whole == Ok::<Seq<TokenG>, ErrV>(toks_g(old_toks) + ts),
            Err(e) => whole == Err::<Seq<TokenG>, ErrV>(e),
        },
    ensures
        match spec_tokenize(s, i2) {
            Ok(ts) => whole == Ok::<Seq<TokenG>, ErrV>(toks_g(old_toks.push(tok)) + ts),
            Err(e) => whole == Err::<Seq<TokenG>, ErrV>(e),
        },
{
    match spec_tokenize(s, i2) {
        Ok(ts) => {
            assert(toks_g(old_toks) + (seq![tok@] + ts) =~= toks_g(old_toks.push(tok)) + ts);
        },
        Err(e) => {},
    }
}

/// Lex the whole character sequence, exactly as `spec_tokenize` describes it.
pub fn tokenize(src: &Vec<char>) -> (r: Result<Vec<Token>, ParseError>)
    ensures
        match r {
            Ok(toks) => spec_tokenize(src@, 0) == Ok::<Seq<TokenG>, ErrV>(toks_g(toks@)),
            Err(e) => spec_tokenize(src@, 0) == Err::<Seq<TokenG>, ErrV>(e.deep_view()),
        },
{
    let mut toks: Vec<Token> = Vec::new();
    let mut i: usize = 0;
    loop
        invariant
            i <= src@.len(),
            ({
                match spec_tokenize(src@, i as int) {
                    Ok(ts) => spec_tokenize(src@, 0) == Ok::<Seq<TokenG>, ErrV>(
                        toks_g(toks@) + ts,
                    ),
                    Err(e) => spec_tokenize(src@, 0) == Err::<Seq<TokenG>, ErrV>(e),
                }
            }),
        decreases src@.len() - i,
    {
        let ghost old_toks = toks@;
        let ghost i0 = i as int;
        let j = match skip_trivia(src, i) {
            Ok(j) => j,
            Err(p) => {
                return Err(ParseError { kind: ParseErrorKind::Lex, pos: p });
            },
        };
        if j >= src.len() {
            proof {
                assert(spec_tokenize(src@, i0) == Ok::<Seq<TokenG>, ErrV>(Seq::empty()));
                assert(toks_g(toks@) + Seq::<TokenG>::empty() =~= toks_g(toks@));
            }
            return Ok(toks);
        }
        let c = src[j];
        if letter(c) {
            let end = scan_word(src, j + 1);
            let kind = classify_word(src, j, end);
            let tok = Token { kind, start: j, end };
            proof {
                assert(spec_tokenize(src@, i0) == cons_tok(tok@, spec_tokenize(src@, end as int)));
                lemma_tok_step(src@, spec_tokenize(src@, 0), old_toks, tok, i0, end as int);
            }
            toks.push(tok);
            i = end;
        } else if digit(c) {
            let end = scan_digits(src, j + 1);
            proof {
                lemma_digits_run(src@, j + 1);
            }
            let v = match digits_value(src, j, end) {
                Some(v) => v,
                None => {
                    return Err(ParseError { kind: ParseErrorKind::Lex, pos: j });
                },
            };
            let tok = Token { kind: TokKind::Int(v), start: j, end };
            proof {
                assert(spec_tokenize(src@, i0) == cons_tok(tok@, spec_tokenize(src@, end as int)));
                lemma_tok_step(src@, spec_tokenize(src@, 0), old_toks, tok, i0, end as int);
            }
            toks.push(tok);
            i = end;
        } else if op_char(c) {
            let end = scan_oprun(src, j + 1);
            let tok = Token { kind: TokKind::Op, start: j, end };
            proof {
                assert(spec_tokenize(src@, i0) == cons_tok(tok@, spec_tokenize(src@, end as int)));
                lemma_tok_step(src@, spec_tokenize(src@, 0), old_toks, tok, i0, end as int);
            }
            toks.push(tok);
            i = end;
        } else if c == '"' {
            let n = match scan_string_body(src, j + 1) {
                Ok(n) => n,
                Err(p) => {
                    return Err(ParseError { kind: ParseErrorKind::Lex, pos: p });
                },
            };
            let end = j + 1 + n + 1;
            let tok = Token { kind: TokKind::Str, start: j, end };
            proof {
                assert(spec_tokenize(src@, i0) == cons_tok(tok@, spec_tokenize(src@, end as int)));
                lemma_tok_step(src@, spec_tokenize(src@, 0), old_toks, tok, i0, end as int);
            }
            toks.push(tok);
            i = end;
        } else {
            let kind = if c == '(' {
                TokKind::LParen
            } else if c == ')' {
                TokKind::RParen
            } else if c == '{' {
                TokKind::LBrace
            } else if c == '}' {
                TokKind::RBrace
            } else if c == ',' {
                TokKind::Comma
            } else if c == ';' {
                TokKind::Semi
            } else if c == ':' {
                TokKind::Colon
            } else {
                return Err(ParseError { kind: ParseErrorKind::Lex, pos: j });
            };
            let tok = Token { kind, start: j, end: j + 1 };
            proof {
                assert(spec_tokenize(src@, i0) == cons_tok(
                    tok@,
                    spec_tokenize(src@, j + 1),
                ));
                lemma_tok_step(src@, spec_tokenize(src@, 0), old_toks, tok, i0, j + 1);
            }
            toks.push(tok);
            i = j + 1;
        }
    }
}

} // verus!
