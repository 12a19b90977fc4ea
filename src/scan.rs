use vstd::prelude::*;
use crate::types::{Position, Range, Token, TokenType};

verus! {

// ---------------------------------------------------------------------------
// Character classes
// ---------------------------------------------------------------------------

pub open spec fn is_newline(c: char) -> bool {
    c == '\n' || c == '\r'
}

pub open spec fn is_blank(c: char) -> bool {
    c == ' ' || c == '\t'
}

pub open spec fn is_alpha(c: char) -> bool {
    ('a' <= c && c <= 'z') || ('A' <= c && c <= 'Z')
}

pub open spec fn is_digit(c: char) -> bool {
    '0' <= c && c <= '9'
}

pub open spec fn is_ident_char(c: char) -> bool {
    is_alpha(c) || is_digit(c) || c == '_'
}

/// Characters that always make a token of their own, one character long.
pub open spec fn single_kind(c: char) -> TokenType {
    if c == ',' {
        TokenType::Comma
    } else if c == ':' {
        TokenType::Colon
    } else if c == '=' || c == ';' {
        TokenType::Semicolon
    } else if c == '+' || c == '-' || c == '*' || c == '(' || c == ')' || c == '/' {
        TokenType::Todo
    } else {
        TokenType::Unknown
    }
}

// ---------------------------------------------------------------------------
// Positions
// ---------------------------------------------------------------------------

/// The position of offset `i` while the current line is `line` and began at
/// offset `ls`.
pub open spec fn pos(i: int, line: int, ls: int) -> Position {
    Position { line: line as usize, character: (i - ls) as usize, index: i as usize }
}

/// The span `[a, b)`, both ends taken on the current line.
pub open spec fn line_range(a: int, b: int, line: int, ls: int) -> Range {
    Range { start: pos(a, line, ls), end: pos(b, line, ls) }
}

/// A token of kind `k` over `[a, b)` whose both ends lie on the current line.
pub open spec fn one_line(k: TokenType, a: int, b: int, line: int, ls: int) -> Token {
    Token { token_type: k, range: line_range(a, b, line, ls) }
}

// ---------------------------------------------------------------------------
// Where each kind of token ends
// ---------------------------------------------------------------------------

/// End of the run of `c` that goes on at `j`.
pub open spec fn run_end(s: Seq<char>, j: int, c: char) -> int
    decreases s.len() - j,
{
    if 0 <= j < s.len() && s[j] == c {
        run_end(s, j + 1, c)
    } else {
        j
    }
}

/// End of the identifier characters that go on at `j`.
pub open spec fn ident_end(s: Seq<char>, j: int) -> int
    decreases s.len() - j,
{
    if 0 <= j < s.len() && is_ident_char(s[j]) {
        ident_end(s, j + 1)
    } else {
        j
    }
}

/// End of the digits that go on at `j`.
pub open spec fn digits_end(s: Seq<char>, j: int) -> int
    decreases s.len() - j,
{
    if 0 <= j < s.len() && is_digit(s[j]) {
        digits_end(s, j + 1)
    } else {
        j
    }
}

/// End of a literal quoted by `q` whose body goes on at `j`: just after the
/// closing quote, or the end of the source. A backslash escapes the next
/// character.
pub open spec fn literal_end(s: Seq<char>, j: int, q: char) -> int
    decreases s.len() - j,
{
    if j >= s.len() {
        s.len() as int
    } else if s[j] == q {
        j + 1
    } else if s[j] == '\\' && j + 1 < s.len() {
        literal_end(s, j + 2, q)
    } else if s[j] == '\\' {
        s.len() as int
    } else {
        literal_end(s, j + 1, q)
    }
}

/// Scans a block comment whose body goes on at `j`, `depth` levels deeper
/// than the outermost one. Gives the end of the comment together with the
/// line counter and line start reached there.
pub open spec fn comment_scan(s: Seq<char>, j: int, depth: int, line: int, ls: int) -> (
    int,
    int,
    int,
)
    decreases s.len() - j,
{
    if j >= s.len() {
        (s.len() as int, line, ls)
    } else {
        let c = s[j];
        let line2 = if is_newline(c) { line + 1 } else { line };
        let ls2 = if is_newline(c) { j + 1 } else { ls };
        if c == '*' && j + 1 < s.len() && s[j + 1] == '/' {
            if depth <= 0 {
                (j + 2, line2, ls2)
            } else {
                comment_scan(s, j + 2, depth - 1, line2, ls2)
            }
        } else if c == '/' && j + 1 < s.len() && s[j + 1] == '*' {
            comment_scan(s, j + 2, depth + 1, line2, ls2)
        } else {
            comment_scan(s, j + 1, depth, line2, ls2)
        }
    }
}

// ---------------------------------------------------------------------------
// The token stream
// ---------------------------------------------------------------------------

/// The token that starts at offset `i < s.len()`, the offset after it, and the
/// line counter and line start after it.
pub open spec fn step(s: Seq<char>, i: int, line: int, ls: int) -> (Token, int, int, int) {
    let c = s[i];
    if is_blank(c) {
        let e = run_end(s, i + 1, c);
        (one_line(TokenType::Whitespace, i, e, line, ls), e, line, ls)
    } else if is_newline(c) {
        (one_line(TokenType::EOL, i, i + 1, line, ls), i + 1, line + 1, i + 1)
    } else if c == '/' && i + 1 < s.len() && s[i + 1] == '*' {
        let r = comment_scan(s, i + 2, 0, line, ls);
        (
            Token {
                token_type: TokenType::Comment,
                range: Range { start: pos(i, line, ls), end: pos(r.0, r.1, r.2) },
            },
            r.0,
            r.1,
            r.2,
        )
    } else if c == '"' || c == '\'' {
        let e = literal_end(s, i + 1, c);
        (one_line(TokenType::Literal, i, e, line, ls), e, line, ls)
    } else if is_alpha(c) {
        let e = ident_end(s, i + 1);
        (one_line(TokenType::Identifier, i, e, line, ls), e, line, ls)
    } else if is_digit(c) {
        let e = digits_end(s, i + 1);
        (one_line(TokenType::Number, i, e, line, ls), e, line, ls)
    } else {
        (one_line(single_kind(c), i, i + 1, line, ls), i + 1, line, ls)
    }
}

/// The tokens from offset `i` on, ended by the `EOS` marker.
pub open spec fn lex_from(s: Seq<char>, i: int, line: int, ls: int) -> Seq<Token>
    decreases s.len() - i,
    via lex_from_decreases
{
    if i < 0 || i >= s.len() {
        seq![one_line(TokenType::EOS, s.len() as int, s.len() as int, line, ls)]
    } else {
        let st = step(s, i, line, ls);
        seq![st.0] + lex_from(s, st.1, st.2, st.3)
    }
}

#[via_fn]
proof fn lex_from_decreases(s: Seq<char>, i: int, line: int, ls: int) {
    if 0 <= i < s.len() {
        lemma_step_advances(s, i, line, ls);
    }
}

/// Every token of the source, in order, the `EOS` marker last.
pub open spec fn lex_all(s: Seq<char>) -> Seq<Token> {
    lex_from(s, 0, 0, 0)
}

// ---------------------------------------------------------------------------
// Logical lines
// ---------------------------------------------------------------------------

/// Whether token `j` of a logical line `l` closes it: a `;`, or the end of a
/// physical line that does not follow a comma with more input after it.
pub open spec fn closes_line(s: Seq<char>, l: Seq<Token>, j: int) -> bool {
    let t = l[j];
    (t.token_type == TokenType::Semicolon && s[t.range.start.index as int] == ';') || (
    t.token_type == TokenType::EOL && !(j > 0 && l[j - 1].token_type == TokenType::Comma && (
    t.range.end.index as int) < s.len()))
}

/// `t` spans a piece of a source of length `n`.
pub open spec fn within(t: Token, n: int) -> bool {
    t.range.start.index <= t.range.end.index <= n
}

/// No token of `l` but maybe its last closes it.
pub open spec fn open_before_last(s: Seq<char>, l: Seq<Token>) -> bool {
    forall|j: int| 0 <= j < l.len() - 1 ==> !#[trigger] closes_line(s, l, j)
}

/// `lines` is the token stream of `s` cut after each token that closes a
/// logical line, and nowhere else.
pub open spec fn is_line_split(s: Seq<char>, lines: Seq<Seq<Token>>) -> bool {
    &&& lines.len() > 0
    &&& lines.flatten() == lex_all(s)
    &&& forall|k: int|
        0 <= k < lines.len() ==> {
            &&& #[trigger] lines[k].len() > 0
            &&& open_before_last(s, lines[k])
            &&& k < lines.len() - 1 ==> closes_line(s, lines[k], lines[k].len() - 1)
        }
}

// ---------------------------------------------------------------------------
// Lemmas on the scanners
// ---------------------------------------------------------------------------

pub proof fn lemma_run_end(s: Seq<char>, j: int, c: char)
    requires
        0 <= j <= s.len(),
    ensures
        j <= run_end(s, j, c) <= s.len(),
    decreases s.len() - j,
{
    if j < s.len() && s[j] == c {
        lemma_run_end(s, j + 1, c);
    }
}

pub proof fn lemma_ident_end(s: Seq<char>, j: int)
    requires
        0 <= j <= s.len(),
    ensures
        j <= ident_end(s, j) <= s.len(),
    decreases s.len() - j,
{
    if j < s.len() && is_ident_char(s[j]) {
        lemma_ident_end(s, j + 1);
    }
}

pub proof fn lemma_digits_end(s: Seq<char>, j: int)
    requires
        0 <= j <= s.len(),
    ensures
        j <= digits_end(s, j) <= s.len(),
    decreases s.len() - j,
{
    if j < s.len() && is_digit(s[j]) {
        lemma_digits_end(s, j + 1);
    }
}

pub proof fn lemma_literal_end(s: Seq<char>, j: int, q: char)
    requires
        0 <= j <= s.len(),
    ensures
        j <= literal_end(s, j, q) <= s.len(),
    decreases s.len() - j,
{
    if j < s.len() && s[j] != q {
        if j + 1 < s.len() {
            lemma_literal_end(s, j + 2, q);
        }
        lemma_literal_end(s, j + 1, q);
    }
}

/// A comment ends within the source; each line it passes consumes a
/// character, and the line start stays behind its end.
pub proof fn lemma_comment_scan(s: Seq<char>, j: int, depth: int, line: int, ls: int)
    requires
        0 <= j <= s.len(),
        0 <= ls <= j,
        0 <= line,
    ensures
        ({
            let r = comment_scan(s, j, depth, line, ls);
            &&& j <= r.0 <= s.len()
            &&& line <= r.1 <= line + (r.0 - j)
            &&& ls <= r.2 <= r.0
        }),
    decreases s.len() - j,
{
    if j < s.len() {
        let c = s[j];
        let line2 = if is_newline(c) { line + 1 } else { line };
        let ls2 = if is_newline(c) { j + 1 } else { ls };
        if c == '*' && j + 1 < s.len() && s[j + 1] == '/' {
            if depth > 0 {
                lemma_comment_scan(s, j + 2, depth - 1, line2, ls2);
            }
        } else if c == '/' && j + 1 < s.len() && s[j + 1] == '*' {
            lemma_comment_scan(s, j + 2, depth + 1, line2, ls2);
        } else {
            lemma_comment_scan(s, j + 1, depth, line2, ls2);
        }
    }
}

/// The token at `i` is not empty and stays within the source.
pub proof fn lemma_step_advances(s: Seq<char>, i: int, line: int, ls: int)
    ensures
        0 <= i < s.len() ==> i < step(s, i, line, ls).1 <= s.len(),
{
    if 0 <= i < s.len() {
        let c = s[i];
        lemma_run_end(s, i + 1, c);
        lemma_ident_end(s, i + 1);
        lemma_digits_end(s, i + 1);
        lemma_literal_end(s, i + 1, c);
        if c == '/' && i + 1 < s.len() && s[i + 1] == '*' {
            lemma_comment_scan(s, i + 2, 0, 0, 0);
            lemma_comment_scan_end_free(s, i + 2, 0, line, ls);
        }
    }
}

/// The token at `i` starts there and ends where the scan goes on; it is an
/// end of line exactly at a newline, and a `;` always gives a `Semicolon`.
pub proof fn lemma_step_shape(s: Seq<char>, i: int, line: int, ls: int)
    requires
        0 <= i < s.len() <= usize::MAX,
        0 <= ls <= i,
        0 <= line <= i,
    ensures
        ({
            let st = step(s, i, line, ls);
            &&& st.0.range.start.index == i
            &&& st.0.range.end.index == st.1
            &&& (st.0.token_type == TokenType::EOL <==> is_newline(s[i]))
            &&& is_newline(s[i]) ==> st.1 == i + 1
            &&& s[i] == ';' ==> st.0.token_type == TokenType::Semicolon
            &&& (st.0.token_type == TokenType::Semicolon ==> s[i] == ';' || s[i] == '=')
            &&& 0 <= st.2 <= st.1
            &&& 0 <= st.3 <= st.1
        }),
{
    lemma_step_advances(s, i, line, ls);
    if s[i] == '/' && i + 1 < s.len() && s[i + 1] == '*' {
        lemma_comment_scan(s, i + 2, 0, line, ls);
    }
}

/// Where a comment ends does not depend on the line bookkeeping.
pub proof fn lemma_comment_scan_end_free(s: Seq<char>, j: int, depth: int, line: int, ls: int)
    ensures
        comment_scan(s, j, depth, line, ls).0 == comment_scan(s, j, depth, 0, 0).0,
    decreases s.len() - j,
{
    if j < s.len() {
        let c = s[j];
        let line2 = if is_newline(c) { line + 1 } else { line };
        let ls2 = if is_newline(c) { j + 1 } else { ls };
        let l0 = if is_newline(c) { 1int } else { 0 };
        let s0 = if is_newline(c) { j + 1 } else { 0 };
        if c == '*' && j + 1 < s.len() && s[j + 1] == '/' {
            if depth > 0 {
                lemma_comment_scan_end_free(s, j + 2, depth - 1, line2, ls2);
                lemma_comment_scan_end_free(s, j + 2, depth - 1, l0, s0);
            }
        } else if c == '/' && j + 1 < s.len() && s[j + 1] == '*' {
            lemma_comment_scan_end_free(s, j + 2, depth + 1, line2, ls2);
            lemma_comment_scan_end_free(s, j + 2, depth + 1, l0, s0);
        } else {
            lemma_comment_scan_end_free(s, j + 1, depth, line2, ls2);
            lemma_comment_scan_end_free(s, j + 1, depth, l0, s0);
        }
    }
}

} // verus!
