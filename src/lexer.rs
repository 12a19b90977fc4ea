use vstd::prelude::*;
use crate::scan::{
    closes_line, comment_scan, digits_end, ident_end, is_alpha, is_digit, is_ident_char,
    is_line_split, is_newline, lemma_step_shape, lex_all, lex_from, line_range, literal_end,
    one_line, open_before_last, pos, run_end, step, within,
};
use crate::text::{char_vec, string_of_chars};
use crate::types::{LogicalLine, Position, Range, Token, TokenType};

verus! {

broadcast use vstd::seq_lib::group_seq_properties;

/// The token sequences held by a list of logical lines.
pub open spec fn lines_view(r: Seq<LogicalLine>) -> Seq<Seq<Token>> {
    r.map_values(|l: LogicalLine| l@)
}

fn is_alpha_char(c: char) -> (r: bool)
    ensures
        r == is_alpha(c),
{
    ('a' <= c && c <= 'z') || ('A' <= c && c <= 'Z')
}

fn is_digit_char(c: char) -> (r: bool)
    ensures
        r == is_digit(c),
{
    '0' <= c && c <= '9'
}

fn is_ident_char_exec(c: char) -> (r: bool)
    ensures
        r == is_ident_char(c),
{
    is_alpha_char(c) || is_digit_char(c) || c == '_'
}

/// Splits a source text into tokens grouped by logical line.
pub struct Lexer {
    line_counter: usize,
    line_start_index: usize,
    source: Vec<char>,
}

impl Lexer {
    /// The source text, as characters.
    pub closed spec fn text(&self) -> Seq<char> {
        self.source@
    }

    pub fn new(src: &str) -> (r: Lexer)
        ensures
            r.text() == src@,
    {
        Lexer { source: char_vec(src), line_counter: 0, line_start_index: 0 }
    }

    /// The length of the source, in characters.
    pub fn source_len(&self) -> (r: usize)
        ensures
            r == self.text().len(),
    {
        self.source.len()
    }

    /// The text that `token` spans.
    pub fn get_text(&self, token: &Token) -> (r: String)
        requires
            token.range.start.index <= token.range.end.index <= self.text().len(),
        ensures
            r@ == self.text().subrange(
                token.range.start.index as int,
                token.range.end.index as int,
            ),
    {
        let start = token.range.start.index;
        let end = token.range.end.index;
        let mut v: Vec<char> = Vec::new();
        let mut k: usize = start;
        while k < end
            invariant
                start <= k <= end <= self.source@.len(),
                v@ == self.source@.subrange(start as int, k as int),
            decreases end - k,
        {
            v.push(self.source[k]);
            k = k + 1;
        }
        string_of_chars(&v)
    }

    /// Tokenizes the whole source. Every physical newline gives an `EOL`
    /// token; a logical line ends after a `;`, and after an `EOL` unless that
    /// follows a comma and more input comes. The last line ends with the
    /// zero-width `EOS` marker at the end of the source.
    pub fn tokenize(&mut self) -> (r: Vec<LogicalLine>)
        ensures
            final(self).text() == old(self).text(),
            is_line_split(old(self).text(), lines_view(r@)),
            r@.len() > 0,
            r@.last()@.len() > 0,
            r@.last()@.last().token_type == TokenType::EOS,
            r@.last()@.last().range.start.index == old(self).text().len(),
            r@.last()@.last().range.end.index == old(self).text().len(),
            forall|k: int, j: int|
                0 <= k < r@.len() && 0 <= j < r@[k]@.len() ==> within(
                    #[trigger] r@[k]@[j],
                    old(self).text().len() as int,
                ),
    {
        let ghost s = self.source@;
        self.line_counter = 0;
        self.line_start_index = 0;
        let mut logical_lines: Vec<LogicalLine> = Vec::new();
        let mut line = LogicalLine { tokens: Vec::new() };
        let n = self.source.len();
        let mut i: usize = 0;
        proof {
            assert(lines_view(logical_lines@).flatten() =~= Seq::<Token>::empty());
        }
        while i < n
            invariant
                self.source@ == s,
                n == s.len(),
                i <= n,
                self.line_counter <= i,
                self.line_start_index <= i,
                lines_view(logical_lines@).flatten() + line@ + lex_from(
                    s,
                    i as int,
                    self.line_counter as int,
                    self.line_start_index as int,
                ) == lex_all(s),
                forall|k: int|
                    0 <= k < logical_lines@.len() ==> {
                        &&& (#[trigger] logical_lines@[k])@.len() > 0
                        &&& open_before_last(s, logical_lines@[k]@)
                        &&& closes_line(s, logical_lines@[k]@, logical_lines@[k]@.len() - 1)
                    },
                forall|j: int| 0 <= j < line@.len() ==> !#[trigger] closes_line(s, line@, j),
                forall|k: int, j: int|
                    0 <= k < logical_lines@.len() && 0 <= j < logical_lines@[k]@.len() ==> within(
                        #[trigger] logical_lines@[k]@[j],
                        n as int,
                    ),
                forall|j: int| 0 <= j < line@.len() ==> within(#[trigger] line@[j], n as int),
            decreases n - i,
        {
            let ghost lc = self.line_counter as int;
            let ghost lsi = self.line_start_index as int;
            let after_comma = line.tokens.len() > 0 && line.tokens[line.tokens.len() - 1].token_type
                == TokenType::Comma;
            let (token, next, eol) = self.scan_token(i, after_comma);
            proof {
                lemma_step_shape(s, i as int, lc, lsi);
                assert(lex_from(s, i as int, lc, lsi) == seq![token] + lex_from(
                    s,
                    next as int,
                    self.line_counter as int,
                    self.line_start_index as int,
                ));
            }
            let ghost before = line@;
            line.tokens.push(token);
            let ghost pushed = line@;
            proof {
                assert forall|j: int| 0 <= j < before.len() implies closes_line(s, pushed, j)
                    == closes_line(s, before, j) by {}
                assert(closes_line(s, pushed, before.len() as int) == eol);
                assert forall|j: int| 0 <= j < pushed.len() - 1 implies !#[trigger] closes_line(
                    s,
                    pushed,
                    j,
                ) by {
                    assert(closes_line(s, pushed, j) == closes_line(s, before, j));
                }
                assert(lines_view(logical_lines@).flatten() + line@ + lex_from(
                    s,
                    next as int,
                    self.line_counter as int,
                    self.line_start_index as int,
                ) =~= lex_all(s));
            }
            if eol {
                let ghost done = logical_lines@;
                logical_lines.push(line);
                line = LogicalLine { tokens: Vec::new() };
                proof {
                    assert(lines_view(logical_lines@) =~= lines_view(done).push(pushed));
                    lines_view(done).lemma_flatten_push(pushed);
                    assert forall|k: int| 0 <= k < logical_lines@.len() implies {
                        &&& (#[trigger] logical_lines@[k])@.len() > 0
                        &&& open_before_last(s, logical_lines@[k]@)
                        &&& closes_line(s, logical_lines@[k]@, logical_lines@[k]@.len() - 1)
                    } by {
                        if k < done.len() {
                            assert(logical_lines@[k] == done[k]);
                        } else {
                            assert(logical_lines@[k]@ == pushed);
                        }
                    }
                    assert(line@ =~= Seq::<Token>::empty());
                }
            } else {
                proof {
                    assert forall|j: int| 0 <= j < line@.len() implies !#[trigger] closes_line(
                        s,
                        line@,
                        j,
                    ) by {
                        if j < before.len() {
                            assert(closes_line(s, pushed, j) == closes_line(s, before, j));
                        }
                    }
                }
            }
            i = next;
        }
        let ghost lc = self.line_counter as int;
        let ghost lsi = self.line_start_index as int;
        let ghost before = line@;
        line.tokens.push(
            Token { token_type: TokenType::EOS, range: self.make_one_line_range(n, n) },
        );
        let ghost pushed = line@;
        proof {
            assert forall|j: int| 0 <= j < pushed.len() - 1 implies !#[trigger] closes_line(
                s,
                pushed,
                j,
            ) by {
                assert(closes_line(s, pushed, j) == closes_line(s, before, j));
            }
        }
        let ghost done = logical_lines@;
        logical_lines.push(line);
        proof {
            assert(lines_view(logical_lines@) =~= lines_view(done).push(pushed));
            lines_view(done).lemma_flatten_push(pushed);
            assert(lex_from(s, n as int, lc, lsi) == seq![pushed.last()]);
            assert(lines_view(logical_lines@).flatten() =~= lex_all(s));
            let lv = lines_view(logical_lines@);
            assert forall|k: int| 0 <= k < lv.len() implies {
                &&& #[trigger] lv[k].len() > 0
                &&& open_before_last(s, lv[k])
                &&& k < lv.len() - 1 ==> closes_line(s, lv[k], lv[k].len() - 1)
            } by {
                assert(lv[k] == logical_lines@[k]@);
                if k < lv.len() - 1 {
                    assert(logical_lines@[k] == done[k]);
                }
            }
        }
        logical_lines
    }

    /// Scans the token at `i`. Also tells whether it ends the logical line,
    /// given whether the line so far ends with a comma.
    fn scan_token(&mut self, i: usize, after_comma: bool) -> (r: (Token, usize, bool))
        requires
            i < old(self).source@.len(),
            old(self).line_counter <= i,
            old(self).line_start_index <= i,
        ensures
            final(self).source@ == old(self).source@,
            ({
                let s = old(self).source@;
                let st = step(s, i as int, old(self).line_counter as int, old(self).line_start_index as int);
                &&& r.0 == st.0
                &&& r.1 == st.1
                &&& final(self).line_counter == st.2
                &&& final(self).line_start_index == st.3
                &&& r.2 == (s[i as int] == ';' || (is_newline(s[i as int]) && !(after_comma && i + 1 < s.len())))
            }),
            i < r.1 <= final(self).source@.len(),
            final(self).line_counter <= r.1,
            final(self).line_start_index <= r.1,
    {
        let n = self.source.len();
        let ch = self.source[i];
        let mut eol = false;
        let r = if ch == ' ' || ch == '\t' {
            self.consume_whitespaces(i, ch)
        } else if ch == '\n' || ch == '\r' {
            let before_eos = i + 1 >= n;
            eol = !after_comma || before_eos;
            let line_token = Token {
                token_type: TokenType::EOL,
                range: self.make_one_line_range(i, i + 1),
            };
            self.line_counter = self.line_counter + 1;
            self.line_start_index = i + 1;
            (line_token, i + 1)
        } else if ch == '/' {
            if i + 1 < n && self.source[i + 1] == '*' {
                self.consume_block_comment(i)
            } else {
                (Token { token_type: TokenType::Todo, range: self.make_one_line_range(i, i + 1) }, i + 1)
            }
        } else if ch == '"' || ch == '\'' {
            self.consume_string_literal(i, ch)
        } else if ch == ',' {
            (Token { token_type: TokenType::Comma, range: self.make_one_line_range(i, i + 1) }, i + 1)
        } else if ch == ':' {
            (Token { token_type: TokenType::Colon, range: self.make_one_line_range(i, i + 1) }, i + 1)
        } else if ch == '+' || ch == '-' || ch == '*' || ch == '(' || ch == ')' {
            (Token { token_type: TokenType::Todo, range: self.make_one_line_range(i, i + 1) }, i + 1)
        } else if ch == '=' {
            (Token { token_type: TokenType::Semicolon, range: self.make_one_line_range(i, i + 1) }, i + 1)
        } else if ch == ';' {
            eol = true;
            (Token { token_type: TokenType::Semicolon, range: self.make_one_line_range(i, i + 1) }, i + 1)
        } else if is_alpha_char(ch) {
            self.consume_identifier(i)
        } else if is_digit_char(ch) {
            self.consume_number(i)
        } else {
            (Token { token_type: TokenType::Unknown, range: self.make_one_line_range(i, i + 1) }, i + 1)
        };
        (r.0, r.1, eol)
    }

    fn consume_identifier(&self, start: usize) -> (r: (Token, usize))
        requires
            start < self.source@.len(),
            self.line_start_index <= start,
        ensures
            r.1 == ident_end(self.source@, start + 1),
            start < r.1 <= self.source@.len(),
            r.0 == one_line(
                TokenType::Identifier,
                start as int,
                r.1 as int,
                self.line_counter as int,
                self.line_start_index as int,
            ),
    {
        let n = self.source.len();
        let mut end = start + 1;
        while end < n && is_ident_char_exec(self.source[end])
            invariant
                n == self.source@.len(),
                start < end <= self.source@.len(),
                ident_end(self.source@, end as int) == ident_end(self.source@, start + 1),
            decreases self.source@.len() - end,
        {
            end = end + 1;
        }
        (Token { token_type: TokenType::Identifier, range: self.make_one_line_range(start, end) }, end)
    }

    fn consume_number(&self, start: usize) -> (r: (Token, usize))
        requires
            start < self.source@.len(),
            self.line_start_index <= start,
        ensures
            r.1 == digits_end(self.source@, start + 1),
            start < r.1 <= self.source@.len(),
            r.0 == one_line(
                TokenType::Number,
                start as int,
                r.1 as int,
                self.line_counter as int,
                self.line_start_index as int,
            ),
    {
        let n = self.source.len();
        let mut end = start + 1;
        while end < n && is_digit_char(self.source[end])
            invariant
                n == self.source@.len(),
                start < end <= self.source@.len(),
                digits_end(self.source@, end as int) == digits_end(self.source@, start + 1),
            decreases self.source@.len() - end,
        {
            end = end + 1;
        }
        (Token { token_type: TokenType::Number, range: self.make_one_line_range(start, end) }, end)
    }

    fn consume_string_literal(&self, start: usize, first_quote: char) -> (r: (Token, usize))
        requires
            start < self.source@.len(),
            self.line_start_index <= start,
        ensures
            r.1 == literal_end(self.source@, start + 1, first_quote),
            start < r.1 <= self.source@.len(),
            r.0 == one_line(
                TokenType::Literal,
                start as int,
                r.1 as int,
                self.line_counter as int,
                self.line_start_index as int,
            ),
    {
        let n = self.source.len();
        let mut end = start + 1;
        let mut closed = false;
        while !closed && end < n
            invariant
                n == self.source@.len(),
                start < end <= n,
                closed ==> end == literal_end(self.source@, start + 1, first_quote),
                !closed ==> literal_end(self.source@, end as int, first_quote) == literal_end(
                    self.source@,
                    start + 1,
                    first_quote,
                ),
            decreases n - end,
        {
            let ch = self.source[end];
            end = end + 1;
            if ch == first_quote {
                closed = true;
            } else if ch == '\\' {
                if end < n {
                    end = end + 1;
                }
            }
        }
        (Token { token_type: TokenType::Literal, range: self.make_one_line_range(start, end) }, end)
    }

    fn consume_whitespaces(&self, start: usize, initial_ch: char) -> (r: (Token, usize))
        requires
            start < self.source@.len(),
            self.line_start_index <= start,
        ensures
            r.1 == run_end(self.source@, start + 1, initial_ch),
            start < r.1 <= self.source@.len(),
            r.0 == one_line(
                TokenType::Whitespace,
                start as int,
                r.1 as int,
                self.line_counter as int,
                self.line_start_index as int,
            ),
    {
        let n = self.source.len();
        let mut end = start + 1;
        while end < n && self.source[end] == initial_ch
            invariant
                n == self.source@.len(),
                start < end <= self.source@.len(),
                run_end(self.source@, end as int, initial_ch) == run_end(
                    self.source@,
                    start + 1,
                    initial_ch,
                ),
            decreases self.source@.len() - end,
        {
            end = end + 1;
        }
        (Token { token_type: TokenType::Whitespace, range: self.make_one_line_range(start, end) }, end)
    }

    /// Consumes a block comment that opens at `start`, moving the line
    /// bookkeeping past each newline inside it.
    fn consume_block_comment(&mut self, start: usize) -> (r: (Token, usize))
        requires
            start + 1 < old(self).source@.len(),
            old(self).source@[start as int] == '/',
            old(self).source@[start + 1] == '*',
            old(self).line_counter <= start,
            old(self).line_start_index <= start,
        ensures
            final(self).source@ == old(self).source@,
            ({
                let st = step(
                    old(self).source@,
                    start as int,
                    old(self).line_counter as int,
                    old(self).line_start_index as int,
                );
                &&& r.0 == st.0
                &&& r.1 == st.1
                &&& final(self).line_counter == st.2
                &&& final(self).line_start_index == st.3
            }),
            start < r.1 <= final(self).source@.len(),
            final(self).line_counter <= r.1,
            final(self).line_start_index <= r.1,
    {
        let ghost s = self.source@;
        let ghost target = comment_scan(
            s,
            start + 2,
            0,
            self.line_counter as int,
            self.line_start_index as int,
        );
        let start_pos = self.make_position(start);
        let n = self.source.len();
        let mut depth: usize = 0;
        let mut j: usize = start + 2;
        let mut closed = false;
        while !closed && j < n
            invariant
                self.source@ == s,
                n == s.len(),
                start + 2 <= j <= n,
                depth <= j,
                self.line_counter <= j,
                self.line_start_index <= j,
                closed ==> target == (j as int, self.line_counter as int, self.line_start_index as int),
                !closed ==> comment_scan(
                    s,
                    j as int,
                    depth as int,
                    self.line_counter as int,
                    self.line_start_index as int,
                ) == target,
            decreases n - j,
        {
            let ch = self.source[j];
            if ch == '\n' || ch == '\r' {
                self.line_counter = self.line_counter + 1;
                self.line_start_index = j + 1;
            }
            if ch == '*' && j + 1 < n && self.source[j + 1] == '/' {
                if depth == 0 {
                    closed = true;
                } else {
                    depth = depth - 1;
                }
                j = j + 2;
            } else if ch == '/' && j + 1 < n && self.source[j + 1] == '*' {
                depth = depth + 1;
                j = j + 2;
            } else {
                j = j + 1;
            }
        }
        let range = Range { start: start_pos, end: self.make_position(j) };
        (Token { token_type: TokenType::Comment, range }, j)
    }

    fn make_position(&self, index: usize) -> (r: Position)
        requires
            self.line_start_index <= index,
        ensures
            r == pos(index as int, self.line_counter as int, self.line_start_index as int),
    {
        Position { line: self.line_counter, character: index - self.line_start_index, index }
    }

    fn make_one_line_range(&self, start_idx: usize, end_index: usize) -> (r: Range)
        requires
            self.line_start_index <= start_idx,
            self.line_start_index <= end_index,
        ensures
            r == line_range(
                start_idx as int,
                end_index as int,
                self.line_counter as int,
                self.line_start_index as int,
            ),
    {
        Range { start: self.make_position(start_idx), end: self.make_position(end_index) }
    }
}

} // verus!
