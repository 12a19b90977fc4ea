use vstd::prelude::*;
use crate::ast::{Instruction, Program};
use crate::lexer::{lines_view, Lexer};
use crate::scan::{is_line_split, within};
use crate::types::{LogicalLine, Token, TokenType};

verus! {

/// Why a source could not be parsed. Parsing is total for now, so no input
/// gives this; the variant keeps the type inhabited.
#[derive(Debug, PartialEq)]
pub enum ParseError {
    Unexpected,
}

pub type ParseResult<T> = Result<T, ParseError>;

/// The upper-case form of a text.
pub uninterp spec fn upper_of(s: Seq<char>) -> Seq<char>;

/// Relies on `str::to_uppercase`: the upper-case form of a text, which
/// depends on its characters alone.
#[verifier::external_body]
fn to_upper(s: &str) -> (r: String)
    ensures
        r@ == upper_of(s@),
{
    s.to_uppercase()
}

/// The words that open a keyword instruction, in upper case.
pub open spec fn is_keyword(w: Seq<char>) -> bool {
    ||| w == "ADDRESS"@
    ||| w == "ARG"@
    ||| w == "CALL"@
    ||| w == "DROP"@
    ||| w == "EXIT"@
    ||| w == "INTERPRET"@
    ||| w == "ITERATE"@
    ||| w == "LEAVE"@
    ||| w == "NOP"@
    ||| w == "NUMERIC"@
    ||| w == "OPTIONS"@
    ||| w == "PARSE"@
    ||| w == "PROCEDURE"@
    ||| w == "PULL"@
    ||| w == "PUSH"@
    ||| w == "QUEUE"@
    ||| w == "RETURN"@
    ||| w == "SAY"@
    ||| w == "SIGNAL"@
    ||| w == "TRACE"@
    ||| w == "THEN"@
    ||| w == "ELSE"@
    ||| w == "WHEN"@
    ||| w == "OTHERWISE"@
}

/// The instruction that the upper-case keyword `w`, spelled by `t`, opens.
pub open spec fn keyword_instruction(w: Seq<char>, t: Token) -> Instruction {
    if w == "SAY"@ {
        Instruction::Say
    } else if w == "SIGNAL"@ {
        Instruction::Signal
    } else {
        Instruction::Unknown(t)
    }
}

/// Tokens that carry meaning for the parser.
pub open spec fn significant(t: Token) -> bool {
    t.token_type != TokenType::Whitespace && t.token_type != TokenType::Comment
        && t.token_type != TokenType::EOL && t.token_type != TokenType::EOS
}

/// The significant tokens of `l`, in order.
pub open spec fn significant_tokens(l: Seq<Token>) -> Seq<Token>
    decreases l.len(),
{
    if l.len() == 0 {
        Seq::empty()
    } else if significant(l.last()) {
        significant_tokens(l.drop_last()).push(l.last())
    } else {
        significant_tokens(l.drop_last())
    }
}

pub open spec fn label_form(toks: Seq<Token>) -> bool {
    toks.len() > 1 && toks[0].token_type == TokenType::Identifier && toks[1].token_type
        == TokenType::Colon
}

pub open spec fn assignment_form(toks: Seq<Token>) -> bool {
    toks.len() > 1 && toks[0].token_type == TokenType::Identifier && toks[1].token_type
        == TokenType::Equal
}

/// The upper-case text of token `t`.
pub open spec fn word_of(text: Seq<char>, t: Token) -> Seq<char> {
    upper_of(text.subrange(t.range.start.index as int, t.range.end.index as int))
}

/// The instructions that logical line `l` gives: an unknown character gives
/// an unknown instruction; an identifier opens a label when a colon follows,
/// nothing when `=` follows, and otherwise the instruction of its keyword, if
/// it is one.
pub open spec fn line_instructions(text: Seq<char>, l: Seq<Token>) -> Seq<Instruction> {
    let toks = significant_tokens(l);
    if toks.len() == 0 {
        Seq::empty()
    } else if toks[0].token_type == TokenType::Unknown {
        seq![Instruction::Unknown(toks[0])]
    } else if toks[0].token_type == TokenType::Identifier {
        if label_form(toks) {
            seq![Instruction::Label(toks[0])]
        } else if assignment_form(toks) {
            Seq::empty()
        } else if is_keyword(word_of(text, toks[0])) {
            seq![keyword_instruction(word_of(text, toks[0]), toks[0])]
        } else {
            Seq::empty()
        }
    } else {
        Seq::empty()
    }
}

/// The instructions of the logical lines `lines`, in order.
pub open spec fn program_of(text: Seq<char>, lines: Seq<Seq<Token>>) -> Seq<Instruction>
    decreases lines.len(),
{
    if lines.len() == 0 {
        Seq::empty()
    } else {
        program_of(text, lines.drop_last()) + line_instructions(text, lines.last())
    }
}

/// Whether the upper-case word `upper` opens a keyword instruction.
pub fn is_keyword_word(upper: &String) -> (r: bool)
    ensures
        r == is_keyword(upper@),
{
    let words: [&str; 24] = [
        "ADDRESS",
        "ARG",
        "CALL",
        "DROP",
        "EXIT",
        "INTERPRET",
        "ITERATE",
        "LEAVE",
        "NOP",
        "NUMERIC",
        "OPTIONS",
        "PARSE",
        "PROCEDURE",
        "PULL",
        "PUSH",
        "QUEUE",
        "RETURN",
        "SAY",
        "SIGNAL",
        "TRACE",
        "THEN",
        "ELSE",
        "WHEN",
        "OTHERWISE",
    ];
    let mut k: usize = 0;
    while k < 24
        invariant
            k <= 24,
            words@ == seq![
                "ADDRESS",
                "ARG",
                "CALL",
                "DROP",
                "EXIT",
                "INTERPRET",
                "ITERATE",
                "LEAVE",
                "NOP",
                "NUMERIC",
                "OPTIONS",
                "PARSE",
                "PROCEDURE",
                "PULL",
                "PUSH",
                "QUEUE",
                "RETURN",
                "SAY",
                "SIGNAL",
                "TRACE",
                "THEN",
                "ELSE",
                "WHEN",
                "OTHERWISE",
            ],
            forall|j: int| 0 <= j < k ==> upper@ != (#[trigger] words@[j])@,
        decreases 24 - k,
    {
        if *upper == words[k].to_owned() {
            return true;
        }
        k = k + 1;
    }
    false
}

/// The instruction that the upper-case keyword `upper`, spelled by `token`,
/// opens.
pub fn keyword_instruction_of(upper: &String, token: Token) -> (r: Instruction)
    ensures
        r == keyword_instruction(upper@, token),
{
    if *upper == "SAY".to_owned() {
        Instruction::Say
    } else if *upper == "SIGNAL".to_owned() {
        Instruction::Signal
    } else {
        Instruction::Unknown(token)
    }
}

/// Classifies the logical lines of a source into instructions.
pub struct RexxParser {
    lexer: Lexer,
}

impl RexxParser {
    /// The source text.
    pub closed spec fn text(&self) -> Seq<char> {
        self.lexer.text()
    }

    pub fn new(lexer: Lexer) -> (r: RexxParser)
        ensures
            r.text() == lexer.text(),
    {
        RexxParser { lexer }
    }

    /// Parses the whole source. This never fails.
    pub fn parse(&mut self) -> (r: ParseResult<Program>)
        ensures
            final(self).text() == old(self).text(),
            r is Ok,
            exists|lines: Seq<Seq<Token>>|
                is_line_split(old(self).text(), lines) && r->Ok_0@ == program_of(
                    old(self).text(),
                    lines,
                ),
    {
        let mut program = Program { instructions: Vec::new() };
        let lines = self.lexer.tokenize();
        let ghost text = self.text();
        let ghost lv = lines_view(lines@);
        let mut k: usize = 0;
        while k < lines.len()
            invariant
                self.text() == text,
                lv == lines_view(lines@),
                0 <= k <= lines@.len(),
                program@ == program_of(text, lv.subrange(0, k as int)),
                forall|a: int, j: int|
                    0 <= a < lines@.len() && 0 <= j < lines@[a]@.len() ==> within(
                        #[trigger] lines@[a]@[j],
                        text.len() as int,
                    ),
            decreases lines@.len() - k,
        {
            self.parse_line(&lines[k], &mut program);
            proof {
                assert(lv.subrange(0, k + 1).drop_last() =~= lv.subrange(0, k as int));
                assert(lv.subrange(0, k + 1).last() == lines@[k as int]@);
            }
            k = k + 1;
        }
        proof {
            assert(lv.subrange(0, lines@.len() as int) =~= lv);
            assert(is_line_split(text, lv) && program@ == program_of(text, lv));
        }
        Ok(program)
    }

    fn parse_line(&self, line: &LogicalLine, program: &mut Program)
        requires
            forall|j: int|
                0 <= j < line@.len() ==> within(#[trigger] line@[j], self.text().len() as int),
        ensures
            final(program)@ == old(program)@ + line_instructions(self.text(), line@),
    {
        let ghost text = self.text();
        let mut tokens: Vec<Token> = Vec::new();
        let mut i: usize = 0;
        while i < line.tokens.len()
            invariant
                0 <= i <= line@.len(),
                tokens@ == significant_tokens(line@.subrange(0, i as int)),
                forall|j: int|
                    0 <= j < line@.len() ==> within(#[trigger] line@[j], text.len() as int),
                forall|j: int|
                    0 <= j < tokens@.len() ==> within(#[trigger] tokens@[j], text.len() as int),
            decreases line@.len() - i,
        {
            let t = line.tokens[i];
            proof {
                assert(line@.subrange(0, i + 1).drop_last() =~= line@.subrange(0, i as int));
            }
            if t.token_type != TokenType::Whitespace && t.token_type != TokenType::Comment
                && t.token_type != TokenType::EOL && t.token_type != TokenType::EOS {
                tokens.push(t);
            }
            i = i + 1;
        }
        proof {
            assert(line@.subrange(0, line@.len() as int) =~= line@);
        }
        if tokens.len() == 0 {
            proof {
                assert(old(program)@ + line_instructions(text, line@) =~= old(program)@);
            }
            return ;
        }
        let first = tokens[0];
        if first.token_type == TokenType::Unknown {
            program.instructions.push(Instruction::Unknown(first));
        } else if first.token_type == TokenType::Identifier {
            if Self::is_label(&tokens) {
                program.instructions.push(Instruction::Label(first));
                return ;
            }
            if Self::is_assignment(&tokens) {
                proof {
                    assert(old(program)@ + line_instructions(text, line@) =~= old(program)@);
                }
                return ;
            }
            if self.is_kayword_instruction(&tokens) {
                self.parse_kayword_instruction(&tokens, program);
                return ;
            }
            proof {
                assert(old(program)@ + line_instructions(text, line@) =~= old(program)@);
            }
        } else {
            proof {
                assert(old(program)@ + line_instructions(text, line@) =~= old(program)@);
            }
        }
    }

    fn is_label(tokens: &Vec<Token>) -> (r: bool)
        ensures
            r == label_form(tokens@),
    {
        if tokens.len() > 1 {
            tokens[0].token_type == TokenType::Identifier && tokens[1].token_type
                == TokenType::Colon
        } else {
            false
        }
    }

    fn is_assignment(tokens: &Vec<Token>) -> (r: bool)
        ensures
            r == assignment_form(tokens@),
    {
        if tokens.len() > 1 {
            tokens[0].token_type == TokenType::Identifier && tokens[1].token_type
                == TokenType::Equal
        } else {
            false
        }
    }

    fn is_kayword_instruction(&self, tokens: &Vec<Token>) -> (r: bool)
        requires
            tokens@.len() > 0,
            within(tokens@[0], self.text().len() as int),
        ensures
            r == is_keyword(word_of(self.text(), tokens@[0])),
    {
        let text = self.lexer.get_text(&tokens[0]);
        let upper = to_upper(text.as_str());
        is_keyword_word(&upper)
    }

    fn parse_kayword_instruction(&self, tokens: &Vec<Token>, program: &mut Program)
        requires
            tokens@.len() > 0,
            within(tokens@[0], self.text().len() as int),
        ensures
            final(program)@ == old(program)@.push(
                keyword_instruction(word_of(self.text(), tokens@[0]), tokens@[0]),
            ),
    {
        let text = self.lexer.get_text(&tokens[0]);
        let upper = to_upper(text.as_str());
        program.instructions.push(keyword_instruction_of(&upper, tokens[0]));
    }

    /// The length of the source, in characters.
    pub fn source_len(&self) -> (r: usize)
        ensures
            r == self.text().len(),
    {
        self.lexer.source_len()
    }

    /// The text that `token` spans.
    pub fn get_text(&self, token: &Token) -> (r: String)
        requires
            within(*token, self.text().len() as int),
        ensures
            r@ == self.text().subrange(
                token.range.start.index as int,
                token.range.end.index as int,
            ),
    {
        self.lexer.get_text(token)
    }
}

} // verus!
