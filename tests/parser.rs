use rexx::ast::Instruction;
use rexx::lexer::Lexer;
use rexx::parser::{is_keyword_word, keyword_instruction_of, RexxParser};
use rexx::types::{Position, Range, Token, TokenType};

fn parse(src: &str) -> Vec<Instruction> {
    let mut parser = RexxParser::new(Lexer::new(src));
    parser.parse().unwrap().instructions
}

fn some_token() -> Token {
    let p = Position { line: 0, character: 0, index: 0 };
    Token { token_type: TokenType::Identifier, range: Range { start: p, end: p } }
}

#[test]
fn labels_and_keywords() {
    let src = "main:\nSAY 'hi'\nsignal done\ncall foo\nx = 1\nother thing\ndone:";
    let mut parser = RexxParser::new(Lexer::new(src));
    let program = parser.parse().unwrap();
    let ins = &program.instructions;
    assert_eq!(ins.len(), 5);
    match ins[0] {
        Instruction::Label(t) => assert_eq!(parser.get_text(&t), "main"),
        _ => panic!("expected a label"),
    }
    assert_eq!(ins[1], Instruction::Say);
    assert_eq!(ins[2], Instruction::Signal);
    match ins[3] {
        Instruction::Unknown(t) => assert_eq!(parser.get_text(&t), "call"),
        _ => panic!("expected an unknown keyword"),
    }
    match ins[4] {
        Instruction::Label(t) => assert_eq!(parser.get_text(&t), "done"),
        _ => panic!("expected a label"),
    }
}

#[test]
fn lower_case_keywords_are_recognised() {
    assert_eq!(parse("say 1"), vec![Instruction::Say]);
    assert_eq!(parse("Signal x"), vec![Instruction::Signal]);
}

#[test]
fn unknown_character_gives_unknown_instruction() {
    let ins = parse("  # x");
    assert_eq!(ins.len(), 1);
    match ins[0] {
        Instruction::Unknown(t) => {
            assert_eq!(t.token_type, TokenType::Unknown);
            assert_eq!(t.range.start.index, 2);
        }
        _ => panic!("expected an unknown instruction"),
    }
}

#[test]
fn blank_and_comment_lines_give_nothing() {
    assert_eq!(parse(""), vec![]);
    assert_eq!(parse("/* c */\n\n   ;"), vec![]);
    assert_eq!(parse("'lit'"), vec![]);
}

#[test]
fn keyword_words() {
    for w in ["SAY", "SIGNAL", "ADDRESS", "OTHERWISE", "THEN"] {
        assert!(is_keyword_word(&w.to_string()));
    }
    for w in ["say", "SAYS", "", "FOO"] {
        assert!(!is_keyword_word(&w.to_string()));
    }
}

#[test]
fn keyword_instructions() {
    let t = some_token();
    assert_eq!(keyword_instruction_of(&"SAY".to_string(), t), Instruction::Say);
    assert_eq!(keyword_instruction_of(&"SIGNAL".to_string(), t), Instruction::Signal);
    assert_eq!(keyword_instruction_of(&"CALL".to_string(), t), Instruction::Unknown(t));
}
