use rexx::lexer::Lexer;
use rexx::types::{LogicalLine, Token, TokenType};

fn kinds(line: &LogicalLine) -> Vec<TokenType> {
    line.tokens.iter().map(|t| t.token_type).collect()
}

fn rebuilt(src: &str) -> String {
    let mut lexer = Lexer::new(src);
    let lines = lexer.tokenize();
    let mut out = String::new();
    for line in lines {
        for token in line.tokens {
            out.push_str(&lexer.get_text(&token));
        }
    }
    out
}

#[test]
fn lex_comment1() {
    let mut lexer = Lexer::new("/* This is a comment */");
    let result = lexer.tokenize();
    let token = result.get(0).unwrap().tokens.get(0).unwrap();
    assert_eq!(result.get(0).unwrap().tokens.len(), 2); // Comment and eos
    assert_eq!("/* This is a comment */", lexer.get_text(token));
}

#[test]
fn lex_comment2() {
    let mut lexer = Lexer::new("/* This /* is a */ comment */");
    let result = lexer.tokenize();
    assert_eq!(result.get(0).unwrap().tokens.len(), 2); // Comment and eos
}

#[test]
fn lex_lines() {
    let mut lexer = Lexer::new("SAY 'a'; SAY 'b'");
    let result = lexer.tokenize();
    assert_eq!(result.len(), 2);
    assert_eq!(result.len(), 2);
}

#[test]
fn lex_lines2() {
    let mut lexer = Lexer::new("SAY 'a',\n'b'");
    let result = lexer.tokenize();
    assert_eq!(result.len(), 1);
    let eol_token = result[0].tokens[4].clone();
    let b_token = result[0].tokens[5].clone();
    assert_eq!(eol_token.range.start.line, 0);
    assert_eq!(b_token.range.start.line, 1);
    assert_eq!(b_token.range.start.character, 0);
}

#[test]
fn lex_lines3() {
    let mut lexer = Lexer::new("SAY 'a',\n");
    let result = lexer.tokenize();
    assert_eq!(result.len(), 2);
}

#[test]
fn lex_line4() {
    let mut lexer = Lexer::new("/*/\n*/\nloop:");
    let result = lexer.tokenize();
    assert_eq!(result[0].tokens[0].range.end.line, 1);
    assert_eq!(result[0].tokens[0].range.end.character, 2);
}

#[test]
fn lex_line5() {
    let mut lexer = Lexer::new("/*\n *\n */\nx:");
    let result = lexer.tokenize();
    assert_eq!(result[0].tokens[0].range.end.line, 2);
    assert_eq!(result[0].tokens[0].range.end.character, 3);
}

#[test]
fn empty_source_gives_only_eos() {
    let mut lexer = Lexer::new("");
    let result = lexer.tokenize();
    assert_eq!(result.len(), 1);
    assert_eq!(result[0].tokens.len(), 1);
    let eos = result[0].tokens[0];
    assert_eq!(eos.token_type, TokenType::EOS);
    assert_eq!(eos.range.start.index, 0);
    assert_eq!(eos.range.end.index, 0);
}

#[test]
fn eos_sits_at_end_of_source() {
    for src in ["SAY 'a'", "x:\n", "a;", "/* open", "'open", "a,\nb"] {
        let mut lexer = Lexer::new(src);
        let result = lexer.tokenize();
        let last = *result.last().unwrap().tokens.last().unwrap();
        assert_eq!(last.token_type, TokenType::EOS);
        assert_eq!(last.range.start.index, src.chars().count());
        assert_eq!(last.range.end.index, src.chars().count());
    }
}

#[test]
fn rebuilds_source_from_tokens() {
    for src in [
        "SAY 'a'; SAY 'b'",
        "x = 1 + 2\n/* c /* d */ e */\r\nlabel:\tcall foo,\n  bar",
        "'esc \\' q' \"dq\" 'open\\",
        "/* open comment\n",
        "a\t\t  b",
    ] {
        assert_eq!(rebuilt(src), src);
    }
}

#[test]
fn continuation_keeps_one_line() {
    let mut lexer = Lexer::new("SAY 'a',\n'b'");
    let result = lexer.tokenize();
    assert_eq!(result.len(), 1);
    assert_eq!(
        kinds(&result[0]),
        vec![
            TokenType::Identifier,
            TokenType::Whitespace,
            TokenType::Literal,
            TokenType::Comma,
            TokenType::EOL,
            TokenType::Literal,
            TokenType::EOS
        ]
    );
    assert_eq!(result[0].tokens[5].range.start.line, 1);
    assert_eq!(result[0].tokens[5].range.start.character, 0);
    assert_eq!(result[0].tokens[5].range.start.index, 9);
}

#[test]
fn trailing_comma_at_end_of_input_ends_line() {
    let mut lexer = Lexer::new("SAY 'a',\n");
    let result = lexer.tokenize();
    assert_eq!(result.len(), 2);
    assert_eq!(result[0].tokens.last().unwrap().token_type, TokenType::EOL);
    assert_eq!(kinds(&result[1]), vec![TokenType::EOS]);
}

#[test]
fn nested_comment_is_one_token() {
    let mut lexer = Lexer::new("/* This /* is a */ comment */");
    let result = lexer.tokenize();
    assert_eq!(result.len(), 1);
    assert_eq!(kinds(&result[0]), vec![TokenType::Comment, TokenType::EOS]);
    assert_eq!(result[0].tokens[0].range.end.index, 29);
}

#[test]
fn multi_line_comment_moves_position() {
    let mut lexer = Lexer::new("/*\n *\n */\nx:");
    let result = lexer.tokenize();
    let comment = result[0].tokens[0];
    assert_eq!(comment.token_type, TokenType::Comment);
    assert_eq!(comment.range.start.line, 0);
    assert_eq!(comment.range.end.line, 2);
    assert_eq!(comment.range.end.character, 3);
    assert_eq!(comment.range.end.index, 9);
    let x = result[1].tokens[0];
    assert_eq!(x.token_type, TokenType::Identifier);
    assert_eq!(x.range.start.line, 3);
    assert_eq!(x.range.start.character, 0);
}

#[test]
fn whitespace_runs_are_split_by_kind() {
    let mut lexer = Lexer::new("a  \t\t\t b");
    let result = lexer.tokenize();
    let toks: Vec<Token> = result[0].tokens.clone();
    assert_eq!(
        kinds(&result[0]),
        vec![
            TokenType::Identifier,
            TokenType::Whitespace,
            TokenType::Whitespace,
            TokenType::Whitespace,
            TokenType::Identifier,
            TokenType::EOS
        ]
    );
    assert_eq!(lexer.get_text(&toks[1]), "  ");
    assert_eq!(lexer.get_text(&toks[2]), "\t\t\t");
    assert_eq!(lexer.get_text(&toks[3]), " ");
}

#[test]
fn equal_sign_is_semicolon_kind_without_ending_line() {
    let mut lexer = Lexer::new("x = 1; y");
    let result = lexer.tokenize();
    assert_eq!(result.len(), 2);
    assert_eq!(
        kinds(&result[0]),
        vec![
            TokenType::Identifier,
            TokenType::Whitespace,
            TokenType::Semicolon,
            TokenType::Whitespace,
            TokenType::Number,
            TokenType::Semicolon
        ]
    );
    assert_eq!(
        kinds(&result[1]),
        vec![TokenType::Whitespace, TokenType::Identifier, TokenType::EOS]
    );
}

#[test]
fn punctuation_and_unknown_characters() {
    let mut lexer = Lexer::new("+-*()/ #");
    let result = lexer.tokenize();
    assert_eq!(
        kinds(&result[0]),
        vec![
            TokenType::Todo,
            TokenType::Todo,
            TokenType::Todo,
            TokenType::Todo,
            TokenType::Todo,
            TokenType::Todo,
            TokenType::Whitespace,
            TokenType::Unknown,
            TokenType::EOS
        ]
    );
}

#[test]
fn identifiers_and_numbers() {
    let mut lexer = Lexer::new("foo_1 42x");
    let result = lexer.tokenize();
    let toks = result[0].tokens.clone();
    assert_eq!(toks[0].token_type, TokenType::Identifier);
    assert_eq!(lexer.get_text(&toks[0]), "foo_1");
    assert_eq!(toks[2].token_type, TokenType::Number);
    assert_eq!(lexer.get_text(&toks[2]), "42");
    assert_eq!(toks[3].token_type, TokenType::Identifier);
    assert_eq!(lexer.get_text(&toks[3]), "x");
}

#[test]
fn literal_with_escape_and_other_quote() {
    let mut lexer = Lexer::new("'it\\'s \"x\"' + \"a'b\"");
    let result = lexer.tokenize();
    let toks = result[0].tokens.clone();
    assert_eq!(toks[0].token_type, TokenType::Literal);
    assert_eq!(lexer.get_text(&toks[0]), "'it\\'s \"x\"'");
    assert_eq!(toks[4].token_type, TokenType::Literal);
    assert_eq!(lexer.get_text(&toks[4]), "\"a'b\"");
}

#[test]
fn unterminated_literal_and_comment_close_at_end() {
    let mut lexer = Lexer::new("'abc");
    let result = lexer.tokenize();
    assert_eq!(kinds(&result[0]), vec![TokenType::Literal, TokenType::EOS]);
    assert_eq!(result[0].tokens[0].range.end.index, 4);

    let mut lexer = Lexer::new("'ab\\");
    let result = lexer.tokenize();
    assert_eq!(result[0].tokens[0].range.end.index, 4);

    let mut lexer = Lexer::new("/* a /* b */");
    let result = lexer.tokenize();
    assert_eq!(kinds(&result[0]), vec![TokenType::Comment, TokenType::EOS]);
    assert_eq!(result[0].tokens[0].range.end.index, 12);
}

#[test]
fn carriage_return_and_line_feed_are_separate_lines() {
    let mut lexer = Lexer::new("a\r\nb");
    let result = lexer.tokenize();
    assert_eq!(result.len(), 3);
    assert_eq!(kinds(&result[0]), vec![TokenType::Identifier, TokenType::EOL]);
    assert_eq!(kinds(&result[1]), vec![TokenType::EOL]);
    let b = result[2].tokens[0];
    assert_eq!(b.range.start.line, 2);
    assert_eq!(b.range.start.character, 0);
    assert_eq!(b.range.start.index, 3);
}

#[test]
fn positions_count_characters() {
    let mut lexer = Lexer::new("é x");
    let result = lexer.tokenize();
    let x = result[0].tokens[2];
    assert_eq!(x.token_type, TokenType::Identifier);
    assert_eq!(x.range.start.index, 2);
    assert_eq!(lexer.get_text(&x), "x");
}
