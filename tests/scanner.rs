use rlox::scanner::{scan, Scanner, TokenInfo};
use rlox::tokens::{Token, TokenType, Value};

#[test]
fn test_simple_symbols() {
    let code = r#"// this is a comment
(( )){} // grouping stuff
!*+-/=<> <= ==!= // operators"#;
    let exp = TokenInfo {
        tokens: vec![
            Token::new("(", false),
            Token::new("(", false),
            Token::new(")", false),
            Token::new(")", false),
            Token::new("{", false),
            Token::new("}", false),
            Token::new("!", false),
            Token::new("*", false),
            Token::new("+", false),
            Token::new("-", false),
            Token::new("/", false),
            Token::new("=", false),
            Token::new("<", false),
            Token::new(">", false),
            Token::new("<=", false),
            Token::new("==", false),
            Token::new("!=", false),
            Token::new("", false),
        ],
        tags: vec![
            TokenType::LeftParen,
            TokenType::LeftParen,
            TokenType::RightParen,
            TokenType::RightParen,
            TokenType::LeftBrace,
            TokenType::RightBrace,
            TokenType::Bang,
            TokenType::Star,
            TokenType::Plus,
            TokenType::Minus,
            TokenType::Slash,
            TokenType::Equal,
            TokenType::Less,
            TokenType::Greater,
            TokenType::LessEqual,
            TokenType::EqualEqual,
            TokenType::BangEqual,
            TokenType::Eof,
        ],
        line_nrs: vec![2, 2, 2, 2, 2, 2, 3, 3, 3, 3, 3, 3, 3, 3, 3, 3, 3, 3],
        end_cols: vec![0, 1, 3, 4, 5, 6, 0, 1, 2, 3, 4, 5, 6, 7, 10, 13, 15, 28],
        errors: vec![],
    };
    let scan_res = Scanner::new(code).run();

    assert_eq!(scan_res.tokens, exp.tokens);
    assert_eq!(scan_res.tags, exp.tags);
    assert_eq!(scan_res.end_cols, exp.end_cols);
    assert_eq!(scan_res.line_nrs, exp.line_nrs);
    assert!(scan_res.errors.is_empty());
}

#[test]
fn test_scan_simple_numbers() {
    let code = r#"123 123.456 0.123"#;
    let exp = TokenInfo {
        tokens: vec![
            Token::new("123", true),
            Token::new("123.456", true),
            Token::new("0.123", true),
            Token::new("", false),
        ],
        tags: vec![
            TokenType::Number,
            TokenType::Number,
            TokenType::Number,
            TokenType::Eof,
        ],
        line_nrs: vec![1, 1, 1, 1],
        end_cols: vec![2, 10, 15, 15],
        errors: vec![],
    };
    let scan_res = Scanner::new(code).run();

    assert_eq!(scan_res.tokens, exp.tokens);
    assert_eq!(scan_res.tags, exp.tags);
    assert_eq!(scan_res.end_cols, exp.end_cols);
    assert_eq!(scan_res.line_nrs, exp.line_nrs);
    assert!(scan_res.errors.is_empty());
}

#[test]
fn test_simple_idents() {
    let code = r#"foo bar baz if and fun else or nil"#;
    let exp = TokenInfo {
        tokens: vec![
            Token::new("foo", false),
            Token::new("bar", false),
            Token::new("baz", false),
            Token::new("if", false),
            Token::new("and", false),
            Token::new("fun", false),
            Token::new("else", false),
            Token::new("or", false),
            Token::new("nil", false),
            Token::new("", false),
        ],
        tags: vec![
            TokenType::Identifier,
            TokenType::Identifier,
            TokenType::Identifier,
            TokenType::If,
            TokenType::And,
            TokenType::Fun,
            TokenType::Else,
            TokenType::Or,
            TokenType::Nil,
            TokenType::Eof,
        ],
        line_nrs: vec![1; 10],
        end_cols: vec![2, 6, 10, 13, 17, 21, 26, 29, 32, 32],
        errors: vec![],
    };
    let scan_res = Scanner::new(code).run();

    assert_eq!(scan_res.tokens, exp.tokens);
    assert_eq!(scan_res.tags, exp.tags);
    assert_eq!(scan_res.end_cols, exp.end_cols);
    assert_eq!(scan_res.line_nrs, exp.line_nrs);
    assert!(scan_res.errors.is_empty());
}

fn eof_count(info: &TokenInfo) -> usize {
    info.tags.iter().filter(|t| **t == TokenType::Eof).count()
}

#[test]
fn every_table_ends_with_one_eof() {
    for code in ["", " ", "@", "\"", "1 + (2", "// only a comment", "a\n\nb", "!=>=<=", "\"x\" 1. foo"] {
        let info = scan(code);
        assert_eq!(eof_count(&info), 1, "{code:?}");
        assert_eq!(*info.tags.last().unwrap(), TokenType::Eof, "{code:?}");
        assert_eq!(info.tokens.len(), info.tags.len());
        assert_eq!(info.line_nrs.len(), info.tags.len());
        assert_eq!(info.end_cols.len(), info.tags.len());
    }
}

#[test]
fn empty_source_is_only_eof() {
    let info = scan("");
    assert_eq!(info.tags, vec![TokenType::Eof]);
    assert_eq!(info.tokens, vec![Token::new("", false)]);
    assert_eq!(info.line_nrs, vec![1]);
    assert_eq!(info.end_cols, vec![0]);
    assert!(info.errors.is_empty());
}

#[test]
fn lines_never_decrease_and_columns_restart() {
    let code = "(\n)\n\n+ -\n// note\n*\n\"a\nb\" ;";
    let info = scan(code);
    assert!(info.line_nrs.windows(2).all(|w| w[0] <= w[1]));
    assert_eq!(
        info.tags,
        vec![
            TokenType::LeftParen,
            TokenType::RightParen,
            TokenType::Plus,
            TokenType::Minus,
            TokenType::Star,
            TokenType::String,
            TokenType::Semicolon,
            TokenType::Eof,
        ]
    );
    assert_eq!(info.line_nrs, vec![1, 2, 4, 4, 6, 8, 8, 8]);
    // the first token of each line stands at column 0
    assert_eq!(info.end_cols[0], 0);
    assert_eq!(info.end_cols[1], 0);
    assert_eq!(info.end_cols[2], 0);
    assert_eq!(info.end_cols[3], 2);
    assert_eq!(info.end_cols[4], 0);
    // the string spans two lines: its closing quote is column 1 of line 8
    assert_eq!(info.end_cols[5], 1);
    assert_eq!(info.tokens[5], Token::new("a\nb", true));
    assert_eq!(info.end_cols[6], 3);
}

#[test]
fn unterminated_string_gives_one_error_at_its_quote() {
    let info = scan("\"abc");
    assert!(!info.tags.contains(&TokenType::String));
    assert_eq!(info.tags, vec![TokenType::Eof]);
    assert_eq!(info.errors.len(), 1);
    assert_eq!(info.errors[0].line, 1);
    assert_eq!(info.errors[0].column, 0);
    assert_eq!(info.errors[0].message, "unterminated string");
    assert_eq!(
        info.errors[0].to_message(),
        "[line: 1 column: 0] Error: unterminated string"
    );
}

#[test]
fn unterminated_string_later_on_a_line() {
    let info = scan("1 + \"abc");
    assert_eq!(info.tags, vec![TokenType::Number, TokenType::Plus, TokenType::Eof]);
    assert_eq!(info.errors.len(), 1);
    assert_eq!((info.errors[0].line, info.errors[0].column), (1, 4));
}

#[test]
fn trailing_dot_is_its_own_token() {
    let info = scan("123.");
    assert_eq!(info.tags, vec![TokenType::Number, TokenType::Dot, TokenType::Eof]);
    assert_eq!(info.tokens[0], Token::new("123", true));
    assert_eq!(info.tokens[0].literal, Value::Num("123".to_string()));
    assert_eq!(info.tokens[1], Token::new(".", false));
    assert!(info.errors.is_empty());
}

#[test]
fn two_character_operators_take_the_longest_match() {
    let info = scan(">= > = == ! != < <=");
    assert_eq!(
        info.tags,
        vec![
            TokenType::GreaterEqual,
            TokenType::Greater,
            TokenType::Equal,
            TokenType::EqualEqual,
            TokenType::Bang,
            TokenType::BangEqual,
            TokenType::Less,
            TokenType::LessEqual,
            TokenType::Eof,
        ]
    );
    assert_eq!(info.tokens[0].lexeme, ">=");
}

#[test]
fn unexpected_character_is_recorded_and_skipped() {
    let info = scan("1 @ 2");
    assert_eq!(info.tags, vec![TokenType::Number, TokenType::Number, TokenType::Eof]);
    assert_eq!(info.errors.len(), 1);
    assert_eq!(info.errors[0].message, "unexpected character: @");
    assert_eq!((info.errors[0].line, info.errors[0].column), (1, 2));
}

#[test]
fn string_literal_keeps_raw_text() {
    let info = scan("\"12\" \"hi there\"");
    assert_eq!(info.tags, vec![TokenType::String, TokenType::String, TokenType::Eof]);
    assert_eq!(info.tokens[0].literal, Value::String("12".to_string()));
    assert_eq!(info.tokens[1].lexeme, "hi there");
    assert_eq!(info.end_cols, vec![3, 14, 14]);
}

#[test]
fn keywords_and_identifiers() {
    let info = scan("class fun_x var while this super print return for true false nil");
    assert_eq!(
        info.tags,
        vec![
            TokenType::Class,
            TokenType::Identifier,
            TokenType::Var,
            TokenType::While,
            TokenType::This,
            TokenType::Super,
            TokenType::Print,
            TokenType::Return,
            TokenType::For,
            TokenType::True,
            TokenType::False,
            TokenType::Nil,
            TokenType::Eof,
        ]
    );
    assert_eq!(info.tokens[1].lexeme, "fun_x");
}

#[test]
fn single_character_at_the_start_and_end() {
    let info = scan("x");
    assert_eq!(info.tags, vec![TokenType::Identifier, TokenType::Eof]);
    assert_eq!(info.end_cols, vec![0, 0]);
    let info = scan("\n7");
    assert_eq!(info.line_nrs, vec![2, 2]);
    assert_eq!(info.end_cols, vec![0, 0]);
}

#[test]
fn scanner_state_accessors() {
    let scanner = Scanner::new("ab");
    assert!(!scanner.is_finished());
    assert_eq!(scanner.curr_line(), 1);
    assert_eq!(scanner.curr_col(), 0);
    assert!(!scanner.has_errors());
    assert!(scanner.errors().is_empty());
    assert!(Scanner::new("").is_finished());
}

#[test]
fn token_type_lookup() {
    assert_eq!(TokenType::from_str("and"), Some(TokenType::And));
    assert_eq!(TokenType::from_str("while"), Some(TokenType::While));
    assert_eq!(TokenType::from_str(">="), Some(TokenType::GreaterEqual));
    assert_eq!(TokenType::from_str("("), Some(TokenType::LeftParen));
    assert_eq!(TokenType::from_str("foo"), None);
    assert_eq!(TokenType::from_str(""), None);
    assert!(TokenType::If.is_keyword());
    assert!(!TokenType::Identifier.is_keyword());
    assert!(TokenType::BangEqual.is_equality());
    assert!(TokenType::LessEqual.is_comp());
    assert!(TokenType::Minus.is_term());
    assert!(TokenType::Slash.is_factor());
    assert!(TokenType::Bang.is_unary());
    assert!(!TokenType::Plus.is_unary());
}

#[test]
fn token_literals() {
    assert_eq!(Token::new("12.5", true).literal, Value::Num("12.5".to_string()));
    assert_eq!(Token::new("abc", true).literal, Value::String("abc".to_string()));
    assert_eq!(Token::new("1.", true).literal, Value::String("1.".to_string()));
    assert_eq!(Token::new("+", false).literal, Value::Absent);
    assert_eq!(Token::new("+", false).lexeme, "+");
}

#[test]
fn tag_names() {
    assert_eq!(TokenType::LeftParen.name(), "LeftParen");
    assert_eq!(TokenType::GreaterEqual.name(), "GreaterEqual");
    assert_eq!(TokenType::While.name(), "While");
    assert_eq!(TokenType::Eof.name(), "Eof");
}

#[test]
fn comment_at_end_without_newline() {
    let info = scan("+ // trailing");
    assert_eq!(info.tags, vec![TokenType::Plus, TokenType::Eof]);
    assert_eq!(info.line_nrs, vec![1, 1]);
    assert_eq!(info.end_cols, vec![0, 12]);
    let info = scan("+ //\n-");
    assert_eq!(info.tags, vec![TokenType::Plus, TokenType::Minus, TokenType::Eof]);
    assert_eq!(info.line_nrs, vec![1, 2, 2]);
    assert_eq!(info.end_cols, vec![0, 0, 0]);
}
