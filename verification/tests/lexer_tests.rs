use kravl_parser::lexer::Lexer;
use kravl_parser::tokens::{Token, TokenType, BinOp};
use kravl_parser::errors::LexError;
use kravl_parser::numbers::{parse_i64, u32_text};
use kravl_parser::errors::ParseError;

fn lex(source: &str) -> Lexer {
    let mut lexer = Lexer::new();
    lexer.tokenize(String::from(source)).expect("tokenize failed");
    lexer
}

fn kinds(lexer: &Lexer) -> Vec<TokenType> {
    lexer.get_tokens().iter().map(|t| t.token_type).collect()
}

#[test]
fn lexer_tokenize() {
    let mut lexer = Lexer::new();

    let _ = lexer.tokenize(String::from(
        "
            define fib_sum(a -> int, b -> int) -> int
                if a + b <= 2
                    return c
                end

                fib_sum(a, b - 1) + fib_sum(a, b - 2)
            end
        ",
    ));

    assert!(lexer.get_tokens().len() != 0)
}

#[test]
fn definition_token_kinds_in_order() {
    let lexer = lex("define fib_sum(a, b) do return a end");
    assert_eq!(
        kinds(&lexer),
        vec![
            TokenType::Definition,
            TokenType::Identifier,
            TokenType::LParen,
            TokenType::Identifier,
            TokenType::Comma,
            TokenType::Identifier,
            TokenType::RParen,
            TokenType::Do,
            TokenType::Return,
            TokenType::Identifier,
            TokenType::End,
        ]
    );
}

#[test]
fn integer_lexeme_round_trip() {
    let lexer = lex("-123");
    let toks = lexer.get_tokens();
    assert_eq!(toks.len(), 1);
    assert_eq!(toks[0].token_type, TokenType::Integer);
    assert_eq!(toks[0].content, "-123");
    assert_eq!(parse_i64(&toks[0].content), Some(-123));
}

#[test]
fn float_lexeme_round_trip() {
    let lexer = lex("3.25");
    let toks = lexer.get_tokens();
    assert_eq!(toks.len(), 1);
    assert_eq!(toks[0].token_type, TokenType::Float);
    assert_eq!(toks[0].content, "3.25");
    assert_eq!(toks[0].content.parse::<f64>().unwrap(), 3.25f64);
}

#[test]
fn string_literal_content_double_quotes() {
    let lexer = lex("\"hey aywa\"");
    let toks = lexer.get_tokens();
    assert_eq!(toks.len(), 1);
    assert_eq!(toks[0].token_type, TokenType::Text);
    assert_eq!(toks[0].content, "hey aywa");
}

#[test]
fn string_literal_content_single_quotes() {
    let lexer = lex("'a \"b\" c'");
    let toks = lexer.get_tokens();
    assert_eq!(toks.len(), 1);
    assert_eq!(toks[0].token_type, TokenType::Text);
    assert_eq!(toks[0].content, "a \"b\" c");
}

#[test]
fn unterminated_string_is_an_error() {
    let mut lexer = Lexer::new();
    let r = lexer.tokenize(String::from("\"abc"));
    assert_eq!(r, Err(LexError::UnterminatedString { row: 1, col: 0 }));
    assert_eq!(lexer.get_tokens().len(), 0);
}

#[test]
fn unrecognized_character_is_an_error() {
    let mut lexer = Lexer::new();
    let r = lexer.tokenize(String::from("a = @"));
    assert_eq!(r, Err(LexError::UnrecognizedChar { c: '@', row: 1, col: 4 }));
    assert_eq!(lexer.get_tokens().len(), 0);
}

#[test]
fn rows_and_closing_columns() {
    let lexer = lex("ab cd\nef");
    let toks = lexer.get_tokens();
    assert_eq!(toks.len(), 3);
    assert_eq!((toks[0].row, toks[0].col), (1, 2));
    assert_eq!((toks[1].row, toks[1].col), (1, 5));
    assert_eq!((toks[2].row, toks[2].col), (2, 2));
}

#[test]
fn arrow_and_minus_and_negative_number() {
    let lexer = lex("a -> b - 1 -2");
    let toks = lexer.get_tokens();
    let expected = vec![
        TokenType::Identifier,
        TokenType::Arrow,
        TokenType::Identifier,
        TokenType::BinOp,
        TokenType::Integer,
        TokenType::Integer,
    ];
    assert_eq!(kinds(&lexer), expected);
    assert_eq!(toks[5].content, "-2");
}

#[test]
fn operator_table() {
    assert_eq!(Lexer::bin_op("*"), Some((BinOp::Mul, 1)));
    assert_eq!(Lexer::bin_op("/"), Some((BinOp::Div, 1)));
    assert_eq!(Lexer::bin_op("+"), Some((BinOp::Plus, 2)));
    assert_eq!(Lexer::bin_op("-"), Some((BinOp::Minus, 2)));
    assert_eq!(Lexer::bin_op("=="), Some((BinOp::Equal, 4)));
    assert_eq!(Lexer::bin_op("~="), Some((BinOp::NotEqual, 4)));
    assert_eq!(Lexer::bin_op("<"), Some((BinOp::Lt, 4)));
    assert_eq!(Lexer::bin_op(">"), Some((BinOp::Gt, 4)));
    assert_eq!(Lexer::bin_op("<="), Some((BinOp::LtEqual, 4)));
    assert_eq!(Lexer::bin_op(">="), Some((BinOp::GtEqual, 4)));
    assert_eq!(Lexer::bin_op("="), None);
    assert_eq!(Lexer::bin_op("->"), None);
}

#[test]
fn two_character_operators_lex_as_one_token() {
    let lexer = lex("a <= b ~= c");
    let toks = lexer.get_tokens();
    assert_eq!(toks.len(), 5);
    assert_eq!(toks[1].token_type, TokenType::BinOp);
    assert_eq!(toks[1].content, "<=");
    assert_eq!(toks[3].token_type, TokenType::BinOp);
    assert_eq!(toks[3].content, "~=");
}

#[test]
fn punctuation_tokens() {
    let lexer = lex("= ( ) [ ] { } : , . ;");
    assert_eq!(
        kinds(&lexer),
        vec![
            TokenType::Assign,
            TokenType::LParen,
            TokenType::RParen,
            TokenType::LBracket,
            TokenType::RBracket,
            TokenType::LBrace,
            TokenType::RBrace,
            TokenType::Colon,
            TokenType::Comma,
            TokenType::Period,
            TokenType::Semicolon,
        ]
    );
}

#[test]
fn keywords_and_identifiers() {
    let lexer = lex("define lambda if else return true false do end ends x_1?!");
    assert_eq!(
        kinds(&lexer),
        vec![
            TokenType::Definition,
            TokenType::Lambda,
            TokenType::If,
            TokenType::Else,
            TokenType::Return,
            TokenType::True,
            TokenType::False,
            TokenType::Do,
            TokenType::End,
            TokenType::Identifier,
            TokenType::Identifier,
        ]
    );
}

#[test]
fn cursor_moves_and_clamps() {
    let mut lexer = Lexer::from(vec![
        Token::new(TokenType::Identifier, String::from("a"), 1, 1),
        Token::new(TokenType::Assign, String::from("="), 1, 3),
    ]);
    assert_eq!(lexer.tokens_remaining(), 2);
    assert_eq!(lexer.current_token().token_type, TokenType::Identifier);
    assert!(!lexer.previous_token());
    assert!(lexer.next_token());
    assert_eq!(lexer.current_token_content(), "=");
    assert!(lexer.next_token());
    assert_eq!(lexer.tokens_remaining(), 0);
    // past the end the cursor clamps to the final token
    assert_eq!(lexer.current_token().token_type, TokenType::Assign);
    assert!(!lexer.next_token());
    assert!(lexer.previous_token());
    assert_eq!(lexer.tokens_remaining(), 1);
}

#[test]
fn match_current_token_reports_expected_and_found() {
    let lexer = Lexer::from(vec![Token::new(TokenType::Do, String::from("do"), 1, 2)]);
    assert!(lexer.match_current_token(TokenType::Do).is_ok());
    assert_eq!(
        lexer.match_current_token(TokenType::End).unwrap_err(),
        ParseError::Expected { expected: TokenType::End, found: TokenType::Do }
    );
}

#[test]
fn tokenize_appends_and_reset_clears() {
    let mut lexer = Lexer::new();
    lexer.tokenize(String::from("a")).unwrap();
    lexer.tokenize(String::from("b")).unwrap();
    assert_eq!(lexer.get_tokens().len(), 2);
    lexer.reset();
    assert_eq!(lexer.get_tokens().len(), 0);
}

#[test]
fn parse_i64_bounds() {
    assert_eq!(parse_i64("9223372036854775807"), Some(i64::MAX));
    assert_eq!(parse_i64("9223372036854775808"), None);
    assert_eq!(parse_i64("-9223372036854775808"), Some(i64::MIN));
    assert_eq!(parse_i64("-9223372036854775809"), None);
    assert_eq!(parse_i64("0"), Some(0));
    assert_eq!(parse_i64(""), None);
    assert_eq!(parse_i64("-"), None);
    assert_eq!(parse_i64("12a"), None);
    assert_eq!(parse_i64("1.5"), None);
}

#[test]
fn leading_dot_float_keeps_its_lexeme() {
    let lexer = lex(".5");
    let toks = lexer.get_tokens();
    assert_eq!(toks.len(), 1);
    assert_eq!(toks[0].token_type, TokenType::Float);
    assert_eq!(toks[0].content, ".5");
}

#[test]
fn token_new_holds_its_fields() {
    let t = Token::new(TokenType::Text, String::from("hi"), 3, 7);
    assert_eq!(t.token_type, TokenType::Text);
    assert_eq!(t.content, "hi");
    assert_eq!(t.row, 3);
    assert_eq!(t.col, 7);
}

#[test]
fn lex_error_description() {
    let e = LexError::UnrecognizedChar { c: '@', row: 12, col: 304 };
    assert_eq!(e.describe(), "unrecognized character @ at line 12, column 304");
    let u = LexError::UnterminatedString { row: 1, col: 0 };
    assert_eq!(u.describe(), "unterminated string at line 1, column 0");
}

#[test]
fn parse_error_description() {
    let e = ParseError::Expected { expected: TokenType::End, found: TokenType::Do };
    assert_eq!(e.describe(), "expected End but found Do");
    let u = ParseError::UnexpectedToken { found: TokenType::Semicolon };
    assert_eq!(u.describe(), "no expression can start with Semicolon");
    assert_eq!(ParseError::UnexpectedEnd.describe(), "unexpected end of input");
    assert_eq!(
        ParseError::BadIntegerLiteral.describe(),
        "integer literal does not fit in 64 bits"
    );
    assert_eq!(
        ParseError::MissingBlockEnd.describe(),
        "block is missing its matching end"
    );
}

#[test]
fn decimal_text_of_numbers() {
    assert_eq!(u32_text(0), "0");
    assert_eq!(u32_text(7), "7");
    assert_eq!(u32_text(10), "10");
    assert_eq!(u32_text(40960), "40960");
    assert_eq!(u32_text(u32::MAX), "4294967295");
}

#[test]
fn empty_source_has_no_tokens() {
    let lexer = lex("");
    assert_eq!(lexer.get_tokens().len(), 0);
}

#[test]
fn carriage_return_line_endings() {
    let lexer = lex("a\r\nb");
    let toks = lexer.get_tokens();
    assert_eq!(toks.len(), 2);
    assert_eq!((toks[0].content.as_str(), toks[0].row), ("a", 1));
    assert_eq!((toks[1].content.as_str(), toks[1].row), ("b", 2));
}

#[test]
fn carriage_return_without_newline_is_an_error() {
    let mut lexer = Lexer::new();
    let r = lexer.tokenize(String::from("a\r"));
    assert_eq!(r, Err(LexError::UnrecognizedChar { c: '\r', row: 1, col: 1 }));
    assert_eq!(lexer.get_tokens().len(), 0);
}
