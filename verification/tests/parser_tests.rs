use kravl_parser::lexer::Lexer;
use kravl_parser::tokens::{TokenType, BinOp};
use kravl_parser::ast::{Parser, Expression, Statement};
use kravl_parser::errors::ParseError;
use kravl_parser::tokens::Token;

fn parse(source: &str) -> Result<Vec<Statement>, ParseError> {
    let mut lexer = Lexer::new();
    lexer.tokenize(String::from(source)).expect("tokenize failed");
    let mut parser = Parser::from(lexer);
    parser.parse_full()
}

fn ident(name: &str) -> Box<Expression> {
    Box::new(Expression::Identifier(String::from(name)))
}

fn intlit(v: i64) -> Box<Expression> {
    Box::new(Expression::Integer(v))
}

#[test]
fn parser_tokenize() {
    let mut lexer = Lexer::new();

    lexer
        .tokenize(String::from(
            "
            foo = \"hey aywa\"
            foo = 22.2

            define bar(a, b) do
                foo = 2
            end

            sum = 1337 - 2 - 10.2 * 100
        ",
        ))
        .unwrap();

    let mut parser = Parser::from(lexer);

    let stack = parser.parse_full();
    assert!(stack.is_ok());
}

#[test]
fn multiplication_binds_tighter_than_addition() {
    let stmts = parse("foo = 1 + 2 * 3").unwrap();
    assert_eq!(stmts.len(), 1);
    assert_eq!(
        stmts[0],
        Statement::Assignment(
            String::from("foo"),
            Box::new(Expression::Operation(
                intlit(1),
                BinOp::Plus,
                Box::new(Expression::Operation(intlit(2), BinOp::Mul, intlit(3))),
            )),
        )
    );
}

#[test]
fn operators_of_equal_rank_associate_left() {
    let stmts = parse("sum = 10 - 2 - 3").unwrap();
    assert_eq!(
        stmts[0],
        Statement::Assignment(
            String::from("sum"),
            Box::new(Expression::Operation(
                Box::new(Expression::Operation(intlit(10), BinOp::Minus, intlit(2))),
                BinOp::Minus,
                intlit(3),
            )),
        )
    );
}

#[test]
fn if_statement_with_comparison_condition() {
    let stmts = parse("if a > 1 do b end").unwrap();
    assert_eq!(stmts.len(), 1);
    assert_eq!(
        stmts[0],
        Statement::If(
            Box::new(Expression::Operation(ident("a"), BinOp::Gt, intlit(1))),
            Box::new(Statement::Block(vec![Statement::Expression(ident("b"))])),
        )
    );
}

#[test]
fn if_else_statement() {
    let stmts = parse("if a == b do x end else do y end").unwrap();
    assert_eq!(
        stmts[0],
        Statement::IfElse(
            Box::new(Expression::Operation(ident("a"), BinOp::Equal, ident("b"))),
            Box::new(Statement::Block(vec![Statement::Expression(ident("x"))])),
            Box::new(Statement::Block(vec![Statement::Expression(ident("y"))])),
        )
    );
}

#[test]
fn call_with_identifier_callee() {
    let stmts = parse("add(1, 2)").unwrap();
    assert_eq!(
        stmts[0],
        Statement::Expression(Box::new(Expression::Call(
            ident("add"),
            vec![Expression::Integer(1), Expression::Integer(2)],
        )))
    );
}

#[test]
fn call_with_computed_callee() {
    let stmts = parse("(lambda_returning_a_function())(1, 2)").unwrap();
    assert_eq!(
        stmts[0],
        Statement::Expression(Box::new(Expression::Call(
            Box::new(Expression::Call(ident("lambda_returning_a_function"), vec![])),
            vec![Expression::Integer(1), Expression::Integer(2)],
        )))
    );
}

#[test]
fn call_argument_must_be_followed_by_comma_or_rparen() {
    assert_eq!(
        parse("f(1 2)"),
        Err(ParseError::Expected { expected: TokenType::RParen, found: TokenType::Integer })
    );
}

#[test]
fn call_with_trailing_comma() {
    let stmts = parse("f(1,)").unwrap();
    assert_eq!(
        stmts[0],
        Statement::Expression(Box::new(Expression::Call(
            ident("f"),
            vec![Expression::Integer(1)],
        )))
    );
}

#[test]
fn call_followed_by_operator() {
    let stmts = parse("f(1) + 2").unwrap();
    assert_eq!(
        stmts[0],
        Statement::Expression(Box::new(Expression::Operation(
            Box::new(Expression::Call(ident("f"), vec![Expression::Integer(1)])),
            BinOp::Plus,
            intlit(2),
        )))
    );
}

#[test]
fn named_definition_with_annotation() {
    let stmts = parse("define f(a, b) -> int do return a end").unwrap();
    assert_eq!(
        stmts[0],
        Statement::Expression(Box::new(Expression::Definition(
            Some(String::from("f")),
            vec![String::from("a"), String::from("b")],
            vec![Statement::Expression(Box::new(Expression::Return(ident("a"))))],
            Some(String::from("int")),
        )))
    );
}

#[test]
fn anonymous_definition_without_annotation() {
    let stmts = parse("define (x) do end").unwrap();
    assert_eq!(
        stmts[0],
        Statement::Expression(Box::new(Expression::Definition(
            None,
            vec![String::from("x")],
            vec![],
            None,
        )))
    );
}

#[test]
fn literals_parse_to_their_nodes() {
    let stmts = parse("true false \"s\" 2.5 -7 x").unwrap();
    assert_eq!(
        stmts,
        vec![
            Statement::Expression(Box::new(Expression::Bool(true))),
            Statement::Expression(Box::new(Expression::Bool(false))),
            Statement::Expression(Box::new(Expression::Text(String::from("s")))),
            Statement::Expression(Box::new(Expression::Float(String::from("2.5")))),
            Statement::Expression(intlit(-7)),
            Statement::Expression(ident("x")),
        ]
    );
}

#[test]
fn missing_block_end_fails() {
    assert_eq!(parse("if a do b"), Err(ParseError::MissingBlockEnd));
}

#[test]
fn stray_end_fails() {
    assert_eq!(
        parse("a end"),
        Err(ParseError::UnexpectedToken { found: TokenType::End })
    );
}

#[test]
fn extra_end_after_balanced_block_fails() {
    assert_eq!(
        parse("define f() do end end"),
        Err(ParseError::UnexpectedToken { found: TokenType::End })
    );
}

#[test]
fn deep_nesting_balances() {
    // regression guard for the nesting counter: 50 nested blocks
    let depth = 50;
    let mut source = String::new();
    for _ in 0..depth {
        source.push_str("if a do ");
    }
    source.push_str("b ");
    for _ in 0..depth {
        source.push_str("end ");
    }
    let stmts = parse(&source).unwrap();
    assert_eq!(stmts.len(), 1);
    let mut current = stmts.into_iter().next().unwrap();
    let mut seen = 0;
    loop {
        match current {
            Statement::If(_, body) => {
                seen += 1;
                match *body {
                    Statement::Block(inner) => {
                        assert_eq!(inner.len(), 1);
                        current = inner.into_iter().next().unwrap();
                    },
                    other => panic!("expected a block, found {:?}", other),
                }
            },
            Statement::Expression(e) => {
                assert_eq!(*e, Expression::Identifier(String::from("b")));
                break;
            },
            other => panic!("unexpected statement {:?}", other),
        }
    }
    assert_eq!(seen, depth);
}

#[test]
fn expected_rparen_reported() {
    assert_eq!(
        parse("(1 ;"),
        Err(ParseError::Expected { expected: TokenType::RParen, found: TokenType::Semicolon })
    );
}

#[test]
fn expected_do_reported() {
    assert_eq!(
        parse("if a ;"),
        Err(ParseError::Expected { expected: TokenType::Do, found: TokenType::Semicolon })
    );
}

#[test]
fn expected_lparen_in_definition_reported() {
    assert_eq!(
        parse("define f x"),
        Err(ParseError::Expected { expected: TokenType::LParen, found: TokenType::Identifier })
    );
}

#[test]
fn input_ending_early_reported() {
    assert_eq!(parse("return"), Err(ParseError::UnexpectedEnd));
    assert_eq!(parse("(1"), Err(ParseError::UnexpectedEnd));
}

#[test]
fn oversized_integer_literal_reported() {
    assert_eq!(parse("99999999999999999999"), Err(ParseError::BadIntegerLiteral));
}

#[test]
fn parse_from_tokens_parses_extracted_run() {
    let tokens = vec![
        Token::new(TokenType::Identifier, String::from("x"), 1, 1),
        Token::new(TokenType::Assign, String::from("="), 1, 3),
        Token::new(TokenType::Integer, String::from("4"), 1, 5),
    ];
    let stmts = Parser::parse_from_tokens(tokens).unwrap();
    assert_eq!(stmts, vec![Statement::Assignment(String::from("x"), intlit(4))]);
}

#[test]
fn comparison_has_lowest_priority() {
    let stmts = parse("a < 1 + 2").unwrap();
    assert_eq!(
        stmts[0],
        Statement::Expression(Box::new(Expression::Operation(
            ident("a"),
            BinOp::Lt,
            Box::new(Expression::Operation(intlit(1), BinOp::Plus, intlit(2))),
        )))
    );
}

#[test]
fn empty_token_list_parses_to_no_statements() {
    assert_eq!(Parser::parse_from_tokens(vec![]), Ok(vec![]));
}
