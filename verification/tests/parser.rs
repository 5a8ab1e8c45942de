use minilang::ast::{Program, Property, Stmt};
use minilang::error::{LexerError, ParseError, SyntaxError};
use minilang::parser::Parser;
use minilang::token::{Token, TokenType};

fn parse(src: &str) -> Result<Program, SyntaxError> {
    let mut parser = Parser::new();
    parser.produce_ast(src.to_owned())
}

fn token(value: &str, token_type: TokenType) -> Token {
    Token {
        value: value.to_owned(),
        token_type,
    }
}

fn ident(name: &str) -> Stmt {
    Stmt::Identifier(name.to_owned())
}

fn num(text: &str) -> Stmt {
    Stmt::NumericLiteral(text.to_owned())
}

fn binary(left: Stmt, operator: &str, right: Stmt) -> Stmt {
    Stmt::BinaryExpr {
        left: Box::new(left),
        right: Box::new(right),
        operator: operator.to_owned(),
    }
}

#[test]
fn parser_basic() {
    let expected = Program {
        body: vec![Stmt::BinaryExpr {
            left: Box::new(Stmt::NumericLiteral("45".to_owned())),
            right: Box::new(Stmt::BinaryExpr {
                left: Box::new(Stmt::BinaryExpr {
                    left: Box::new(Stmt::Identifier("foo".to_owned())),
                    right: Box::new(Stmt::NumericLiteral("4".to_owned())),
                    operator: "+".to_owned(),
                }),
                right: Box::new(Stmt::Identifier("bar".to_owned())),
                operator: "%".to_owned(),
            }),
            operator: "+".to_owned(),
        }],
    };
    let input = "45 + (foo + 4) % bar";
    let mut parser = Parser::new();

    let program = parser
        .produce_ast(input.to_owned())
        .expect("Unable to parse");
    assert_eq!(program, expected);
}

#[test]
fn assignment() {
    let expected = Program {
        body: vec![
            Stmt::VarDeclaration {
                constant: false,
                identifier: "foo".to_string(),
                value: Some(Box::new(Stmt::BinaryExpr {
                    left: Box::new(Stmt::NumericLiteral("50".to_string())),
                    right: Box::new(Stmt::NumericLiteral("2".to_string())),
                    operator: "/".to_string(),
                })),
            },
            Stmt::VarDeclaration {
                constant: true,
                identifier: "bar".to_string(),
                value: Some(Box::new(Stmt::ObjectLiteral(vec![
                    Property {
                        key: "x".to_string(),
                        value: Some(Box::new(Stmt::NumericLiteral("100".to_string()))),
                    },
                    Property {
                        key: "y".to_string(),
                        value: Some(Box::new(Stmt::NumericLiteral("32".to_string()))),
                    },
                    Property {
                        key: "foo".to_string(),
                        value: None,
                    },
                    Property {
                        key: "baz".to_string(),
                        value: Some(Box::new(Stmt::ObjectLiteral(vec![Property {
                            key: "z".to_string(),
                            value: Some(Box::new(Stmt::Identifier("true".to_string()))),
                        }]))),
                    },
                ]))),
            },
        ],
    };

    let input = r#"
            let foo = 50 / 2;
            const bar = {
                x: 100,
                y: 32,
                foo,
                baz: {
                    z: true,
                },
            };
        "#;

    let mut parser = Parser::new();

    let program = parser
        .produce_ast(input.to_string())
        .expect("Unable to parse");
    assert_eq!(program, expected);
}

#[test]
fn declare_function() {
    let expected = Program {
        body: vec![Stmt::FnDeclaration {
            name: "add".to_owned(),
            parameters: vec!["x".to_owned(), "y".to_owned()],
            body: vec![
                Stmt::FnDeclaration {
                    name: "subtract".to_owned(),
                    parameters: vec![],
                    body: vec![Stmt::CallExpr {
                        args: vec![],
                        caller: Box::new(Stmt::Identifier("print".to_owned())),
                    }],
                    is_const: false,
                },
                Stmt::AssignmentExpr {
                    assignee: Box::new(Stmt::Identifier("result".to_owned())),
                    value: Box::new(Stmt::BinaryExpr {
                        left: Box::new(Stmt::Identifier("x".to_owned())),
                        right: Box::new(Stmt::Identifier("y".to_owned())),
                        operator: "+".to_owned(),
                    }),
                },
                Stmt::CallExpr {
                    args: vec![Stmt::Identifier("result".to_owned())],
                    caller: Box::new(Stmt::Identifier("print".to_owned())),
                },
                Stmt::Identifier("result".to_owned()),
            ],
            is_const: false,
        }],
    };

    let input = r#"
            fn add(x,y) {
                fn subtract() {
                    print();
                }

                let result = x + y;
                
                print(result);
                result
            }
        "#;

    let mut parser = Parser::new();

    let program = parser
        .produce_ast(input.to_string())
        .expect("Unable to parse");
    assert_eq!(program, expected);
}

#[test]
fn comment() {
    let expected = Program {
        body: vec![
            Stmt::Comment(" this is a comment!".to_owned()),
            Stmt::VarDeclaration {
                constant: false,
                identifier: "foo".to_owned(),
                value: Some(Box::new(Stmt::BinaryExpr {
                    left: Box::new(Stmt::NumericLiteral("50".to_owned())),
                    right: Box::new(Stmt::NumericLiteral("2".to_owned())),
                    operator: "/".to_owned(),
                })),
            },
            Stmt::Comment(" this does stuff".to_owned()),
            Stmt::CallExpr {
                args: vec![Stmt::BinaryExpr {
                    left: Box::new(Stmt::BinaryExpr {
                        left: Box::new(Stmt::NumericLiteral("40".to_owned())),
                        right: Box::new(Stmt::NumericLiteral("2".to_owned())),
                        operator: "*".to_owned(),
                    }),
                    right: Box::new(Stmt::Identifier("foo".to_owned())),
                    operator: "+".to_owned(),
                }],
                caller: Box::new(Stmt::Identifier("print".to_owned())),
            },
            Stmt::Comment(" so does this!".to_owned()),
        ],
    };

    let input = r#"
            // this is a comment!
            let foo = 50 / 2;

            // this does stuff
            print(40 * 2 + foo); // so does this!
        "#;

    let mut parser = Parser::new();

    let program = parser
        .produce_ast(input.to_string())
        .expect("Unable to parse");
    assert_eq!(program, expected);
}

#[test]
fn call_expression() {
    let expected = Program {
        body: vec![
            Stmt::VarDeclaration {
                constant: false,
                identifier: "foo".to_string(),
                value: Some(Box::new(Stmt::BinaryExpr {
                    left: Box::new(Stmt::NumericLiteral("50".to_string())),
                    right: Box::new(Stmt::NumericLiteral("2".to_string())),
                    operator: "/".to_string(),
                })),
            },
            Stmt::CallExpr {
                args: vec![Stmt::BinaryExpr {
                    left: Box::new(Stmt::BinaryExpr {
                        left: Box::new(Stmt::NumericLiteral("40".to_string())),
                        right: Box::new(Stmt::NumericLiteral("2".to_string())),
                        operator: "*".to_string(),
                    }),
                    right: Box::new(Stmt::Identifier("foo".to_string())),
                    operator: "+".to_string(),
                }],
                caller: Box::new(Stmt::Identifier("print".to_string())),
            },
        ],
    };

    let input = r#"
            let foo = 50 / 2;

            print(40 * 2 + foo);
        "#;

    let mut parser = Parser::new();

    let program = parser
        .produce_ast(input.to_string())
        .expect("Unable to parse");
    assert_eq!(program, expected);
}

#[test]
fn nested_call_expression() {
    let expected = Program {
        body: vec![Stmt::CallExpr {
            args: vec![Stmt::CallExpr {
                args: vec![Stmt::NumericLiteral("5".to_owned())],
                caller: Box::new(Stmt::Identifier("print".to_owned())),
            }],
            caller: Box::new(Stmt::Identifier("print".to_string())),
        }],
    };

    let input = r#"print(print(5));"#;

    let mut parser = Parser::new();

    let program = parser
        .produce_ast(input.to_string())
        .expect("Unable to parse");
    assert_eq!(program, expected);
}

#[test]
fn const_requires_value() {
    let input1 = r#"const foo;"#;
    let input2 = r#"const foo = 6;"#;

    let mut parser = Parser::new();

    let error = parser.produce_ast(input1.to_string()).unwrap_err();
    let result = parser.produce_ast(input2.to_string());

    assert_eq!(
        "A value is required for const assignment",
        error.message()
    );
    assert!(result.is_ok());
}

#[test]
fn parse_failures_in_words() {
    assert_eq!(
        ParseError::ExpectedCharacter(
            TokenType::RightParen,
            TokenType::Semicolon,
            "Missing closing parenthesis in argument list".to_owned()
        )
        .message(),
        "\nExpected RightParen but got Semicolon.\nMissing closing parenthesis in argument list"
    );
    assert_eq!(
        ParseError::ExpectedToken.message(),
        "Expected a token but it returned nothing"
    );
    assert_eq!(
        ParseError::ExpectedParameterToBeString(num("1")).message(),
        "Expected parameter type NumericLiteral(\"1\") to be of type string"
    );
    assert_eq!(
        ParseError::ExpectedParameterToBeString(binary(ident("a"), "+", num("2"))).message(),
        format!(
            "Expected parameter type {:?} to be of type string",
            binary(ident("a"), "+", num("2"))
        )
    );
    assert_eq!(
        ParseError::UnsupportedTokenType(TokenType::Eof).message(),
        "Unsupported token Eof"
    );
    assert_eq!(
        ParseError::NoDotOperatorWithoutRhsIdentifier.message(),
        "Cannot use dot operator without rhs being an identifier"
    );
    assert_eq!(
        ParseError::ConstValueRequired.message(),
        "A value is required for const assignment"
    );
    assert_eq!(
        SyntaxError::Lexer(LexerError::UnexpectedCharacter('#')).message(),
        "Unexpected character #"
    );
    assert_eq!(
        LexerError::UnexpectedCharacter('é').message(),
        "Unexpected character é"
    );
    assert_eq!(
        SyntaxError::Parse(ParseError::ConstValueRequired).message(),
        "A value is required for const assignment"
    );
}

#[test]
fn every_kind_is_named_as_it_is_written() {
    let kinds = [
        TokenType::Identifier,
        TokenType::Number,
        TokenType::BinaryOperator,
        TokenType::Comment,
        TokenType::LeftBrace,
        TokenType::RightBrace,
        TokenType::LeftBracket,
        TokenType::RightBracket,
        TokenType::LeftParen,
        TokenType::RightParen,
        TokenType::Colon,
        TokenType::Semicolon,
        TokenType::Comma,
        TokenType::Equals,
        TokenType::Dot,
        TokenType::FnKeyword,
        TokenType::StructKeyword,
        TokenType::EnumKeyword,
        TokenType::LetKeyword,
        TokenType::ConstKeyword,
        TokenType::ReturnKeyword,
        TokenType::IfKeyword,
        TokenType::ElseKeyword,
        TokenType::Eof,
    ];
    for kind in kinds {
        assert_eq!(kind.name(), format!("{:?}", kind));
    }
}

#[test]
fn empty_source_is_an_empty_program() {
    assert_eq!(parse(""), Ok(Program { body: vec![] }));
    assert_eq!(parse("   \n\t "), Ok(Program { body: vec![] }));
}

#[test]
fn a_lexing_failure_ends_the_parse() {
    assert_eq!(
        parse("let x = #;"),
        Err(SyntaxError::Lexer(LexerError::UnexpectedCharacter('#')))
    );
}

#[test]
fn additive_chains_join_to_the_left() {
    assert_eq!(
        parse("1 - 2 + 3;"),
        Ok(Program {
            body: vec![binary(binary(num("1"), "-", num("2")), "+", num("3"))]
        })
    );
}

#[test]
fn multiplicative_binds_tighter_than_additive() {
    assert_eq!(
        parse("1 + 2 * 3 - 4 / 5 % 6;"),
        Ok(Program {
            body: vec![binary(
                binary(num("1"), "+", binary(num("2"), "*", num("3"))),
                "-",
                binary(binary(num("4"), "/", num("5")), "%", num("6")),
            )]
        })
    );
}

#[test]
fn assignment_joins_to_the_right() {
    assert_eq!(
        parse("a = b = 1;"),
        Ok(Program {
            body: vec![Stmt::AssignmentExpr {
                assignee: Box::new(ident("a")),
                value: Box::new(Stmt::AssignmentExpr {
                    assignee: Box::new(ident("b")),
                    value: Box::new(num("1")),
                }),
            }]
        })
    );
}

#[test]
fn chained_calls_wrap_the_earlier_call() {
    assert_eq!(
        parse("f(1)(2, x);"),
        Ok(Program {
            body: vec![Stmt::CallExpr {
                args: vec![num("2"), ident("x")],
                caller: Box::new(Stmt::CallExpr {
                    args: vec![num("1")],
                    caller: Box::new(ident("f")),
                }),
            }]
        })
    );
}

#[test]
fn dot_access_builds_a_member_expression() {
    assert_eq!(
        parse("a.b.c;"),
        Ok(Program {
            body: vec![Stmt::MemberExpr {
                object: Box::new(Stmt::MemberExpr {
                    object: Box::new(ident("a")),
                    property: Box::new(ident("b")),
                    computed: false,
                }),
                property: Box::new(ident("c")),
                computed: false,
            }]
        })
    );
}

#[test]
fn computed_access_takes_a_full_expression() {
    assert_eq!(
        parse("a[i + 1].b;"),
        Ok(Program {
            body: vec![Stmt::MemberExpr {
                object: Box::new(Stmt::MemberExpr {
                    object: Box::new(ident("a")),
                    property: Box::new(binary(ident("i"), "+", num("1"))),
                    computed: true,
                }),
                property: Box::new(ident("b")),
                computed: false,
            }]
        })
    );
}

#[test]
fn dot_without_a_name_fails() {
    assert_eq!(
        parse("a.5;"),
        Err(SyntaxError::Parse(
            ParseError::NoDotOperatorWithoutRhsIdentifier
        ))
    );
}

#[test]
fn computed_access_requires_the_closing_bracket() {
    assert_eq!(
        parse("a[1;"),
        Err(SyntaxError::Parse(ParseError::ExpectedCharacter(
            TokenType::RightBracket,
            TokenType::Semicolon,
            "Missing closing bracket in computed member expression".to_owned()
        )))
    );
}

#[test]
fn a_token_that_starts_no_expression_is_unsupported() {
    assert_eq!(
        parse(";"),
        Err(SyntaxError::Parse(ParseError::UnsupportedTokenType(
            TokenType::Semicolon
        )))
    );
    assert_eq!(
        parse("1 + ;"),
        Err(SyntaxError::Parse(ParseError::UnsupportedTokenType(
            TokenType::Semicolon
        )))
    );
    assert_eq!(
        parse("x = )"),
        Err(SyntaxError::Parse(ParseError::UnsupportedTokenType(
            TokenType::RightParen
        )))
    );
}

#[test]
fn an_operator_before_the_sentinel_is_unsupported() {
    assert_eq!(
        parse("1 +"),
        Err(SyntaxError::Parse(ParseError::UnsupportedTokenType(
            TokenType::Eof
        )))
    );
}

#[test]
fn a_stream_that_ends_too_early_fails() {
    assert_eq!(
        parse("let"),
        Err(SyntaxError::Parse(ParseError::ExpectedCharacter(
            TokenType::Identifier,
            TokenType::Eof,
            "Expected identifier name after let or const keyword".to_owned()
        )))
    );
    assert_eq!(
        parse("let x"),
        Err(SyntaxError::Parse(ParseError::ExpectedCharacter(
            TokenType::Equals,
            TokenType::Eof,
            "Expected equals token after identifier".to_owned()
        )))
    );
    assert_eq!(
        parse("fn f"),
        Err(SyntaxError::Parse(ParseError::ExpectedCharacter(
            TokenType::LeftParen,
            TokenType::Eof,
            "Expected open parenthesis".to_owned()
        )))
    );
}

#[test]
fn a_stream_without_the_sentinel_may_run_out() {
    let mut parser = Parser::new();
    assert_eq!(
        parser.parse_tokens(vec![
            token("let", TokenType::LetKeyword),
            token("x", TokenType::Identifier),
        ]),
        Err(ParseError::ExpectedToken)
    );
    assert_eq!(
        parser.parse_tokens(vec![token("let", TokenType::LetKeyword)]),
        Err(ParseError::ExpectedToken)
    );
    assert_eq!(
        parser.parse_tokens(vec![
            token("(", TokenType::LeftParen),
            token("1", TokenType::Number)
        ]),
        Err(ParseError::ExpectedToken)
    );
    assert_eq!(
        parser.parse_tokens(vec![
            token("f", TokenType::Identifier),
            token("(", TokenType::LeftParen)
        ]),
        Err(ParseError::ExpectedToken)
    );
}

#[test]
fn tokens_are_parsed_as_they_are_given() {
    let mut parser = Parser::new();
    assert_eq!(parser.parse_tokens(vec![]), Ok(Program { body: vec![] }));
    assert_eq!(
        parser.parse_tokens(vec![token("", TokenType::Eof)]),
        Ok(Program { body: vec![] })
    );
    assert_eq!(
        parser.parse_tokens(vec![
            token("1", TokenType::Number),
            token("+", TokenType::BinaryOperator),
            token("2", TokenType::Number),
            token(";", TokenType::Semicolon),
            token("", TokenType::Eof),
            token("ignored", TokenType::Identifier),
        ]),
        Ok(Program {
            body: vec![binary(num("1"), "+", num("2"))]
        })
    );
    assert_eq!(
        parser.parse_tokens(vec![
            token("x", TokenType::Identifier),
            token("", TokenType::Eof)
        ]),
        parse("x").map_err(|e| match e {
            SyntaxError::Parse(e) => e,
            SyntaxError::Lexer(_) => unreachable!(),
        })
    );
}

#[test]
fn a_parenthesis_must_be_closed() {
    assert_eq!(
        parse("(1"),
        Err(SyntaxError::Parse(ParseError::ExpectedCharacter(
            TokenType::RightParen,
            TokenType::Eof,
            "No right paren inside expression".to_owned()
        )))
    );
    assert_eq!(
        parse("(1 2"),
        Err(SyntaxError::Parse(ParseError::ExpectedCharacter(
            TokenType::RightParen,
            TokenType::Number,
            "No right paren inside expression".to_owned()
        )))
    );
    assert_eq!(
        parse("((1);"),
        Err(SyntaxError::Parse(ParseError::ExpectedCharacter(
            TokenType::RightParen,
            TokenType::Semicolon,
            "No right paren inside expression".to_owned()
        )))
    );
    assert_eq!(
        parse("((1));"),
        Ok(Program {
            body: vec![num("1")]
        })
    );
}

#[test]
fn a_value_needs_the_equals_sign() {
    assert_eq!(
        parse("let x 5;"),
        Err(SyntaxError::Parse(ParseError::ExpectedCharacter(
            TokenType::Equals,
            TokenType::Number,
            "Expected equals token after identifier".to_owned()
        )))
    );
    assert_eq!(
        parse("const x : 5;"),
        Err(SyntaxError::Parse(ParseError::ExpectedCharacter(
            TokenType::Equals,
            TokenType::Colon,
            "Expected equals token after identifier".to_owned()
        )))
    );
}

#[test]
fn a_function_needs_its_parentheses_and_its_opening_brace() {
    assert_eq!(
        parse("fn f x) { x }"),
        Err(SyntaxError::Parse(ParseError::ExpectedCharacter(
            TokenType::LeftParen,
            TokenType::Identifier,
            "Expected open parenthesis".to_owned()
        )))
    );
    assert_eq!(
        parse("fn f(x) x }"),
        Err(SyntaxError::Parse(ParseError::ExpectedCharacter(
            TokenType::LeftBrace,
            TokenType::Identifier,
            "Expected function body following declaration".to_owned()
        )))
    );
    assert_eq!(
        parse("fn f(x) = x;"),
        Err(SyntaxError::Parse(ParseError::ExpectedCharacter(
            TokenType::LeftBrace,
            TokenType::Equals,
            "Expected function body following declaration".to_owned()
        )))
    );
    assert_eq!(
        parse("fn f(x"),
        Err(SyntaxError::Parse(ParseError::ExpectedCharacter(
            TokenType::RightParen,
            TokenType::Eof,
            "Missing closing parenthesis in argument list".to_owned()
        )))
    );
}

#[test]
fn an_object_literal_needs_its_punctuation() {
    assert_eq!(
        parse("x = { a 1 };"),
        Err(SyntaxError::Parse(ParseError::ExpectedCharacter(
            TokenType::Colon,
            TokenType::Number,
            "Missing colon after identifier in object expression".to_owned()
        )))
    );
    assert_eq!(
        parse("x = { a = 1 };"),
        Err(SyntaxError::Parse(ParseError::ExpectedCharacter(
            TokenType::Colon,
            TokenType::Equals,
            "Missing colon after identifier in object expression".to_owned()
        )))
    );
    assert_eq!(
        parse("x = { a: 1 b: 2 };"),
        Err(SyntaxError::Parse(ParseError::ExpectedCharacter(
            TokenType::Comma,
            TokenType::Identifier,
            "Expected comma or closing bracket after property".to_owned()
        )))
    );
    assert_eq!(
        parse("x = { a: 1; b: 2 };"),
        Err(SyntaxError::Parse(ParseError::ExpectedCharacter(
            TokenType::Comma,
            TokenType::Semicolon,
            "Expected comma or closing bracket after property".to_owned()
        )))
    );
    assert_eq!(
        parse("x = { a: 1"),
        Err(SyntaxError::Parse(ParseError::ExpectedCharacter(
            TokenType::Comma,
            TokenType::Eof,
            "Expected comma or closing bracket after property".to_owned()
        )))
    );
    assert_eq!(
        parse("x = { a: 1,"),
        Err(SyntaxError::Parse(ParseError::ExpectedCharacter(
            TokenType::RightBrace,
            TokenType::Eof,
            "Object literal is missing a closing brace".to_owned()
        )))
    );
    assert_eq!(
        parse("x = {"),
        Err(SyntaxError::Parse(ParseError::ExpectedCharacter(
            TokenType::RightBrace,
            TokenType::Eof,
            "Object literal is missing a closing brace".to_owned()
        )))
    );
    assert_eq!(
        parse("x = { a"),
        Err(SyntaxError::Parse(ParseError::ExpectedCharacter(
            TokenType::Colon,
            TokenType::Eof,
            "Missing colon after identifier in object expression".to_owned()
        )))
    );
}

#[test]
fn let_without_a_value_is_allowed() {
    assert_eq!(
        parse("let foo;"),
        Ok(Program {
            body: vec![Stmt::VarDeclaration {
                constant: false,
                identifier: "foo".to_owned(),
                value: None,
            }]
        })
    );
}

#[test]
fn const_without_a_value_fails() {
    assert_eq!(
        parse("const foo;"),
        Err(SyntaxError::Parse(ParseError::ConstValueRequired))
    );
    assert!(parse("const foo = 6;").is_ok());
    assert_eq!(
        parse("const foo = 6;"),
        Ok(Program {
            body: vec![Stmt::VarDeclaration {
                constant: true,
                identifier: "foo".to_owned(),
                value: Some(Box::new(num("6"))),
            }]
        })
    );
}

#[test]
fn a_declaration_requires_a_name() {
    assert_eq!(
        parse("let 5 = 1;"),
        Err(SyntaxError::Parse(ParseError::ExpectedCharacter(
            TokenType::Identifier,
            TokenType::Number,
            "Expected identifier name after let or const keyword".to_owned()
        )))
    );
    assert_eq!(
        parse("fn (x) {}"),
        Err(SyntaxError::Parse(ParseError::ExpectedCharacter(
            TokenType::Identifier,
            TokenType::LeftParen,
            "Expected function name following fn keyword".to_owned()
        )))
    );
}

#[test]
fn a_parameter_must_be_a_bare_name() {
    assert_eq!(
        parse("fn f(x, 1 + 2) { x }"),
        Err(SyntaxError::Parse(
            ParseError::ExpectedParameterToBeString(binary(num("1"), "+", num("2")))
        ))
    );
}

#[test]
fn an_argument_list_requires_the_closing_parenthesis() {
    assert_eq!(
        parse("f(1;"),
        Err(SyntaxError::Parse(ParseError::ExpectedCharacter(
            TokenType::RightParen,
            TokenType::Semicolon,
            "Missing closing parenthesis in argument list".to_owned()
        )))
    );
}

#[test]
fn an_object_key_must_be_a_name() {
    assert_eq!(
        parse("x = { 1: 2 };"),
        Err(SyntaxError::Parse(ParseError::ExpectedCharacter(
            TokenType::Identifier,
            TokenType::Number,
            "Object literal identifier expected".to_owned()
        )))
    );
}

#[test]
fn object_literal_with_shorthand_and_nesting() {
    assert_eq!(
        parse("{ x: 100, y, baz: { z: true } }"),
        Ok(Program {
            body: vec![Stmt::ObjectLiteral(vec![
                Property {
                    key: "x".to_owned(),
                    value: Some(Box::new(num("100"))),
                },
                Property {
                    key: "y".to_owned(),
                    value: None,
                },
                Property {
                    key: "baz".to_owned(),
                    value: Some(Box::new(Stmt::ObjectLiteral(vec![Property {
                        key: "z".to_owned(),
                        value: Some(Box::new(ident("true"))),
                    }]))),
                },
            ])]
        })
    );
}

#[test]
fn empty_object_and_trailing_comma() {
    assert_eq!(
        parse("x = {};"),
        Ok(Program {
            body: vec![Stmt::AssignmentExpr {
                assignee: Box::new(ident("x")),
                value: Box::new(Stmt::ObjectLiteral(vec![])),
            }]
        })
    );
    assert_eq!(
        parse("{ a, };"),
        Ok(Program {
            body: vec![Stmt::ObjectLiteral(vec![Property {
                key: "a".to_owned(),
                value: None,
            }])]
        })
    );
}

#[test]
fn parenthesised_expression_is_its_inner_expression() {
    assert_eq!(
        parse("(1 + 2) * 3;"),
        Ok(Program {
            body: vec![binary(binary(num("1"), "+", num("2")), "*", num("3"))]
        })
    );
}

#[test]
fn function_with_the_last_expression_as_result() {
    assert_eq!(
        parse("fn add(x,y) { let result = x + y; result }"),
        Ok(Program {
            body: vec![Stmt::FnDeclaration {
                name: "add".to_owned(),
                parameters: vec!["x".to_owned(), "y".to_owned()],
                body: vec![
                    Stmt::VarDeclaration {
                        constant: false,
                        identifier: "result".to_owned(),
                        value: Some(Box::new(binary(ident("x"), "+", ident("y")))),
                    },
                    ident("result"),
                ],
                is_const: false,
            }]
        })
    );
}

#[test]
fn a_parser_can_be_used_again() {
    let mut parser = Parser::new();
    assert!(parser.produce_ast("const foo;".to_owned()).is_err());
    assert_eq!(
        parser.produce_ast("1;".to_owned()),
        Ok(Program {
            body: vec![num("1")]
        })
    );
    assert_eq!(
        parser.produce_ast("2;".to_owned()),
        Ok(Program {
            body: vec![num("2")]
        })
    );
}

#[test]
fn a_cloned_tree_equals_the_tree() {
    let program = parse("fn f(a) { let b = { a, c: a.d[0] }; f(b)(1) } // done").unwrap();
    assert_eq!(program.clone(), program);
    for stmt in &program.body {
        assert_eq!(stmt.clone(), *stmt);
    }
}
