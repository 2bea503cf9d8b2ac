use the_super_tiny_compiler::{
    LexError, Node, NodeType, ParseError, Token, TransformContext, TransformVisitor,
    TransformedNode, parser, tokenizer, transformer, traverser,
};

#[test]
fn traverser_drives_visitor_hooks() {
    let tokens = tokenizer("(add 1 2)").unwrap();
    let ast = parser(tokens).unwrap();

    let mut context = TransformContext {
        frames: vec![vec![]],
    };
    traverser(ast, &mut context, &TransformVisitor);

    // the walk leaves exactly the bottom frame, holding the one statement
    assert_eq!(context.frames.len(), 1);
    let body = context.frames.pop().unwrap();
    assert_eq!(
        body,
        vec![TransformedNode::ExpressionStatement {
            expression: Box::new(TransformedNode::CallExpression {
                callee: Box::new(TransformedNode::Identifier("add".to_string())),
                arguments: vec![
                    TransformedNode::NumberLiteral("1".to_string()),
                    TransformedNode::NumberLiteral("2".to_string()),
                ],
            }),
        }]
    );
}

#[test]
fn tokenizer_works() {
    // let input = "(add 2 (subtract 4 2))";
    let input = "(add 22 \"ff\" (subtract 4 2))";

    let tokens = vec![
        Token::ParenOpening,
        Token::Name("add".to_string()),
        Token::Number("22".to_string()),
        Token::String("ff".to_string()),
        Token::ParenOpening,
        Token::Name("subtract".to_string()),
        Token::Number("4".to_string()),
        Token::Number("2".to_string()),
        Token::ParenClosing,
        Token::ParenClosing,
    ];

    let ast = Node::Program {
        body: vec![Node::CallExpression {
            name: "add".to_string(),
            params: vec![
                Node::NumberLiteral("22".to_string()),
                Node::StringLiteral("ff".to_string()),
                Node::CallExpression {
                    name: "subtract".to_string(),
                    params: vec![
                        Node::NumberLiteral("4".to_string()),
                        Node::NumberLiteral("2".to_string()),
                    ],
                },
            ],
        }],
    };

    let new_ast = TransformedNode::Program {
        body: vec![TransformedNode::ExpressionStatement {
            expression: Box::new(TransformedNode::CallExpression {
                callee: Box::new(TransformedNode::Identifier("add".to_string())),
                arguments: vec![
                    TransformedNode::NumberLiteral("22".to_string()),
                    TransformedNode::StringLiteral("ff".to_string()),
                    TransformedNode::CallExpression {
                        callee: Box::new(TransformedNode::Identifier("subtract".to_string())),
                        arguments: vec![
                            TransformedNode::NumberLiteral("4".to_string()),
                            TransformedNode::NumberLiteral("2".to_string()),
                        ],
                    },
                ],
            }),
        }],
    };

    assert_eq!(
        tokenizer(input),
        Ok(tokens.clone()),
        "Tokenizer should turn `input` into `tokens`"
    );
    assert_eq!(
        parser(tokens.clone()),
        Ok(ast.clone()),
        "Parser should turn `tokens` into `ast`"
    );
    assert_eq!(
        transformer(ast.clone()),
        new_ast,
        "Transformer should turn `ast` into a `new_ast`"
    );
}

#[test]
fn scenario_add_numbers() {
    let input = "(add 2 3)";

    let tokens = vec![
        Token::ParenOpening,
        Token::Name("add".to_string()),
        Token::Number("2".to_string()),
        Token::Number("3".to_string()),
        Token::ParenClosing,
    ];
    assert_eq!(tokenizer(input), Ok(tokens.clone()));

    let ast = Node::Program {
        body: vec![Node::CallExpression {
            name: "add".to_string(),
            params: vec![
                Node::NumberLiteral("2".to_string()),
                Node::NumberLiteral("3".to_string()),
            ],
        }],
    };
    assert_eq!(parser(tokens), Ok(ast));
}

#[test]
fn scenario_nested_call() {
    let input = "(add 2 (subtract 4 2))";

    let tokens = tokenizer(input).unwrap();
    let ast = parser(tokens).unwrap();

    let expected = Node::Program {
        body: vec![Node::CallExpression {
            name: "add".to_string(),
            params: vec![
                Node::NumberLiteral("2".to_string()),
                Node::CallExpression {
                    name: "subtract".to_string(),
                    params: vec![
                        Node::NumberLiteral("4".to_string()),
                        Node::NumberLiteral("2".to_string()),
                    ],
                },
            ],
        }],
    };
    assert_eq!(ast, expected);
}

#[test]
fn scenario_string_argument() {
    let input = "(add 22 \"ff\")";

    let tokens = tokenizer(input).unwrap();
    assert!(tokens.contains(&Token::Number("22".to_string())));
    assert!(tokens.contains(&Token::String("ff".to_string())));

    let ast = parser(tokens).unwrap();
    let expected = Node::Program {
        body: vec![Node::CallExpression {
            name: "add".to_string(),
            params: vec![
                Node::NumberLiteral("22".to_string()),
                Node::StringLiteral("ff".to_string()),
            ],
        }],
    };
    assert_eq!(ast, expected);
}

#[test]
fn scenario_digit_after_paren() {
    let tokens = tokenizer("(2 3)").unwrap();
    assert_eq!(parser(tokens), Err(ParseError::ExpectedNameAfterParen));
}

#[test]
fn scenario_unrecognized_character() {
    assert_eq!(tokenizer("$"), Err(LexError::UnrecognizedCharacter('$')));
    assert_eq!(
        tokenizer("(add $ 2)"),
        Err(LexError::UnrecognizedCharacter('$'))
    );
}

#[test]
fn unexpected_end_of_input() {
    let tokens = tokenizer("(").unwrap();
    assert_eq!(parser(tokens), Err(ParseError::UnexpectedEndOfInput));
}

#[test]
fn unexpected_token_closing_paren() {
    let tokens = tokenizer(")").unwrap();
    assert_eq!(
        parser(tokens),
        Err(ParseError::UnexpectedToken(Token::ParenClosing))
    );
}

#[test]
fn unexpected_token_bare_name() {
    let tokens = tokenizer("add").unwrap();
    assert_eq!(
        parser(tokens),
        Err(ParseError::UnexpectedToken(Token::Name("add".to_string())))
    );
}

#[test]
fn paren_not_followed_by_name() {
    let tokens = tokenizer("(\"ff\")").unwrap();
    assert_eq!(parser(tokens), Err(ParseError::ExpectedNameAfterParen));
}

#[test]
fn unterminated_string_is_accepted() {
    assert_eq!(
        tokenizer("\"ab"),
        Ok(vec![Token::String("ab".to_string())])
    );
    assert_eq!(tokenizer("\"\""), Ok(vec![Token::String("".to_string())]));
}

#[test]
fn unterminated_call_is_accepted() {
    let tokens = tokenizer("(add 2").unwrap();
    let ast = parser(tokens).unwrap();
    let expected = Node::Program {
        body: vec![Node::CallExpression {
            name: "add".to_string(),
            params: vec![Node::NumberLiteral("2".to_string())],
        }],
    };
    assert_eq!(ast, expected);
}

#[test]
fn empty_and_whitespace_input() {
    assert_eq!(tokenizer(""), Ok(vec![]));
    assert_eq!(tokenizer("  \t\n  "), Ok(vec![]));
    assert_eq!(parser(vec![]), Ok(Node::Program { body: vec![] }));
    assert_eq!(
        transformer(Node::Program { body: vec![] }),
        TransformedNode::Program { body: vec![] }
    );
}

#[test]
fn plain_characters_always_tokenize() {
    let inputs = [
        "abc def 123",
        "((((",
        "))))",
        "\"any $ thing # inside ~ a string\"",
        "0 1 2 3 4 5 6 7 8 9",
        "(a(b(c)d)e)",
    ];
    for input in inputs {
        assert!(tokenizer(input).is_ok());
    }
}

#[test]
fn foreign_characters_fail_tokenizing() {
    assert_eq!(tokenizer("ABC"), Err(LexError::UnrecognizedCharacter('A')));
    assert_eq!(
        tokenizer("(add 1.5 2)"),
        Err(LexError::UnrecognizedCharacter('.'))
    );
    assert_eq!(
        tokenizer("(add -1 2)"),
        Err(LexError::UnrecognizedCharacter('-'))
    );
}

fn count_nodes(node: &Node) -> usize {
    match node {
        Node::Program { body } => body.iter().map(count_nodes).sum(),
        Node::CallExpression { params, .. } => {
            1 + params.iter().map(count_nodes).sum::<usize>()
        }
        Node::StringLiteral(_) => 1,
        Node::NumberLiteral(_) => 1,
    }
}

#[test]
fn round_trip_shape_counts_forms() {
    // five forms: two calls and three number literals
    let input = "(add 2 (subtract 4 2))";
    let tokens = tokenizer(input).unwrap();
    let starts = tokens
        .iter()
        .filter(|t| {
            matches!(
                t,
                Token::Number(_) | Token::String(_) | Token::ParenOpening
            )
        })
        .count();
    let ast = parser(tokens).unwrap();
    assert_eq!(count_nodes(&ast), starts);
    assert_eq!(count_nodes(&ast), 5);

    // three top-level forms, no call
    let tokens = tokenizer("1 2 \"x\"").unwrap();
    let ast = parser(tokens).unwrap();
    assert_eq!(count_nodes(&ast), 3);
}

fn source_literal_texts(node: &Node, out: &mut Vec<String>) {
    match node {
        Node::Program { body } => {
            for n in body {
                source_literal_texts(n, out);
            }
        }
        Node::CallExpression { params, .. } => {
            for n in params {
                source_literal_texts(n, out);
            }
        }
        Node::StringLiteral(s) => out.push(s.clone()),
        Node::NumberLiteral(s) => out.push(s.clone()),
    }
}

fn target_literal_texts(node: &TransformedNode, out: &mut Vec<String>) {
    match node {
        TransformedNode::Program { body } => {
            for n in body {
                target_literal_texts(n, out);
            }
        }
        TransformedNode::ExpressionStatement { expression } => {
            target_literal_texts(expression, out);
        }
        TransformedNode::CallExpression { callee, arguments } => {
            target_literal_texts(callee, out);
            for n in arguments {
                target_literal_texts(n, out);
            }
        }
        TransformedNode::Identifier(_) => {}
        TransformedNode::StringLiteral(s) => out.push(s.clone()),
        TransformedNode::NumberLiteral(s) => out.push(s.clone()),
    }
}

#[test]
fn literals_keep_their_text() {
    let tokens = tokenizer("(concat \"a\" (add 11 22) 33)").unwrap();
    let ast = parser(tokens).unwrap();
    let mut before: Vec<String> = Vec::new();
    source_literal_texts(&ast, &mut before);

    let new_ast = transformer(ast);
    let mut after: Vec<String> = Vec::new();
    target_literal_texts(&new_ast, &mut after);

    assert_eq!(before, after);
    assert_eq!(
        before,
        vec![
            "a".to_string(),
            "11".to_string(),
            "22".to_string(),
            "33".to_string()
        ]
    );
}

#[test]
fn top_level_call_is_wrapped_nested_call_is_not() {
    let tokens = tokenizer("(add 1 (sub 2 3)) 7").unwrap();
    let ast = parser(tokens).unwrap();
    let new_ast = transformer(ast);

    let body = match new_ast {
        TransformedNode::Program { body } => body,
        other => panic!("expected a program, got {:?}", other),
    };
    assert_eq!(body.len(), 2);

    // the top-level call is wrapped in an expression statement
    let expression = match &body[0] {
        TransformedNode::ExpressionStatement { expression } => expression,
        other => panic!("expected an expression statement, got {:?}", other),
    };
    let arguments = match expression.as_ref() {
        TransformedNode::CallExpression { callee, arguments } => {
            assert_eq!(
                callee.as_ref(),
                &TransformedNode::Identifier("add".to_string())
            );
            arguments
        }
        other => panic!("expected a call expression, got {:?}", other),
    };

    // the nested call stays a bare call expression among the arguments
    assert_eq!(arguments.len(), 2);
    assert!(matches!(
        &arguments[1],
        TransformedNode::CallExpression { .. }
    ));

    // a top-level literal is not wrapped
    assert_eq!(body[1], TransformedNode::NumberLiteral("7".to_string()));
}

#[test]
fn node_kinds() {
    assert_eq!(
        Node::Program { body: vec![] }.get_type(),
        NodeType::Program
    );
    assert_eq!(
        Node::CallExpression {
            name: "f".to_string(),
            params: vec![]
        }
        .get_type(),
        NodeType::CallExpression
    );
    assert_eq!(
        Node::StringLiteral("s".to_string()).get_type(),
        NodeType::StringLiteral
    );
    assert_eq!(
        Node::NumberLiteral("1".to_string()).get_type(),
        NodeType::NumberLiteral
    );
}

#[test]
fn empty_params_and_deep_nesting() {
    let tokens = tokenizer("(f)").unwrap();
    let ast = parser(tokens).unwrap();
    assert_eq!(
        ast,
        Node::Program {
            body: vec![Node::CallExpression {
                name: "f".to_string(),
                params: vec![]
            }]
        }
    );

    let tokens = tokenizer("(a (b (c (d 1))))").unwrap();
    let ast = parser(tokens).unwrap();
    assert_eq!(count_nodes(&ast), 5);
    let new_ast = transformer(ast);
    let mut texts: Vec<String> = Vec::new();
    target_literal_texts(&new_ast, &mut texts);
    assert_eq!(texts, vec!["1".to_string()]);
}
