use toylang::ast::{Expression, Program, Statement};
use toylang::error::{ParseError, ParseErrorKind};
use toylang::lexicon::tokenize;
use toylang::prassel::{binary_precedence, Parser};
use toylang::Token;

fn number(value: i32) -> Expression {
    Expression::Number(value)
}

fn variable(name: &str) -> Expression {
    Expression::Identifier(name.to_string())
}

fn binary(operator: &str, left: Expression, right: Expression) -> Expression {
    Expression::BinaryOp {
        operator: operator.to_string(),
        left: Box::new(left),
        right: Box::new(right),
    }
}

fn definition(name: &str, value: Expression) -> Statement {
    Statement::Definition { identifier: name.to_string(), value }
}

fn conditional(condition: Expression, block: Vec<Statement>) -> Statement {
    Statement::If { condition, block: Box::new(block) }
}

fn counting(index: &str, expression: Expression, block: Vec<Statement>) -> Statement {
    Statement::For { index: index.to_string(), expression, block: Box::new(block) }
}

fn parse(source: &str) -> Result<Program, ParseError> {
    let tokens = tokenize(&source.to_string()).unwrap();
    Parser::new(tokens).parse_program()
}

fn statements(source: &str) -> Vec<Statement> {
    parse(source).unwrap().statements
}

/// The value of the one definition that `source` holds.
fn value(source: &str) -> Expression {
    let mut all = statements(source);
    assert_eq!(all.len(), 1);
    match all.remove(0) {
        Statement::Definition { value, .. } => value,
        other => panic!("{:?}", other),
    }
}

fn failure(source: &str) -> ParseError {
    parse(source).unwrap_err()
}

fn fails(source: &str, kind: ParseErrorKind, index: usize) {
    assert_eq!(parse(source), Err(ParseError { kind, index }), "{}", source);
}

fn fails_on(tokens: Vec<Token>, kind: ParseErrorKind, index: usize) {
    assert_eq!(Parser::new(tokens).parse_program(), Err(ParseError { kind, index }));
}

#[test]
fn prassel_test() {
    let program = "a=2;b=2;c=a+b+2+c+2;".to_string();
    let tokens = tokenize(&program).unwrap();
    let mut parser = Parser::new(tokens);
    let ast = parser.parse_program().unwrap();
    println!("AST:\n{:#?}", ast);
    assert_eq!(
        ast.statements,
        vec![
            definition("a", number(2)),
            definition("b", number(2)),
            definition(
                "c",
                binary(
                    "+",
                    binary(
                        "+",
                        binary("+", binary("+", variable("a"), variable("b")), number(2)),
                        variable("c")
                    ),
                    number(2)
                )
            ),
        ]
    );
}

#[test]
fn sum_of_two_numbers() {
    assert_eq!(
        parse("a=1+1;"),
        Ok(Program { statements: vec![definition("a", binary("+", number(1), number(1)))] })
    );
}

#[test]
fn sums_group_from_the_left() {
    let expected = binary("+", binary("+", variable("a"), variable("b")), number(2));
    assert_eq!(statements("c=a+b+2;"), vec![definition("c", expected)]);
    let right_nested = binary("+", variable("a"), binary("+", variable("b"), number(2)));
    assert_ne!(statements("c=a+b+2;"), vec![definition("c", right_nested)]);
}

#[test]
fn every_tier_groups_from_the_left() {
    assert_eq!(value("x=a-b-c;"), binary("-", binary("-", variable("a"), variable("b")), variable("c")));
    assert_eq!(value("x=a-b+c;"), binary("+", binary("-", variable("a"), variable("b")), variable("c")));
    assert_eq!(value("x=a/b/c;"), binary("/", binary("/", variable("a"), variable("b")), variable("c")));
    assert_eq!(value("x=a/b*c;"), binary("*", binary("/", variable("a"), variable("b")), variable("c")));
    assert_eq!(value("x=a<b<c;"), binary("<", binary("<", variable("a"), variable("b")), variable("c")));
    assert_eq!(value("x=a==b!=c;"), binary("!=", binary("==", variable("a"), variable("b")), variable("c")));
}

#[test]
fn higher_tiers_bind_tighter() {
    assert_eq!(value("x=a+b*c;"), binary("+", variable("a"), binary("*", variable("b"), variable("c"))));
    assert_eq!(value("x=a*b+c;"), binary("+", binary("*", variable("a"), variable("b")), variable("c")));
    assert_eq!(value("x=a<b+c;"), binary("<", variable("a"), binary("+", variable("b"), variable("c"))));
    assert_eq!(value("x=a+b<c;"), binary("<", binary("+", variable("a"), variable("b")), variable("c")));
    assert_eq!(value("x=a==b*c;"), binary("==", variable("a"), binary("*", variable("b"), variable("c"))));
    assert_eq!(
        value("x=a+b*c-d/e;"),
        binary(
            "-",
            binary("+", variable("a"), binary("*", variable("b"), variable("c"))),
            binary("/", variable("d"), variable("e"))
        )
    );
    assert_eq!(
        value("x=a*b+c*d==e-f/g;"),
        binary(
            "==",
            binary(
                "+",
                binary("*", variable("a"), variable("b")),
                binary("*", variable("c"), variable("d"))
            ),
            binary("-", variable("e"), binary("/", variable("f"), variable("g")))
        )
    );
}

#[test]
fn parentheses_group() {
    assert_eq!(value("x=(a);"), variable("a"));
    assert_eq!(value("x=((1));"), number(1));
    assert_eq!(value("x=a+(b+2);"), binary("+", variable("a"), binary("+", variable("b"), number(2))));
    assert_eq!(value("x=(a+b)*c;"), binary("*", binary("+", variable("a"), variable("b")), variable("c")));
    assert_eq!(value("x=a*(b+c);"), binary("*", variable("a"), binary("+", variable("b"), variable("c"))));
    assert_eq!(
        value("x=(a<b)==(c>d);"),
        binary(
            "==",
            binary("<", variable("a"), variable("b")),
            binary(">", variable("c"), variable("d"))
        )
    );
}

#[test]
fn precedence_table() {
    for text in ["*", "/"] {
        assert_eq!(binary_precedence(&text.to_string()), 3);
    }
    for text in ["+", "-"] {
        assert_eq!(binary_precedence(&text.to_string()), 2);
    }
    for text in ["==", "!=", "<", ">", "<=", ">="] {
        assert_eq!(binary_precedence(&text.to_string()), 1);
    }
    for text in ["=", "", "%", "**", "=<", "a", "+ "] {
        assert_eq!(binary_precedence(&text.to_string()), 0);
    }
}

#[test]
fn reserved_word_as_a_name() {
    assert_eq!(statements("a=if;"), vec![definition("a", variable("if"))]);
    assert_eq!(statements("for=return+1;"), vec![definition("for", binary("+", variable("return"), number(1)))]);
}

#[test]
fn empty_program() {
    assert_eq!(parse(""), Ok(Program { statements: vec![] }));
}

#[test]
fn return_statement() {
    assert_eq!(statements("return(an);"), vec![Statement::Return(variable("an"))]);
    assert_eq!(
        statements("return(a+1);"),
        vec![Statement::Return(binary("+", variable("a"), number(1)))]
    );
}

#[test]
fn conditional_statement() {
    assert_eq!(
        statements("if(n==0){return(0);};"),
        vec![conditional(binary("==", variable("n"), number(0)), vec![Statement::Return(number(0))])]
    );
    assert_eq!(statements("if(a){};"), vec![conditional(variable("a"), vec![])]);
}

#[test]
fn loop_statement() {
    assert_eq!(
        statements("for(i,n){an=a1+a0;a0=a1;a1=an;};"),
        vec![counting(
            "i",
            variable("n"),
            vec![
                definition("an", binary("+", variable("a1"), variable("a0"))),
                definition("a0", variable("a1")),
                definition("a1", variable("an")),
            ]
        )]
    );
    assert_eq!(
        statements("for(k,n*2+1){};"),
        vec![counting("k", binary("+", binary("*", variable("n"), number(2)), number(1)), vec![])]
    );
}

#[test]
fn nested_blocks() {
    assert_eq!(
        statements("for(i,3){if(i<2){x=i;};y=1;};z=2;"),
        vec![
            counting(
                "i",
                number(3),
                vec![
                    conditional(
                        binary("<", variable("i"), number(2)),
                        vec![definition("x", variable("i"))]
                    ),
                    definition("y", number(1)),
                ]
            ),
            definition("z", number(2)),
        ]
    );
}

#[test]
fn parser_reads_to_the_end() {
    let tokens = tokenize(&"a=1;b=2;".to_string()).unwrap();
    let mut parser = Parser::new(tokens);
    assert_eq!(parser.parse_program().unwrap().statements.len(), 2);
    // Nothing is left: a second reading finds the empty program.
    assert_eq!(parser.parse_program(), Ok(Program { statements: vec![] }));
}

#[test]
fn missing_value_is_an_error() {
    let error = failure("a=;");
    assert_eq!(error, ParseError { kind: ParseErrorKind::ExpectedPrimary, index: 2 });
    assert_eq!(error.message(), "expected primary expression");
}

#[test]
fn missing_primary() {
    fails("a=", ParseErrorKind::ExpectedPrimary, 2);
    fails("a=1+;", ParseErrorKind::ExpectedPrimary, 4);
    fails("a=1+", ParseErrorKind::ExpectedPrimary, 4);
    fails("a=*2;", ParseErrorKind::ExpectedPrimary, 2);
    fails("a=-5;", ParseErrorKind::ExpectedPrimary, 2);
    fails("a=();", ParseErrorKind::ExpectedPrimary, 3);
    fails("a=1==;", ParseErrorKind::ExpectedPrimary, 4);
    fails("a=b,c;", ParseErrorKind::ExpectedTerminator, 3);
    fails("return();", ParseErrorKind::ExpectedPrimary, 2);
    fails("if(){};", ParseErrorKind::ExpectedPrimary, 2);
    fails("for(i,){};", ParseErrorKind::ExpectedPrimary, 4);
    fails("a={;", ParseErrorKind::ExpectedPrimary, 2);
}

#[test]
fn missing_assignment() {
    let error = failure("a;");
    assert_eq!(error, ParseError { kind: ParseErrorKind::ExpectedAssign, index: 1 });
    assert_eq!(error.message(), "expected '='");
    fails("a", ParseErrorKind::ExpectedAssign, 1);
    fails("a 1;", ParseErrorKind::ExpectedAssign, 1);
    fails("a==1;", ParseErrorKind::ExpectedAssign, 1);
    fails("a+1;", ParseErrorKind::ExpectedAssign, 1);
    fails("b=1;a", ParseErrorKind::ExpectedAssign, 5);
    fails("if (a){};", ParseErrorKind::ExpectedAssign, 1);
}

#[test]
fn missing_terminator() {
    let error = failure("a=1");
    assert_eq!(error, ParseError { kind: ParseErrorKind::ExpectedTerminator, index: 3 });
    assert_eq!(error.message(), "expected terminator");
    fails("a=1 b=2;", ParseErrorKind::ExpectedTerminator, 3);
    fails("a=b=c;", ParseErrorKind::ExpectedTerminator, 3);
    fails("a=1)", ParseErrorKind::ExpectedTerminator, 3);
    fails("return(1)", ParseErrorKind::ExpectedTerminator, 4);
    fails("return(1)a=2;", ParseErrorKind::ExpectedTerminator, 4);
    fails("if(a){}", ParseErrorKind::ExpectedTerminator, 6);
    fails("if(a){b=1;}c=2;", ParseErrorKind::ExpectedTerminator, 10);
    fails("for(i,n){}return(i);", ParseErrorKind::ExpectedTerminator, 8);
    fails("if(a){b=1};", ParseErrorKind::ExpectedTerminator, 8);
    fails("for(i,n){an=a1+a0;a0=a1;a1=an};", ParseErrorKind::ExpectedTerminator, 20);
}

#[test]
fn missing_statement() {
    let error = failure(";");
    assert_eq!(error, ParseError { kind: ParseErrorKind::ExpectedStatement, index: 0 });
    assert_eq!(error.message(), "expected statement");
    fails("1=2;", ParseErrorKind::ExpectedStatement, 0);
    fails("a=1;;", ParseErrorKind::ExpectedStatement, 4);
    fails("a=1;}", ParseErrorKind::ExpectedStatement, 4);
    fails("}", ParseErrorKind::ExpectedStatement, 0);
    fails("a=1;}b=2;", ParseErrorKind::ExpectedStatement, 4);
    fails("(a)=1;", ParseErrorKind::ExpectedStatement, 0);
    fails("if(a){;};", ParseErrorKind::ExpectedStatement, 5);
    fails("=1;", ParseErrorKind::ExpectedStatement, 0);
}

#[test]
fn missing_parentheses() {
    let error = failure("return(1;");
    assert_eq!(error, ParseError { kind: ParseErrorKind::ExpectedRightPar, index: 3 });
    assert_eq!(error.message(), "expected ')'");
    fails("return(1", ParseErrorKind::ExpectedRightPar, 3);
    fails("a=(1;", ParseErrorKind::ExpectedRightPar, 4);
    fails("a=(1+2", ParseErrorKind::ExpectedRightPar, 6);
    fails("a=((1);", ParseErrorKind::ExpectedRightPar, 6);
    fails("if(a{};", ParseErrorKind::ExpectedRightPar, 3);
    fails("for(i,n{};", ParseErrorKind::ExpectedRightPar, 5);
    fails("if(a=1){};", ParseErrorKind::ExpectedRightPar, 3);
    let tokens = vec![Token::Keyword("if".to_string()), Token::Identifier("a".to_string())];
    fails_on(tokens, ParseErrorKind::ExpectedLeftPar, 1);
    let tokens = vec![Token::Keyword("return".to_string())];
    fails_on(tokens, ParseErrorKind::ExpectedLeftPar, 1);
    let error = Parser::new(vec![Token::Keyword("for".to_string()), Token::Terminator])
        .parse_program()
        .unwrap_err();
    assert_eq!(error.message(), "expected '('");
}

#[test]
fn missing_braces() {
    let error = failure("if(a)b=1;");
    assert_eq!(error, ParseError { kind: ParseErrorKind::ExpectedLeftBrace, index: 4 });
    assert_eq!(error.message(), "expected '{'");
    fails("if(a)", ParseErrorKind::ExpectedLeftBrace, 4);
    fails("for(i,n);", ParseErrorKind::ExpectedLeftBrace, 6);
    let error = failure("if(a){b=1;");
    assert_eq!(error, ParseError { kind: ParseErrorKind::ExpectedRightBrace, index: 9 });
    assert_eq!(error.message(), "expected '}'");
    fails("if(a){", ParseErrorKind::ExpectedRightBrace, 5);
    fails("for(i,n){if(i){};", ParseErrorKind::ExpectedRightBrace, 14);
}

#[test]
fn malformed_loop_head() {
    let error = failure("for(1,n){};");
    assert_eq!(error, ParseError { kind: ParseErrorKind::ExpectedIdentifier, index: 2 });
    assert_eq!(error.message(), "expected identifier");
    fails("for(", ParseErrorKind::ExpectedIdentifier, 2);
    fails("for(,n){};", ParseErrorKind::ExpectedIdentifier, 2);
    let error = failure("for(i n){};");
    assert_eq!(error, ParseError { kind: ParseErrorKind::ExpectedComma, index: 3 });
    assert_eq!(error.message(), "expected ','");
    fails("for(i){};", ParseErrorKind::ExpectedComma, 3);
    fails("for(i", ParseErrorKind::ExpectedComma, 3);
    fails("for(i+1,n){};", ParseErrorKind::ExpectedComma, 3);
}

#[test]
fn unknown_keyword() {
    let tokens = vec![
        Token::Keyword("while".to_string()),
        Token::LeftPar,
        Token::Identifier("a".to_string()),
        Token::RightPar,
        Token::Terminator,
    ];
    let error = Parser::new(tokens).parse_program().unwrap_err();
    assert_eq!(error, ParseError { kind: ParseErrorKind::UnknownKeyword, index: 0 });
    assert_eq!(error.message(), "unknown keyword");
    // The parenthesis is asked for first.
    let tokens = vec![Token::Keyword("while".to_string()), Token::Identifier("a".to_string())];
    fails_on(tokens, ParseErrorKind::ExpectedLeftPar, 1);
    let tokens = vec![
        Token::Identifier("a".to_string()),
        Token::Operator("=".to_string()),
        Token::Number(1),
        Token::Terminator,
        Token::Keyword("If".to_string()),
        Token::LeftPar,
    ];
    fails_on(tokens, ParseErrorKind::UnknownKeyword, 4);
}

#[test]
fn first_error_wins() {
    fails("a=;b", ParseErrorKind::ExpectedPrimary, 2);
    fails("if(a){b=;};c", ParseErrorKind::ExpectedPrimary, 7);
    fails("a=1;b=2;c=", ParseErrorKind::ExpectedPrimary, 10);
}

#[test]
fn tokens_built_by_hand() {
    let tokens = vec![
        Token::Identifier("a".to_string()),
        Token::Operator("=".to_string()),
        Token::Identifier("b".to_string()),
        Token::Operator("<=".to_string()),
        Token::Number(-3),
        Token::Operator(">=".to_string()),
        Token::Number(4),
        Token::Terminator,
    ];
    let program = Parser::new(tokens).parse_program().unwrap();
    assert_eq!(
        program.statements,
        vec![definition(
            "a",
            binary(">=", binary("<=", variable("b"), number(-3)), number(4))
        )]
    );
    // A text that is no binary operator ends the expression.
    let tokens = vec![
        Token::Identifier("a".to_string()),
        Token::Operator("=".to_string()),
        Token::Number(1),
        Token::Operator("%".to_string()),
        Token::Number(2),
        Token::Terminator,
    ];
    fails_on(tokens, ParseErrorKind::ExpectedTerminator, 3);
    // A keyword in the place of a name.
    let tokens = vec![
        Token::Identifier("a".to_string()),
        Token::Operator("=".to_string()),
        Token::Keyword("if".to_string()),
        Token::Terminator,
    ];
    fails_on(tokens, ParseErrorKind::ExpectedPrimary, 2);
}

#[test]
fn deep_nesting() {
    let mut source = String::from("x=");
    for _ in 0..200 {
        source.push('(');
    }
    source.push('1');
    for _ in 0..200 {
        source.push(')');
    }
    source.push(';');
    assert_eq!(statements(&source), vec![definition("x", number(1))]);
}

#[test]
fn trees_compare_and_copy() {
    let tree = binary("+", variable("a"), binary("*", number(2), variable("b")));
    assert_eq!(tree.clone(), tree);
    assert_ne!(tree, binary("+", variable("a"), binary("*", number(2), variable("c"))));
    let statement = counting("i", tree.clone(), vec![conditional(variable("i"), vec![definition("x", tree)])]);
    assert_eq!(statement.clone(), statement);
    let program = Program { statements: vec![statement.clone(), Statement::Return(number(1))] };
    assert_eq!(program.clone(), program);
    assert_ne!(program, Program { statements: vec![statement] });
}
