use toylang::error::{LexError, LexErrorKind};
use toylang::lexicon::{alphanumeric, tokenize};
use toylang::Token;

fn identifier(name: &str) -> Token {
    Token::Identifier(name.to_string())
}

fn operator(text: &str) -> Token {
    Token::Operator(text.to_string())
}

fn keyword(text: &str) -> Token {
    Token::Keyword(text.to_string())
}

fn lex(source: &str) -> Result<Vec<Token>, LexError> {
    tokenize(&source.to_string())
}

#[test]
fn test_tokenize() {
    let string = "n=10;
a0=0;
a1=1;
an=0;
if(n==0){return(0);};
if(n==1){return(1);};
for(i,n){an=a1+a0;a0=a1;a1=an};
return(an);"
        .to_string();
    println!("{:?}", tokenize(&string));
    let tokens = tokenize(&string).unwrap();
    assert_eq!(tokens.len(), 71);
    assert_eq!(tokens[0], identifier("n"));
    assert_eq!(tokens[16], keyword("if"));
    assert_eq!(tokens[44], keyword("for"));
    assert_eq!(tokens[63], identifier("an"));
    assert_eq!(tokens[64], Token::RightBrace);
    assert_eq!(tokens[70], Token::Terminator);
}

#[test]
fn definition_of_a_number() {
    assert_eq!(
        lex("n=10;"),
        Ok(vec![identifier("n"), operator("="), Token::Number(10), Token::Terminator])
    );
}

#[test]
fn conditional_with_comparison() {
    assert_eq!(
        lex("if(n==0){return(0);}"),
        Ok(vec![
            keyword("if"),
            Token::LeftPar,
            identifier("n"),
            operator("=="),
            Token::Number(0),
            Token::RightPar,
            Token::LeftBrace,
            keyword("return"),
            Token::LeftPar,
            Token::Number(0),
            Token::RightPar,
            Token::Terminator,
            Token::RightBrace,
        ])
    );
}

#[test]
fn empty_source_has_no_tokens() {
    assert_eq!(lex(""), Ok(vec![]));
    assert_eq!(lex(" \t\n\r\x0c"), Ok(vec![]));
}

#[test]
fn punctuation() {
    assert_eq!(
        lex("(){},;"),
        Ok(vec![
            Token::LeftPar,
            Token::RightPar,
            Token::LeftBrace,
            Token::RightBrace,
            Token::Comma,
            Token::Terminator,
        ])
    );
}

#[test]
fn operators_of_one_character() {
    assert_eq!(
        lex("+-*/<>"),
        Ok(vec![
            operator("+"),
            operator("-"),
            operator("*"),
            operator("/"),
            operator("<"),
            operator(">"),
        ])
    );
}

#[test]
fn equals_looks_one_character_ahead() {
    assert_eq!(lex("="), Ok(vec![operator("=")]));
    assert_eq!(lex("=="), Ok(vec![operator("==")]));
    assert_eq!(lex("==="), Ok(vec![operator("=="), operator("=")]));
    assert_eq!(lex("===="), Ok(vec![operator("=="), operator("==")]));
    assert_eq!(lex("= ="), Ok(vec![operator("="), operator("=")]));
    assert_eq!(lex("a=b"), Ok(vec![identifier("a"), operator("="), identifier("b")]));
    assert_eq!(lex("a==b"), Ok(vec![identifier("a"), operator("=="), identifier("b")]));
}

#[test]
fn not_equals() {
    assert_eq!(lex("a!=b"), Ok(vec![identifier("a"), operator("!="), identifier("b")]));
    assert_eq!(lex("!=="), Ok(vec![operator("!="), operator("=")]));
}

#[test]
fn less_and_greater_never_take_an_equals_sign() {
    assert_eq!(lex("a<=b"), Ok(vec![identifier("a"), operator("<"), operator("="), identifier("b")]));
    assert_eq!(lex("a>=b"), Ok(vec![identifier("a"), operator(">"), operator("="), identifier("b")]));
    assert_eq!(lex("<=="), Ok(vec![operator("<"), operator("==")]));
}

#[test]
fn bare_exclamation_mark_is_an_error() {
    assert_eq!(lex("!"), Err(LexError { kind: LexErrorKind::UndefinedToken, offset: 0 }));
    assert_eq!(lex("a=!b;"), Err(LexError { kind: LexErrorKind::UndefinedToken, offset: 2 }));
    assert_eq!(lex("a ! =b"), Err(LexError { kind: LexErrorKind::UndefinedToken, offset: 2 }));
    let error = lex("a=1;\n!").unwrap_err();
    assert_eq!(error.offset, 5);
    assert_eq!(error.message(), "undefined token");
}

#[test]
fn unknown_character_is_an_error() {
    assert_eq!(lex("a=1#"), Err(LexError { kind: LexErrorKind::UnrecognizedCharacter, offset: 3 }));
    assert_eq!(lex("[a]"), Err(LexError { kind: LexErrorKind::UnrecognizedCharacter, offset: 0 }));
    assert_eq!(lex("a_b"), Err(LexError { kind: LexErrorKind::UnrecognizedCharacter, offset: 1 }));
    assert_eq!(lex("a=\"x\";"), Err(LexError { kind: LexErrorKind::UnrecognizedCharacter, offset: 2 }));
    let error = lex("x=1;y=2$").unwrap_err();
    assert_eq!(error.message(), "unrecognized character");
}

#[test]
fn offsets_count_characters() {
    // Two characters of two and three bytes stand before the failure.
    assert_eq!(lex("é€!"), Err(LexError { kind: LexErrorKind::UnrecognizedCharacter, offset: 1 }));
    assert_eq!(lex("éé!"), Err(LexError { kind: LexErrorKind::UndefinedToken, offset: 2 }));
}

#[test]
fn first_failure_wins() {
    assert_eq!(lex("a#!"), Err(LexError { kind: LexErrorKind::UnrecognizedCharacter, offset: 1 }));
    assert_eq!(lex("a!#"), Err(LexError { kind: LexErrorKind::UndefinedToken, offset: 1 }));
}

#[test]
fn reserved_word_before_parenthesis_is_a_keyword() {
    assert_eq!(lex("if("), Ok(vec![keyword("if"), Token::LeftPar]));
    assert_eq!(lex("for("), Ok(vec![keyword("for"), Token::LeftPar]));
    assert_eq!(lex("return("), Ok(vec![keyword("return"), Token::LeftPar]));
}

#[test]
fn reserved_word_elsewhere_is_a_name() {
    assert_eq!(lex("if"), Ok(vec![identifier("if")]));
    assert_eq!(lex("if ("), Ok(vec![identifier("if"), Token::LeftPar]));
    assert_eq!(lex("if\n("), Ok(vec![identifier("if"), Token::LeftPar]));
    assert_eq!(lex("for=1;"), Ok(vec![identifier("for"), operator("="), Token::Number(1), Token::Terminator]));
    assert_eq!(lex("return;"), Ok(vec![identifier("return"), Token::Terminator]));
}

#[test]
fn other_words_before_parenthesis_are_names() {
    assert_eq!(lex("iffy("), Ok(vec![identifier("iffy"), Token::LeftPar]));
    assert_eq!(lex("If("), Ok(vec![identifier("If"), Token::LeftPar]));
    assert_eq!(lex("while("), Ok(vec![identifier("while"), Token::LeftPar]));
    assert_eq!(lex("fo("), Ok(vec![identifier("fo"), Token::LeftPar]));
    assert_eq!(lex("returns("), Ok(vec![identifier("returns"), Token::LeftPar]));
}

#[test]
fn words_run_as_far_as_they_can() {
    assert_eq!(lex("abc123"), Ok(vec![identifier("abc123")]));
    assert_eq!(lex("12ab"), Ok(vec![identifier("12ab")]));
    assert_eq!(lex("ab cd"), Ok(vec![identifier("ab"), identifier("cd")]));
    assert_eq!(lex("ab+cd"), Ok(vec![identifier("ab"), operator("+"), identifier("cd")]));
    assert_eq!(lex("1 2"), Ok(vec![Token::Number(1), Token::Number(2)]));
}

#[test]
fn numbers() {
    assert_eq!(lex("0"), Ok(vec![Token::Number(0)]));
    assert_eq!(lex("7"), Ok(vec![Token::Number(7)]));
    assert_eq!(lex("007"), Ok(vec![Token::Number(7)]));
    assert_eq!(lex("1234567890"), Ok(vec![Token::Number(1234567890)]));
    assert_eq!(lex("2147483647"), Ok(vec![Token::Number(2147483647)]));
    assert_eq!(lex("0000000002147483647"), Ok(vec![Token::Number(2147483647)]));
}

#[test]
fn digits_beyond_the_range_are_a_name() {
    assert_eq!(lex("2147483648"), Ok(vec![identifier("2147483648")]));
    assert_eq!(lex("2147483650"), Ok(vec![identifier("2147483650")]));
    assert_eq!(lex("99999999999999999999"), Ok(vec![identifier("99999999999999999999")]));
    assert_eq!(lex("21474836470"), Ok(vec![identifier("21474836470")]));
}

#[test]
fn minus_is_an_operator_of_its_own() {
    assert_eq!(lex("-5"), Ok(vec![operator("-"), Token::Number(5)]));
}

#[test]
fn letters_and_digits_beyond_ascii() {
    assert_eq!(lex("é=1;"), Ok(vec![identifier("é"), operator("="), Token::Number(1), Token::Terminator]));
    assert_eq!(lex("größe"), Ok(vec![identifier("größe")]));
    assert_eq!(lex("変数2"), Ok(vec![identifier("変数2")]));
    // A digit of another script is alphanumeric, but no decimal digit.
    assert_eq!(lex("٣"), Ok(vec![identifier("٣")]));
    assert_eq!(lex("1٣"), Ok(vec![identifier("1٣")]));
}

#[test]
fn alphanumeric_characters() {
    for c in ['0', '9', 'a', 'z', 'A', 'Z', 'é', 'ß', '数', '٣'] {
        assert!(alphanumeric(c), "{:?}", c);
    }
    for c in [' ', '\n', '(', ')', '=', '!', ';', '_', '/', ':', '@', '[', '`', '{', '\x7f', '€', '\u{a0}', '→'] {
        assert!(!alphanumeric(c), "{:?}", c);
    }
}

#[test]
fn whitespace_other_than_ascii_is_not_dropped() {
    assert_eq!(
        lex("a\u{a0}b"),
        Err(LexError { kind: LexErrorKind::UnrecognizedCharacter, offset: 1 })
    );
    assert_eq!(
        lex("a\u{b}b"),
        Err(LexError { kind: LexErrorKind::UnrecognizedCharacter, offset: 1 })
    );
}

#[test]
fn tokens_compare_by_kind_and_content() {
    assert_eq!(identifier("a"), identifier("a"));
    assert_ne!(identifier("a"), identifier("b"));
    assert_ne!(identifier("if"), keyword("if"));
    assert_ne!(identifier("a"), operator("a"));
    assert_ne!(Token::Number(1), Token::Number(2));
    assert_ne!(Token::LeftPar, Token::RightPar);
    assert_ne!(Token::LeftBrace, Token::RightBrace);
    assert_ne!(Token::Comma, Token::Terminator);
    assert_eq!(Token::Number(3).clone(), Token::Number(3));
    assert_eq!(keyword("for").clone(), keyword("for"));
}
