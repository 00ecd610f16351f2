use toylang::error::{LexError, LexErrorKind, ParseError, ParseErrorKind, TranslateError};
use toylang::{strip, translate};

fn translated(source: &str) -> Result<String, TranslateError> {
    translate(&source.to_string())
}

const FIBONACCI: &str = "n = 10;
a0 = 0;
a1 = 1;
an = 0;
if (n == 0) { return (0); };
if (n == 1) { return (1); };
for (i, n) {
\tan = a1 + a0;
\ta0 = a1;
\ta1 = an;
};
return (an);
";

#[test]
fn layout_is_taken_out() {
    assert_eq!(strip(&"".to_string()), "");
    assert_eq!(strip(&" \n\t \n".to_string()), "");
    assert_eq!(strip(&"a = 1;\n\tb = 2;\n".to_string()), "a=1;b=2;");
    assert_eq!(strip(&"if (a) {\n}".to_string()), "if(a){}");
    // Only spaces, tabs and line feeds go.
    assert_eq!(strip(&"a\r\n=\u{a0}1".to_string()), "a\r=\u{a0}1");
    assert_eq!(
        strip(&FIBONACCI.to_string()),
        "n=10;a0=0;a1=1;an=0;if(n==0){return(0);};if(n==1){return(1);};for(i,n){an=a1+a0;a0=a1;a1=an;};return(an);"
    );
}

#[test]
fn whole_translation() {
    let source = strip(&FIBONACCI.to_string());
    assert_eq!(
        translate(&source).unwrap(),
        "fn main() {\n\
         \tlet mut n=10;\n\
         \tlet mut a0=0;\n\
         \tlet mut a1=1;\n\
         \tlet mut an=0;\n\
         \tif n==0 {\n\
         \t\tprintln!(\"{}\",0);\n\
         \t}\n\
         \tif n==1 {\n\
         \t\tprintln!(\"{}\",1);\n\
         \t}\n\
         \tfor i in 1..n {\n\
         \t\tan=a1+a0;\n\
         \t\ta0=a1;\n\
         \t\ta1=an;\n\
         \t}\n\
         \tprintln!(\"{}\",an);\n\
         \n\
         }"
    );
}

#[test]
fn layout_before_a_parenthesis_changes_the_reading() {
    // Without stripping, the reserved words are names here.
    assert_eq!(
        translated(FIBONACCI),
        Err(TranslateError::Parse(ParseError { kind: ParseErrorKind::ExpectedAssign, index: 17 }))
    );
}

#[test]
fn translation_of_nothing() {
    assert_eq!(translated(""), Ok("fn main() {\n\n}".to_string()));
}

#[test]
fn translation_groups_as_the_source_does() {
    assert_eq!(
        translated("x=a+b*c-(d-e)-f;").unwrap(),
        "fn main() {\n\tlet mut x=((a+(b*c))-(d-e))-f;\n\n}"
    );
}

#[test]
fn written_expression_passes_through() {
    assert_eq!(
        translated("x=((a+12)*b)-(c/(d-(0<e)));").unwrap(),
        "fn main() {\n\tlet mut x=((a+12)*b)-(c/(d-(0<e)));\n\n}"
    );
    assert_eq!(translated("y=(7*(k+1));").unwrap(), "fn main() {\n\tlet mut y=7*(k+1);\n\n}");
}

#[test]
fn lexical_failure_ends_the_translation() {
    let error = translated("a=1;b=!;").unwrap_err();
    assert_eq!(error, TranslateError::Lex(LexError { kind: LexErrorKind::UndefinedToken, offset: 6 }));
    assert_eq!(error.message(), "undefined token");
    assert_eq!(error.position(), 6);
    let error = translated("a=1;b=2;c=3$").unwrap_err();
    assert_eq!(
        error,
        TranslateError::Lex(LexError { kind: LexErrorKind::UnrecognizedCharacter, offset: 11 })
    );
    assert_eq!(error.message(), "unrecognized character");
    assert_eq!(error.position(), 11);
}

#[test]
fn syntactic_failure_ends_the_translation() {
    let error = translated("a=;").unwrap_err();
    assert_eq!(
        error,
        TranslateError::Parse(ParseError { kind: ParseErrorKind::ExpectedPrimary, index: 2 })
    );
    assert_eq!(error.message(), "expected primary expression");
    assert_eq!(error.position(), 2);
    let error = translated("a=1;b=2;if(a){b=3;").unwrap_err();
    assert_eq!(
        error,
        TranslateError::Parse(ParseError { kind: ParseErrorKind::ExpectedRightBrace, index: 17 })
    );
    assert_eq!(error.message(), "expected '}'");
    assert_eq!(error.position(), 17);
}

#[test]
fn lexical_failure_comes_before_a_syntactic_one() {
    assert_eq!(
        translated("a=;#"),
        Err(TranslateError::Lex(LexError { kind: LexErrorKind::UnrecognizedCharacter, offset: 3 }))
    );
}

#[test]
fn messages() {
    let kinds = [
        (ParseErrorKind::ExpectedStatement, "expected statement"),
        (ParseErrorKind::ExpectedAssign, "expected '='"),
        (ParseErrorKind::ExpectedTerminator, "expected terminator"),
        (ParseErrorKind::ExpectedPrimary, "expected primary expression"),
        (ParseErrorKind::UnknownKeyword, "unknown keyword"),
        (ParseErrorKind::ExpectedLeftPar, "expected '('"),
        (ParseErrorKind::ExpectedRightPar, "expected ')'"),
        (ParseErrorKind::ExpectedLeftBrace, "expected '{'"),
        (ParseErrorKind::ExpectedRightBrace, "expected '}'"),
        (ParseErrorKind::ExpectedComma, "expected ','"),
        (ParseErrorKind::ExpectedIdentifier, "expected identifier"),
    ];
    for (kind, message) in kinds {
        assert_eq!(ParseError { kind, index: 0 }.message(), message);
        assert_eq!(TranslateError::Parse(ParseError { kind, index: 3 }).message(), message);
    }
    let kinds = [
        (LexErrorKind::UndefinedToken, "undefined token"),
        (LexErrorKind::UnrecognizedCharacter, "unrecognized character"),
    ];
    for (kind, message) in kinds {
        assert_eq!(LexError { kind, offset: 0 }.message(), message);
        assert_eq!(TranslateError::Lex(LexError { kind, offset: 3 }).message(), message);
    }
}
