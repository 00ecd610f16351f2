//! The lexer: from the characters of a source text to its tokens.

use crate::error::{LexError, LexErrorKind};
use crate::text::{characters, text_is, text_of};
use crate::token::{token_views, Token, TokenView};
use vstd::prelude::*;

verus! {

/// Whether Unicode counts `c` as a letter or as a number: what
/// `char::is_alphanumeric` of the standard library answers for `c`.
pub uninterp spec fn unicode_alphanumeric(c: char) -> bool;

/// `char::is_alphanumeric` of the standard library. Its answer depends on
/// the character alone and follows the tables of Unicode, which are not
/// written out here: the answer is only given a name.
pub assume_specification[ char::is_alphanumeric ](c: char) -> (answer: bool)
    ensures
        answer == unicode_alphanumeric(c),
;

/// Whether `c` is one of the decimal digits `0` to `9`.
pub open spec fn is_digit(c: char) -> bool {
    '0' <= c <= '9'
}

/// Whether `c` can stand in a name or a number. Within ASCII these are the
/// digits and the letters of both cases; beyond it, Unicode decides.
pub open spec fn is_word_char(c: char) -> bool {
    if c <= '\x7f' {
        is_digit(c) || 'a' <= c <= 'z' || 'A' <= c <= 'Z'
    } else {
        unicode_alphanumeric(c)
    }
}

/// Whether `c` only separates tokens: a space, a tab, a line feed, a form
/// feed or a carriage return.
pub open spec fn is_whitespace(c: char) -> bool {
    c == ' ' || c == '\t' || c == '\n' || c == '\x0c' || c == '\r'
}

/// The number of alphanumeric characters that stand in a row from `from` on.
pub open spec fn word_length(source: Seq<char>, from: int) -> nat
    decreases source.len() - from,
{
    if 0 <= from < source.len() && is_word_char(source[from]) {
        1 + word_length(source, from + 1)
    } else {
        0
    }
}

/// Whether `word` is one of the words that begin a control statement.
pub open spec fn is_reserved(word: Seq<char>) -> bool {
    word == "return"@ || word == "if"@ || word == "for"@
}

/// The value of a decimal digit.
pub open spec fn digit_value(c: char) -> int {
    c as int - '0' as int
}

/// Whether `text` holds decimal digits only.
pub open spec fn all_digits(text: Seq<char>) -> bool {
    forall|i: int| 0 <= i < text.len() ==> is_digit(#[trigger] text[i])
}

/// The number that the digits of `text` denote in base ten.
pub open spec fn decimal_value(text: Seq<char>) -> int
    decreases text.len(),
{
    if text.len() == 0 {
        0
    } else {
        decimal_value(text.drop_last()) * 10 + digit_value(text.last())
    }
}

/// Whether `word` is a number: decimal digits only, which denote a value
/// that a token can hold.
pub open spec fn is_number(word: Seq<char>) -> bool {
    word.len() > 0 && all_digits(word) && decimal_value(word) <= i32::MAX
}

/// The token that a run of alphanumeric characters makes. A reserved word
/// is a keyword only directly before `(`; a word that is no number is a name.
pub open spec fn word_token(word: Seq<char>, before_par: bool) -> TokenView {
    if is_reserved(word) && before_par {
        TokenView::Keyword(word)
    } else if is_number(word) {
        TokenView::Number(decimal_value(word) as i32)
    } else {
        TokenView::Identifier(word)
    }
}

/// What the lexer finds at one place of the source.
pub enum Scanned {
    /// A token, and the number of characters that it is made of.
    Token(TokenView, nat),
    /// A character of whitespace.
    Blank,
    /// Nothing that the language knows.
    Failure(LexErrorKind),
}

/// Whether the character at `at` is `c`.
pub open spec fn shows(source: Seq<char>, at: int, c: char) -> bool {
    0 <= at < source.len() && source[at] == c
}

/// What stands at `at`, where `at` lies within the source. A word runs as
/// far as alphanumeric characters follow one another. `=` and `!` look one
/// character ahead for a second `=`; every other operator is one character.
pub open spec fn scan(source: Seq<char>, at: int) -> Scanned {
    let c = source[at];
    if is_word_char(c) {
        let length = word_length(source, at);
        Scanned::Token(
            word_token(source.subrange(at, at + length), shows(source, at + length, '(')),
            length,
        )
    } else if c == '(' {
        Scanned::Token(TokenView::LeftPar, 1)
    } else if c == ')' {
        Scanned::Token(TokenView::RightPar, 1)
    } else if c == '{' {
        Scanned::Token(TokenView::LeftBrace, 1)
    } else if c == '}' {
        Scanned::Token(TokenView::RightBrace, 1)
    } else if c == ',' {
        Scanned::Token(TokenView::Comma, 1)
    } else if c == ';' {
        Scanned::Token(TokenView::Terminator, 1)
    } else if c == '+' {
        Scanned::Token(TokenView::Operator("+"@), 1)
    } else if c == '-' {
        Scanned::Token(TokenView::Operator("-"@), 1)
    } else if c == '*' {
        Scanned::Token(TokenView::Operator("*"@), 1)
    } else if c == '/' {
        Scanned::Token(TokenView::Operator("/"@), 1)
    } else if c == '<' {
        Scanned::Token(TokenView::Operator("<"@), 1)
    } else if c == '>' {
        Scanned::Token(TokenView::Operator(">"@), 1)
    } else if c == '=' {
        if shows(source, at + 1, '=') {
            Scanned::Token(TokenView::Operator("=="@), 2)
        } else {
            Scanned::Token(TokenView::Operator("="@), 1)
        }
    } else if c == '!' {
        if shows(source, at + 1, '=') {
            Scanned::Token(TokenView::Operator("!="@), 2)
        } else {
            Scanned::Failure(LexErrorKind::UndefinedToken)
        }
    } else if is_whitespace(c) {
        Scanned::Blank
    } else {
        Scanned::Failure(LexErrorKind::UnrecognizedCharacter)
    }
}

/// The tokens of the source from `at` on, or the first failure met there,
/// with the offset of the character at which it lies.
pub open spec fn tokens_from(source: Seq<char>, at: int) -> Result<Seq<TokenView>, LexError>
    decreases source.len() - at,
    via tokens_from_terminates
{
    if 0 <= at < source.len() {
        match scan(source, at) {
            Scanned::Token(token, length) => match tokens_from(source, at + length) {
                Ok(rest) => Ok(seq![token] + rest),
                Err(error) => Err(error),
            },
            Scanned::Blank => tokens_from(source, at + 1),
            Scanned::Failure(kind) => Err(LexError { kind, offset: at as usize }),
        }
    } else {
        Ok(Seq::empty())
    }
}

#[via_fn]
proof fn tokens_from_terminates(source: Seq<char>, at: int) {
    if 0 <= at < source.len() {
        lemma_token_length(source, at);
    }
}

/// A token is made of at least one character and ends within the source.
pub proof fn lemma_token_length(source: Seq<char>, at: int)
    requires
        0 <= at < source.len(),
    ensures
        scan(source, at) matches Scanned::Token(_, length) ==> 1 <= length && at + length
            <= source.len(),
{
    lemma_word_length_bound(source, at);
}

/// A word ends within the source.
pub proof fn lemma_word_length_bound(source: Seq<char>, from: int)
    requires
        0 <= from <= source.len(),
    ensures
        from + word_length(source, from) <= source.len(),
    decreases source.len() - from,
{
    if from < source.len() && is_word_char(source[from]) {
        lemma_word_length_bound(source, from + 1);
    }
}

/// On digits, a number read from fewer of them is no greater.
pub proof fn lemma_decimal_value_grows(text: Seq<char>, shorter: int)
    requires
        all_digits(text),
        0 <= shorter <= text.len(),
    ensures
        0 <= decimal_value(text.take(shorter)) <= decimal_value(text),
    decreases text.len(),
{
    if shorter == text.len() {
        assert(text.take(shorter) =~= text);
        if text.len() > 0 {
            lemma_decimal_value_grows(text.drop_last(), shorter - 1);
        }
    } else {
        assert(text.drop_last().take(shorter) =~= text.take(shorter));
        lemma_decimal_value_grows(text.drop_last(), shorter);
    }
}

/// Whether `c` can stand in a name or a number.
pub fn alphanumeric(c: char) -> (answer: bool)
    ensures
        answer == is_word_char(c),
{
    if c <= '\x7f' {
        ('0' <= c && c <= '9') || ('a' <= c && c <= 'z') || ('A' <= c && c <= 'Z')
    } else {
        c.is_alphanumeric()
    }
}

/// Where the word that begins at `from` ends.
fn word_end(source: &Vec<char>, from: usize) -> (end: usize)
    requires
        from <= source.len(),
    ensures
        end == from + word_length(source@, from as int),
        end <= source.len(),
{
    let mut end: usize = from;
    while end < source.len() && alphanumeric(source[end])
        invariant
            from <= end <= source.len(),
            word_length(source@, from as int) == (end - from) + word_length(source@, end as int),
        decreases source.len() - end,
    {
        end = end + 1;
    }
    end
}

/// The value of the characters from `from` up to `to`, where they are a
/// number.
fn decimal_number(source: &Vec<char>, from: usize, to: usize) -> (value: Option<i32>)
    requires
        from < to <= source.len(),
    ensures
        match value {
            Some(value) => is_number(source@.subrange(from as int, to as int)) && value
                == decimal_value(source@.subrange(from as int, to as int)),
            None => !is_number(source@.subrange(from as int, to as int)),
        },
{
    let ghost word = source@.subrange(from as int, to as int);
    let mut value: i32 = 0;
    let mut at: usize = from;
    while at < to
        invariant
            from <= at <= to <= source.len(),
            word == source@.subrange(from as int, to as int),
            all_digits(word.take(at - from)),
            value == decimal_value(word.take(at - from)),
            0 <= value,
        decreases to - at,
    {
        let c = source[at];
        if !('0' <= c && c <= '9') {
            assert(!is_digit(word[at - from]));
            return None;
        }
        let digit: i32 = (c as u32 - '0' as u32) as i32;
        proof {
            assert(word.take(at - from + 1).drop_last() =~= word.take(at - from));
        }
        if value > (i32::MAX - digit) / 10 {
            proof {
                if all_digits(word) {
                    lemma_decimal_value_grows(word, at - from + 1);
                }
            }
            return None;
        }
        value = value * 10 + digit;
        at = at + 1;
    }
    proof {
        assert(word.take(to - from) =~= word);
    }
    Some(value)
}

/// The token that the word from `from` up to `to` makes.
fn read_word(source: &Vec<char>, from: usize, to: usize) -> (token: Token)
    requires
        from < to <= source.len(),
    ensures
        token@ == word_token(
            source@.subrange(from as int, to as int),
            shows(source@, to as int, '('),
        ),
{
    let word = text_of(source, from, to);
    let before_par = to < source.len() && source[to] == '(';
    if before_par && (text_is(&word, "return") || text_is(&word, "if") || text_is(&word, "for")) {
        Token::Keyword(word)
    } else {
        match decimal_number(source, from, to) {
            Some(value) => Token::Number(value),
            None => Token::Identifier(word),
        }
    }
}

/// Whether the tokens read so far, followed by what the rest of the source
/// holds from `at` on, are what the whole source holds.
spec fn continues(source: Seq<char>, so_far: Seq<TokenView>, at: int) -> bool {
    match tokens_from(source, at) {
        Ok(rest) => tokenization(source) == Ok::<_, LexError>(so_far + rest),
        Err(error) => tokenization(source) == Err::<Seq<TokenView>, _>(error),
    }
}

/// Reads the tokens of `input` in one pass from left to right, with one
/// character of lookahead. Whitespace separates tokens and is dropped. The
/// first character that belongs to no token ends the reading with an error:
/// nothing is skipped in silence.
pub fn tokenize(input: &String) -> (outcome: Result<Vec<Token>, LexError>)
    ensures
        match tokenization(input@) {
            Ok(tokens) => outcome is Ok && token_views(outcome->Ok_0@) == tokens,
            Err(error) => outcome == Err::<Vec<Token>, LexError>(error),
        },
{
    let source = characters(input.as_str());
    let mut tokens: Vec<Token> = Vec::new();
    let mut at: usize = 0;
    while at < source.len()
        invariant
            source@ == input@,
            at <= source.len(),
            continues(source@, token_views(tokens@), at as int),
        decreases source.len() - at,
    {
        let c = source[at];
        let ghost so_far = token_views(tokens@);
        let followed_by_equals = at + 1 < source.len() && source[at + 1] == '=';
        let mut length: usize = 1;
        let token = if alphanumeric(c) {
            let end = word_end(&source, at);
            length = end - at;
            Some(read_word(&source, at, end))
        } else if c == '(' {
            Some(Token::LeftPar)
        } else if c == ')' {
            Some(Token::RightPar)
        } else if c == '{' {
            Some(Token::LeftBrace)
        } else if c == '}' {
            Some(Token::RightBrace)
        } else if c == ',' {
            Some(Token::Comma)
        } else if c == ';' {
            Some(Token::Terminator)
        } else if c == '+' {
            Some(Token::Operator("+".to_owned()))
        } else if c == '-' {
            Some(Token::Operator("-".to_owned()))
        } else if c == '*' {
            Some(Token::Operator("*".to_owned()))
        } else if c == '/' {
            Some(Token::Operator("/".to_owned()))
        } else if c == '<' {
            Some(Token::Operator("<".to_owned()))
        } else if c == '>' {
            Some(Token::Operator(">".to_owned()))
        } else if c == '=' {
            if followed_by_equals {
                length = 2;
                Some(Token::Operator("==".to_owned()))
            } else {
                Some(Token::Operator("=".to_owned()))
            }
        } else if c == '!' {
            if followed_by_equals {
                length = 2;
                Some(Token::Operator("!=".to_owned()))
            } else {
                return Err(LexError { kind: LexErrorKind::UndefinedToken, offset: at });
            }
        } else if c == ' ' || c == '\t' || c == '\n' || c == '\x0c' || c == '\r' {
            None
        } else {
            return Err(LexError { kind: LexErrorKind::UnrecognizedCharacter, offset: at });
        };
        match token {
            Some(token) => {
                proof {
                    let rest = tokens_from(source@, at + length);
                    if rest is Ok {
                        assert(token_views(tokens@.push(token)) + rest->Ok_0 =~= so_far
                            + (seq![token@] + rest->Ok_0));
                    }
                }
                tokens.push(token);
            },
            None => {},
        }
        at = at + length;
    }
    Ok(tokens)
}

/// The tokens of a whole source text.
pub open spec fn tokenization(source: Seq<char>) -> Result<Seq<TokenView>, LexError> {
    tokens_from(source, 0)
}

/// Two `=` in a row are one token, `==`, and never two assignments: the
/// tokens from the first `=` on are `==` and those that follow the second.
pub proof fn lemma_double_equals_is_one_token(source: Seq<char>, at: int)
    requires
        shows(source, at, '='),
        shows(source, at + 1, '='),
    ensures
        scan(source, at) == Scanned::Token(TokenView::Operator("=="@), 2),
        tokens_from(source, at) == match tokens_from(source, at + 2) {
            Ok(rest) => Ok::<_, LexError>(seq![TokenView::Operator("=="@)] + rest),
            Err(error) => Err(error),
        },
{
}

/// A reserved word is a keyword only where `(` follows it directly: before
/// anything else, whitespace included, it is a name like any other.
pub proof fn lemma_reserved_word_needs_parenthesis(word: Seq<char>)
    requires
        is_reserved(word),
    ensures
        word_token(word, true) == TokenView::Keyword(word),
        word_token(word, false) == TokenView::Identifier(word),
{
    reveal_strlit("return");
    reveal_strlit("if");
    reveal_strlit("for");
}

/// Whether the lexer reads `name` as a name: alphanumeric characters, at
/// least one, that make no number.
pub open spec fn is_name(name: Seq<char>) -> bool {
    &&& name.len() > 0
    &&& forall|i: int| 0 <= i < name.len() ==> is_word_char(#[trigger] name[i])
    &&& !is_number(name)
}

/// Whether `text` is an operator as the lexer makes them.
pub open spec fn is_operator(text: Seq<char>) -> bool {
    text == "+"@ || text == "-"@ || text == "*"@ || text == "/"@ || text == "<"@ || text == ">"@
        || text == "="@ || text == "=="@ || text == "!="@
}

/// Whether a token can have come out of the lexer: a keyword is a reserved
/// word, a name is a word that is no number, a number is not negative, and
/// an operator is one of the nine that the lexer makes.
pub open spec fn is_lexical(token: TokenView) -> bool {
    match token {
        TokenView::Keyword(word) => is_reserved(word),
        TokenView::Identifier(name) => is_name(name),
        TokenView::Number(value) => value >= 0,
        TokenView::Operator(text) => is_operator(text),
        _ => true,
    }
}

/// The characters of a word are alphanumeric, and behind the word stands a
/// character that is not: a word runs as far as it can.
pub proof fn lemma_word_is_maximal(source: Seq<char>, from: int)
    requires
        0 <= from <= source.len(),
    ensures
        forall|i: int|
            from <= i < from + word_length(source, from) ==> is_word_char(#[trigger] source[i]),
        from + word_length(source, from) < source.len() ==> !is_word_char(
            source[from + word_length(source, from)],
        ),
    decreases source.len() - from,
{
    if from < source.len() && is_word_char(source[from]) {
        lemma_word_is_maximal(source, from + 1);
    }
}

/// A word makes a keyword, a number or a name, and never two of them: which
/// one it makes is decided by the word and by what follows it.
pub proof fn lemma_word_token_is_lexical(word: Seq<char>, before_par: bool)
    requires
        word.len() > 0,
        forall|i: int| 0 <= i < word.len() ==> is_word_char(#[trigger] word[i]),
    ensures
        is_lexical(word_token(word, before_par)),
        word_token(word, before_par) is Keyword <==> is_reserved(word) && before_par,
        word_token(word, before_par) is Number <==> is_number(word) && !(is_reserved(word)
            && before_par),
        word_token(word, before_par) is Identifier <==> !is_number(word) && !(is_reserved(word)
            && before_par),
{
    if is_number(word) {
        lemma_decimal_value_grows(word, 0);
    }
}

/// Every token that the lexer makes is well formed.
pub proof fn lemma_tokens_are_lexical(source: Seq<char>, at: int)
    ensures
        tokens_from(source, at) matches Ok(tokens) ==> forall|i: int|
            0 <= i < tokens.len() ==> is_lexical(#[trigger] tokens[i]),
    decreases source.len() - at,
{
    if 0 <= at < source.len() {
        lemma_token_length(source, at);
        match scan(source, at) {
            Scanned::Token(token, length) => {
                lemma_tokens_are_lexical(source, at + length);
                if is_word_char(source[at]) {
                    lemma_word_is_maximal(source, at);
                    let word = source.subrange(at, at + length);
                    lemma_word_token_is_lexical(word, shows(source, at + length, '('));
                }
            },
            Scanned::Blank => {
                lemma_tokens_are_lexical(source, at + 1);
            },
            Scanned::Failure(_) => {},
        }
    }
}

} // verus!
