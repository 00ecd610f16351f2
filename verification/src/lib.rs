//! A translator from a small imperative language into Rust.
//!
//! The source language has integer arithmetic, definitions of variables,
//! conditionals with one branch, loops that count up to a bound, and a
//! `return` that prints a value. A source text goes through three stages,
//! each of which takes the whole output of the one before it: the lexer in
//! [`lexicon`] makes tokens of the characters, the parser in [`prassel`] makes
//! a tree of the tokens, and the generator in [`backend`] writes the tree out
//! as a Rust program.
//!
//! What each stage computes is defined, over sequences of characters and of
//! tokens, in [`lexicon`], [`grammar`] and [`target`].

pub mod ast;
pub mod backend;
pub mod climbing;
pub mod error;
pub mod grammar;
pub mod lexicon;
pub mod prassel;
pub mod roundtrip;
pub mod target;
pub mod text;
pub mod token;

pub use token::Token;

use crate::backend::Generate;
use crate::error::TranslateError;
use crate::grammar::parse;
use crate::lexicon::{tokenization, tokenize};
use crate::prassel::Parser;
use crate::target::program_text;
use crate::text::characters;
use vstd::prelude::*;

verus! {

/// Whether `c` only lays the source out on the page: a space, a tab or a
/// line feed.
pub open spec fn is_layout(c: char) -> bool {
    c == ' ' || c == '\t' || c == '\n'
}

/// The source without its layout.
pub open spec fn stripped(source: Seq<char>) -> Seq<char> {
    source.filter(|c: char| !is_layout(c))
}

/// Takes all spaces, tabs and line feeds out of a source text, so that a
/// reserved word stands directly before its parenthesis however the text was
/// laid out.
pub fn strip(source: &String) -> (bare: String)
    ensures
        bare@ == stripped(source@),
{
    let all = characters(source.as_str());
    let mut bare = String::new();
    let mut at: usize = 0;
    proof {
        reveal(Seq::filter);
    }
    while at < all.len()
        invariant
            at <= all.len(),
            all@ == source@,
            bare@ == stripped(all@.take(at as int)),
        decreases all.len() - at,
    {
        let c = all[at];
        proof {
            assert(all@.take(at + 1) =~= all@.take(at as int).push(c));
            all@.take(at as int).lemma_filter_push(c, |c: char| !is_layout(c));
        }
        if !(c == ' ' || c == '\t' || c == '\n') {
            bare.push(c);
        }
        at = at + 1;
    }
    proof {
        assert(all@.take(at as int) =~= all@);
    }
    bare
}

/// What a source text translates to: the program that its tokens parse to,
/// written one tab deep in a block that has declared nothing; or the error of
/// the first stage that fails.
pub open spec fn translation(source: Seq<char>) -> Result<Seq<char>, TranslateError> {
    match tokenization(source) {
        Ok(tokens) => match parse(tokens) {
            Ok(program) => Ok(program_text(program, 1, Set::empty())),
            Err(error) => Err(TranslateError::Parse(error)),
        },
        Err(error) => Err(TranslateError::Lex(error)),
    }
}

/// Translates a source text into a Rust program. Any failure ends the
/// translation: no part of a program is handed out.
pub fn translate(source: &String) -> (outcome: Result<String, TranslateError>)
    ensures
        match translation(source@) {
            Ok(text) => outcome is Ok && outcome->Ok_0@ == text,
            Err(error) => outcome == Err::<String, TranslateError>(error),
        },
{
    let tokens = match tokenize(source) {
        Ok(tokens) => tokens,
        Err(error) => {
            return Err(TranslateError::Lex(error));
        },
    };
    let mut parser = Parser::new(tokens);
    let program = match parser.parse_program() {
        Ok(program) => program,
        Err(error) => {
            return Err(TranslateError::Parse(error));
        },
    };
    let mut generator = Generate::new(program.statements, Vec::new(), 0);
    proof {
        assert(generator.declared() =~= Set::empty());
    }
    Ok(generator.formatting())
}

} // verus!
