//! Work on characters and texts that the stages of the translation share.

use crate::target::{digits, number_text, tabs, with_line_feeds};
use vstd::prelude::*;
use vstd::std_specs::iter::IteratorSpec;
use vstd::string::StringExecFns;

verus! {

/// `String::push` of the standard library: the string afterwards is the string
/// before with `c` appended at its end, and nothing else is changed.
pub assume_specification[ String::push ](text: &mut String, c: char)
    ensures
        final(text)@ == old(text)@.push(c),
;

/// The characters of `text`, in order.
pub fn characters(text: &str) -> (all: Vec<char>)
    ensures
        all@ == text@,
{
    let mut all: Vec<char> = Vec::new();
    for c in iter: text.chars()
        invariant
            iter.seq() == text@,
            all@ == iter.seq().take(iter.index() as int),
    {
        all.push(c);
    }
    all
}

/// The text made of the characters of `all` from `from` up to, and not
/// including, `to`.
pub fn text_of(all: &Vec<char>, from: usize, to: usize) -> (text: String)
    requires
        from <= to <= all.len(),
    ensures
        text@ == all@.subrange(from as int, to as int),
{
    let mut text = String::new();
    let mut at: usize = from;
    while at < to
        invariant
            from <= at <= to <= all.len(),
            text@ == all@.subrange(from as int, at as int),
        decreases to - at,
    {
        text.push(all[at]);
        at = at + 1;
    }
    text
}

/// A text of `count` tabs; an empty one where `count` is not positive.
pub fn indentation(count: i32) -> (text: String)
    ensures
        text@ == tabs(count as int),
{
    let mut text = String::new();
    let mut done: i32 = 0;
    while done < count
        invariant
            0 <= done,
            done <= count || done == 0,
            text@ == tabs(done as int),
        decreases count - done,
    {
        text.push('\t');
        done = done + 1;
    }
    text
}

/// The text with a line feed put in behind every `;`.
pub fn add_line_feeds(text: &str) -> (lines: String)
    ensures
        lines@ == with_line_feeds(text@),
{
    let mut lines = String::new();
    for c in iter: text.chars()
        invariant
            iter.seq() == text@,
            lines@ == with_line_feeds(iter.seq().take(iter.index() as int)),
    {
        proof {
            let read = iter.seq().take(iter.index() + 1);
            assert(read.drop_last() =~= iter.seq().take(iter.index() as int));
            assert(read.last() == c);
        }
        lines.push(c);
        if c == ';' {
            lines.push('\n');
        }
    }
    proof {
        assert(text@.take(text@.len() as int) =~= text@);
    }
    lines
}

/// Appends the digits of `value` in base ten.
pub fn append_digits(text: &mut String, value: u32)
    ensures
        final(text)@ == old(text)@ + digits(value as nat),
    decreases value,
{
    if value >= 10 {
        append_digits(text, value / 10);
    }
    let digit: u8 = (value % 10) as u8;
    let c: char = ('0' as u8 + digit) as char;
    text.push(c);
}

/// The integer `value` in base ten.
pub fn decimal(value: i32) -> (text: String)
    ensures
        text@ == number_text(value as int),
{
    let mut text = String::new();
    if value < 0 {
        text.push('-');
        let magnitude: u32 = (-(value as i64)) as u32;
        append_digits(&mut text, magnitude);
    } else {
        append_digits(&mut text, value as u32);
    }
    text
}

/// Whether `text` reads exactly as `literal` does.
pub fn text_is(text: &String, literal: &str) -> (same: bool)
    ensures
        same == (text@ == literal@),
{
    let mut ours = text.as_str().chars();
    let mut theirs = literal.chars();
    let ghost mut done: int = 0;
    loop
        invariant
            0 <= done <= text@.len(),
            done <= literal@.len(),
            text@.take(done) == literal@.take(done),
            ours.remaining() == text@.skip(done),
            theirs.remaining() == literal@.skip(done),
        decreases text@.len() - done,
    {
        let a = ours.next();
        let b = theirs.next();
        match (a, b) {
            (None, None) => {
                proof {
                    assert(text@.take(done) =~= text@);
                    assert(literal@.take(done) =~= literal@);
                }
                return true;
            },
            (Some(x), Some(y)) => {
                if x != y {
                    return false;
                }
                proof {
                    done = done + 1;
                }
            },
            _ => {
                return false;
            },
        }
    }
}

} // verus!
