//! Extra socat options, split into arguments the way a shell would.

use crate::text::views;
use vstd::prelude::*;
use vstd::string::*;

verus! {

/// The error of `shell_words::split`; nothing is known of what is inside it.
#[verifier::external_type_specification]
#[verifier::external_body]
pub struct ExParseError(shell_words::ParseError);

/// The words that `shell_words::split` finds in a command line, or nothing
/// where it refuses the line.
pub uninterp spec fn shell_split(line: Seq<char>) -> Option<Seq<Seq<char>>>;

/// Calls `shell_words::split`, which splits a command line into words and
/// refuses one with an unmatched quote. Which words it finds, and which lines it
/// refuses, depend on the line alone: [`shell_split`] stands for both.
#[verifier::external_body]
fn shell_words_of(line: &str) -> (r: Result<Vec<String>, shell_words::ParseError>)
    ensures
        match r {
            Ok(words) => shell_split(line@) == Some(views(words@)),
            Err(_) => shell_split(line@) is None,
        },
{
    shell_words::split(line)
}

/// The `Display` impl of `shell_words::ParseError`, by which the error reads
/// `missing closing quote` whatever the line was.
#[verifier::external_body]
fn error_text(e: &shell_words::ParseError) -> (r: String)
    ensures
        r@ == "missing closing quote"@,
{
    format!("{e}")
}

/// The words of an options field, or what is wrong with it.
pub open spec fn split_options(line: Seq<char>) -> Result<Seq<Seq<char>>, Seq<char>> {
    match shell_split(line) {
        Some(words) => Ok(words),
        None => Err("missing closing quote"@),
    }
}

/// A list of words or a text, as sequences.
pub open spec fn split_view(r: Result<Vec<String>, String>) -> Result<Seq<Seq<char>>, Seq<char>> {
    match r {
        Ok(words) => Ok(views(words@)),
        Err(e) => Err(e@),
    }
}

/// Splits an options field into words; says what is wrong where it cannot.
pub fn split(line: &str) -> (r: Result<Vec<String>, String>)
    ensures
        split_view(r) == split_options(line@),
{
    match shell_words_of(line) {
        Ok(words) => Ok(words),
        Err(e) => Err(error_text(&e)),
    }
}

/// The words are those that were found, and a line that is refused is refused with one
/// reason.
pub proof fn words_are_those_that_were_found(line: Seq<char>)
    ensures
        shell_split(line) is Some ==> split_options(line) == Ok::<Seq<Seq<char>>, Seq<char>>(
            shell_split(line)->0,
        ),
        shell_split(line) is None ==> split_options(line) == Err::<Seq<Seq<char>>, Seq<char>>(
            "missing closing quote"@,
        ),
{
}

} // verus!
