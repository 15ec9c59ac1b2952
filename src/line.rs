//! The bounds a line and its arguments are held to before dispatch.

use vstd::prelude::*;

use crate::tokenizer::{mismatched_quotes, parse_command, tokens};

verus! {

/// The longest line, in characters, that is tokenized.
pub const MAX_INPUT_LENGTH: usize = 1000;

/// The most arguments a line may hold and still be dispatched.
pub const MAX_ARGS_LENGTH: usize = 100;

/// Why a line is not dispatched.
#[derive(Clone, Debug, PartialEq, Eq)]
pub enum LineError {
    /// No argument: nothing but what the caller trimmed away, or only
    /// quote characters that enclose nothing.
    Empty,
    /// More than `MAX_INPUT_LENGTH` characters.
    TooLong,
    /// The tokenizer refused the line, for the reason given.
    Malformed(&'static str),
    /// More than `MAX_ARGS_LENGTH` arguments.
    TooManyArguments,
}

/// Turns a trimmed line into the argument list to dispatch: an empty line, or
/// one that tokenizes to no argument, is skipped; a line longer than `MAX_INPUT_LENGTH` characters is refused before
/// tokenizing, and a list of more than `MAX_ARGS_LENGTH` arguments is refused
/// after.
pub fn read_arguments(line: &str) -> (r: Result<Vec<String>, LineError>)
    ensures
        match r {
            Ok(args) => {
                &&& 0 < line@.len() <= MAX_INPUT_LENGTH
                &&& tokens(line@) == Some(args.deep_view())
                &&& 0 < args.len() <= MAX_ARGS_LENGTH
            },
            Err(LineError::Empty) => {
                ||| line@.len() == 0
                ||| 0 < line@.len() <= MAX_INPUT_LENGTH && tokens(line@) == Some(
                    Seq::<Seq<char>>::empty(),
                )
            },
            Err(LineError::TooLong) => line@.len() > MAX_INPUT_LENGTH,
            Err(LineError::Malformed(reason)) => {
                &&& 0 < line@.len() <= MAX_INPUT_LENGTH
                &&& tokens(line@) is None
                &&& reason@ == mismatched_quotes()
            },
            Err(LineError::TooManyArguments) => {
                &&& 0 < line@.len() <= MAX_INPUT_LENGTH
                &&& tokens(line@) is Some
                &&& tokens(line@)->0.len() > MAX_ARGS_LENGTH
            },
        },
{
    if line.is_empty() {
        return Err(LineError::Empty);
    }
    if line.unicode_len() > MAX_INPUT_LENGTH {
        return Err(LineError::TooLong);
    }
    match parse_command(line) {
        Ok(args) => {
            if args.len() == 0 {
                assert(args.deep_view() =~= Seq::<Seq<char>>::empty());
                Err(LineError::Empty)
            } else if args.len() > MAX_ARGS_LENGTH {
                Err(LineError::TooManyArguments)
            } else {
                Ok(args)
            }
        },
        Err(reason) => Err(LineError::Malformed(reason)),
    }
}

/// The prompt written before each line: the working directory followed by
/// `$ ` when `show_cwd` is set, `$ ` alone otherwise.
pub fn prompt(show_cwd: bool, cwd: &str) -> (r: String)
    ensures
        r@ == (if show_cwd { cwd@ + "$ "@ } else { "$ "@ }),
{
    let mut r = if show_cwd { String::from_str(cwd) } else { String::new() };
    r.append("$ ");
    proof {
        reveal_strlit("$ ");
        if !show_cwd {
            assert(Seq::<char>::empty() + "$ "@ =~= "$ "@);
        }
    }
    r
}

} // verus!
