//! From the arguments of the command line to the text that is printed.

use vstd::prelude::*;
use vstd::string::*;
use crate::decode::{decode_outcome, decoded_as, unicode_to_text, DecodeError};
use crate::encode::{encode_spec, text_to_unicode};

verus! {

/// What the arguments ask for.
#[derive(Clone, Copy, Debug, PartialEq, Eq, Structural)]
pub enum Command {
    /// Encode the second argument.
    Encode,
    /// Decode the second argument.
    Decode,
    /// Print the usage text.
    Help,
    /// The first argument is no known option.
    UnknownOption,
    /// There are fewer than two arguments.
    NotEnoughArguments,
}

/// The line printed where there are fewer than two arguments.
pub const NOT_ENOUGH_ARGUMENTS: &'static str = "Not enough arguments provided.";

/// What is printed before an option that is not known.
pub const UNKNOWN_OPTION: &'static str = "Unknown option: ";

/// The usage text.
pub const HELP_TEXT: &'static str =
    "\n        Unicode and Text Convert\n\n        Usage: uniconvert [OPTION] [SOURCE]\n\n        Options:\n            -h, --help         Print help information\n            -t, --text         Convert text to unicode\n            -u, --unicode      Convert unicode to text\n        ";

/// What `args` ask for, where `args` are the arguments after the program's
/// name. Fewer than two ask for nothing; otherwise the first one decides.
pub open spec fn select_spec(args: Seq<String>) -> Command {
    if args.len() < 2 {
        Command::NotEnoughArguments
    } else if args[0]@ == "-t"@ || args[0]@ == "--text"@ {
        Command::Encode
    } else if args[0]@ == "-u"@ || args[0]@ == "--unicode"@ {
        Command::Decode
    } else if args[0]@ == "-h"@ || args[0]@ == "--help"@ {
        Command::Help
    } else {
        Command::UnknownOption
    }
}

/// Whether `arg` reads `short` or `long`.
pub fn is_option(arg: &String, short: &str, long: &str) -> (r: bool)
    ensures
        r == (arg@ == short@ || arg@ == long@),
{
    let s = String::from_str(short);
    let l = String::from_str(long);
    *arg == s || *arg == l
}

/// What the arguments after the program's name ask for.
pub fn select(args: &Vec<String>) -> (c: Command)
    ensures
        c == select_spec(args@),
{
    if args.len() < 2 {
        Command::NotEnoughArguments
    } else if is_option(&args[0], "-t", "--text") {
        Command::Encode
    } else if is_option(&args[0], "-u", "--unicode") {
        Command::Decode
    } else if is_option(&args[0], "-h", "--help") {
        Command::Help
    } else {
        Command::UnknownOption
    }
}

/// The text that `respond` owes for `args`, where decoding the second
/// argument gives `decoded`.
pub open spec fn respond_spec(args: Seq<String>, decoded: Result<Seq<char>, DecodeError>) -> Result<
    Seq<char>,
    DecodeError,
> {
    match select_spec(args) {
        Command::NotEnoughArguments => Ok(NOT_ENOUGH_ARGUMENTS@),
        Command::Encode => Ok(encode_spec(args[1]@)),
        Command::Decode => decoded,
        Command::Help => Ok(HELP_TEXT@),
        Command::UnknownOption => Ok(UNKNOWN_OPTION@ + args[0]@),
    }
}

/// The text to print for the arguments after the program's name: the
/// encoded or decoded second argument, the usage text, or a line that says
/// what is wrong with the arguments. Only decoding can fail.
pub fn respond(args: &Vec<String>) -> (r: Result<String, DecodeError>)
    ensures
        args@.len() >= 2 ==> decoded_as(r, respond_spec(args@, decode_outcome(args@[1]@))),
        args@.len() < 2 ==> decoded_as(r, Ok(NOT_ENOUGH_ARGUMENTS@)),
{
    match select(args) {
        Command::NotEnoughArguments => Ok(String::from_str(NOT_ENOUGH_ARGUMENTS)),
        Command::Encode => Ok(text_to_unicode(args[1].as_str())),
        Command::Decode => unicode_to_text(args[1].as_str()),
        Command::Help => Ok(String::from_str(HELP_TEXT)),
        Command::UnknownOption => Ok(String::from_str(UNKNOWN_OPTION).concat(args[0].as_str())),
    }
}

} // verus!
