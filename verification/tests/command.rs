use uniconvert::command::{is_option, HELP_TEXT, NOT_ENOUGH_ARGUMENTS};
use uniconvert::{respond, select, Command, DecodeError};

fn args(list: &[&str]) -> Vec<String> {
    list.iter().map(|s| s.to_string()).collect()
}

#[test]
fn one_argument_is_not_enough() {
    for first in ["-t", "--text", "-u", "--unicode", "-h", "--help", "-x", "Hello"] {
        assert_eq!(select(&args(&[first])), Command::NotEnoughArguments);
        assert_eq!(respond(&args(&[first])), Ok("Not enough arguments provided.".to_string()));
    }
}

#[test]
fn no_argument_is_not_enough() {
    assert_eq!(select(&args(&[])), Command::NotEnoughArguments);
    assert_eq!(respond(&args(&[])), Ok(NOT_ENOUGH_ARGUMENTS.to_string()));
}

#[test]
fn text_option_encodes() {
    assert_eq!(select(&args(&["-t", "Hello"])), Command::Encode);
    assert_eq!(select(&args(&["--text", "Hello"])), Command::Encode);
    assert_eq!(
        respond(&args(&["-t", "Hello"])),
        Ok("\\u0048\\u0065\\u006C\\u006C\\u006F".to_string())
    );
    assert_eq!(respond(&args(&["--text", "Hi", "there"])), Ok("\\u0048\\u0069".to_string()));
}

#[test]
fn unicode_option_decodes() {
    assert_eq!(select(&args(&["-u", "x"])), Command::Decode);
    assert_eq!(select(&args(&["--unicode", "x"])), Command::Decode);
    assert_eq!(respond(&args(&["-u", "\\u{0048}\\u{0069}"])), Ok("Hi".to_string()));
    assert_eq!(respond(&args(&["--unicode", "plain"])), Ok("plain".to_string()));
}

#[test]
fn unicode_option_reports_a_bad_code_point() {
    assert_eq!(
        respond(&args(&["-u", "ab\\u{DABC}"])),
        Err(DecodeError::InvalidCodepoint { position: 2, code: 0xDABC })
    );
}

#[test]
fn help_option_prints_usage() {
    assert_eq!(select(&args(&["-h", "anything"])), Command::Help);
    assert_eq!(select(&args(&["--help", "a", "b"])), Command::Help);
    let text = respond(&args(&["-h", "anything"])).unwrap();
    assert_eq!(text, HELP_TEXT);
    assert!(text.contains("Usage: uniconvert [OPTION] [SOURCE]"));
    assert!(text.contains("-t, --text         Convert text to unicode"));
    assert!(text.contains("-u, --unicode      Convert unicode to text"));
    assert!(text.contains("-h, --help         Print help information"));
}

#[test]
fn unknown_option_is_named() {
    assert_eq!(select(&args(&["-x", "Hello"])), Command::UnknownOption);
    assert_eq!(respond(&args(&["-x", "Hello"])), Ok("Unknown option: -x".to_string()));
    assert_eq!(respond(&args(&["--Text", "Hello"])), Ok("Unknown option: --Text".to_string()));
    assert_eq!(respond(&args(&["", ""])), Ok("Unknown option: ".to_string()));
}

#[test]
fn options_by_either_name() {
    assert!(is_option(&"-t".to_string(), "-t", "--text"));
    assert!(is_option(&"--text".to_string(), "-t", "--text"));
    assert!(!is_option(&"-T".to_string(), "-t", "--text"));
    assert!(!is_option(&"-t ".to_string(), "-t", "--text"));
}
