//! Tests of command-line argument parsing.

use sarex::args::{parse_args, parse_flags, ArgsReadError, Command};

fn argv(parts: &[&str]) -> Vec<String> {
    parts.iter().map(|s| s.to_string()).collect()
}

#[test]
fn command_words() {
    assert_eq!(Command::new("dr"), Some(Command::DR));
    assert_eq!(Command::new("ci"), Some(Command::CI));
    assert_eq!(Command::new("conn"), Some(Command::Conn));
    assert_eq!(Command::new("Conn"), None);
    assert_eq!(Command::new(""), None);
}

#[test]
fn command_flags() {
    assert_eq!(Command::DR.get_flags(), ["-f", "-t"]);
    assert_eq!(Command::CI.get_flags(), ["-i", "-o"]);
    assert_eq!(Command::Conn.get_flags(), ["-i", "-o"]);
}

#[test]
fn parse_args_happy_path() {
    let (cmd, flags) = parse_args(argv(&["prog", "conn", "-i", "in.json", "-o", "out.json"]))
        .unwrap();
    assert_eq!(cmd, Command::Conn);
    assert_eq!(flags, vec!["in.json".to_string(), "out.json".to_string()]);
}

#[test]
fn parse_args_flags_in_either_order() {
    let (cmd, flags) = parse_args(argv(&["prog", "dr", "-t", "lib", "-f", "relations"])).unwrap();
    assert_eq!(cmd, Command::DR);
    // The first slot is always the command's first flag.
    assert_eq!(flags, vec!["relations".to_string(), "lib".to_string()]);
}

#[test]
fn parse_args_no_args() {
    assert_eq!(parse_args(argv(&["prog"])), Err(ArgsReadError::NoArgs));
    assert_eq!(parse_args(argv(&[])), Err(ArgsReadError::NoArgs));
}

#[test]
fn parse_args_too_few() {
    assert_eq!(
        parse_args(argv(&["prog", "conn", "-i", "x"])),
        Err(ArgsReadError::WrongCommandArgs)
    );
}

#[test]
fn parse_args_wrong_command() {
    assert_eq!(
        parse_args(argv(&["prog", "nope", "-i", "x", "-o", "y"])),
        Err(ArgsReadError::WrongCommand)
    );
}

#[test]
fn parse_args_missing_flag() {
    // A repeated flag leaves the other slot empty.
    assert_eq!(
        parse_args(argv(&["prog", "conn", "-i", "x", "-i", "y"])),
        Err(ArgsReadError::WrongCommandArgs)
    );
    // An unknown flag is ignored, which also leaves a slot empty.
    assert_eq!(
        parse_args(argv(&["prog", "conn", "-i", "x", "-z", "y"])),
        Err(ArgsReadError::WrongCommandArgs)
    );
}

#[test]
fn parse_args_empty_value_rejected() {
    assert_eq!(
        parse_args(argv(&["prog", "conn", "-i", "", "-o", "y"])),
        Err(ArgsReadError::WrongCommandArgs)
    );
}

#[test]
fn parse_args_too_many() {
    assert_eq!(
        parse_args(argv(&["prog", "conn", "-i", "x", "-o", "y", "-z", "w"])),
        Err(ArgsReadError::WrongCommandArgs)
    );
}

#[test]
fn parse_flags_direct() {
    let args = argv(&["-o", "out", "-i", "in"]);
    let parsed = parse_flags(["-i", "-o"], &args).unwrap();
    assert_eq!(parsed, vec!["in".to_string(), "out".to_string()]);

    let odd = argv(&["-i", "in", "-o"]);
    assert_eq!(
        parse_flags(["-i", "-o"], &odd),
        Err(ArgsReadError::WrongCommandArgs)
    );
}

#[test]
fn repeated_flag_keeps_later_value() {
    // Both pairs name the same flag: the second assignment wins for that
    // slot, and the other slot stays empty, so parsing fails.  With two
    // distinct pairs the later pair also wins its slot.
    let args = argv(&["-i", "first", "-i", "second"]);
    assert_eq!(
        parse_flags(["-i", "-o"], &args),
        Err(ArgsReadError::WrongCommandArgs)
    );
}

#[test]
fn error_messages() {
    assert_eq!(ArgsReadError::NoArgs.message(), "No arguments provided");
    assert_eq!(
        ArgsReadError::WrongCommand.message(),
        "Wrong command provided"
    );
    assert_eq!(
        ArgsReadError::WrongCommandArgs.message(),
        "Wrong command arguments provided"
    );
}
