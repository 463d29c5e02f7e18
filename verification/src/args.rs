//! Command-line argument parsing: the command word and its two flagged
//! values.

use vstd::prelude::*;

use crate::strings::str_eq;

verus! {

#[derive(Debug, PartialEq, Eq, Structural, Clone, Copy)]
pub enum ArgsReadError {
    NoArgs,
    WrongCommand,
    WrongCommandArgs,
}

#[derive(Debug, PartialEq, Eq, Structural, Clone, Copy)]
pub enum Command {
    DR,
    CI,
    Conn,
}

pub open spec fn strings_view(v: Seq<String>) -> Seq<Seq<char>> {
    v.map_values(|s: String| s@)
}

impl ArgsReadError {
    /// The user-facing description of the error.
    pub fn message(&self) -> (r: String)
        ensures
            *self == ArgsReadError::NoArgs ==> r@ == "No arguments provided"@,
            *self == ArgsReadError::WrongCommand ==> r@ == "Wrong command provided"@,
            *self == ArgsReadError::WrongCommandArgs ==> r@ == "Wrong command arguments provided"@,
    {
        match self {
            ArgsReadError::NoArgs => String::from_str("No arguments provided"),
            ArgsReadError::WrongCommand => String::from_str("Wrong command provided"),
            ArgsReadError::WrongCommandArgs => String::from_str("Wrong command arguments provided"),
        }
    }
}

/// The command a command word denotes.
pub open spec fn spec_command(s: Seq<char>) -> Option<Command> {
    if s == "dr"@ {
        Some(Command::DR)
    } else if s == "ci"@ {
        Some(Command::CI)
    } else if s == "conn"@ {
        Some(Command::Conn)
    } else {
        None
    }
}

/// The first flag of a command.
pub open spec fn spec_flag0(c: Command) -> Seq<char> {
    match c {
        Command::DR => "-f"@,
        Command::CI => "-i"@,
        Command::Conn => "-i"@,
    }
}

/// The second flag of a command.
pub open spec fn spec_flag1(c: Command) -> Seq<char> {
    match c {
        Command::DR => "-t"@,
        Command::CI => "-o"@,
        Command::Conn => "-o"@,
    }
}

/// Position of `x` among the two flags, first flag checked first.
pub open spec fn flag_pos(f0: Seq<char>, f1: Seq<char>, x: Seq<char>) -> Option<int> {
    if x == f0 {
        Some(0int)
    } else if x == f1 {
        Some(1int)
    } else {
        None
    }
}

/// The flag values parsed from exactly four arguments `flag value flag
/// value`: each pair is assigned to the slot of its flag (an unknown flag is
/// ignored, a repeated flag keeps its later value), and both slots must end
/// up non-empty.
pub open spec fn spec_parse_flags(f0: Seq<char>, f1: Seq<char>, rest: Seq<Seq<char>>) -> Result<
    Seq<Seq<char>>,
    ArgsReadError,
> {
    if rest.len() != 4 {
        Err(ArgsReadError::WrongCommandArgs)
    } else {
        let s0 = if flag_pos(f0, f1, rest[2]) == Some(0int) {
            rest[3]
        } else if flag_pos(f0, f1, rest[0]) == Some(0int) {
            rest[1]
        } else {
            Seq::empty()
        };
        let s1 = if flag_pos(f0, f1, rest[2]) == Some(1int) {
            rest[3]
        } else if flag_pos(f0, f1, rest[0]) == Some(1int) {
            rest[1]
        } else {
            Seq::empty()
        };
        if s0.len() == 0 || s1.len() == 0 {
            Err(ArgsReadError::WrongCommandArgs)
        } else {
            Ok(seq![s0, s1])
        }
    }
}

/// The parse of a full argument list (program name first): fewer than two
/// arguments is `NoArgs`, fewer than six is `WrongCommandArgs`, an unknown
/// command word is `WrongCommand`, and the rest is `spec_parse_flags` on the
/// command's flags.
pub open spec fn spec_parse_args(args: Seq<Seq<char>>) -> Result<
    (Command, Seq<Seq<char>>),
    ArgsReadError,
> {
    if args.len() < 2 {
        Err(ArgsReadError::NoArgs)
    } else if args.len() < 6 {
        Err(ArgsReadError::WrongCommandArgs)
    } else {
        match spec_command(args[1]) {
            None => Err(ArgsReadError::WrongCommand),
            Some(cmd) => match spec_parse_flags(spec_flag0(cmd), spec_flag1(cmd), args.skip(2)) {
                Ok(v) => Ok((cmd, v)),
                Err(e) => Err(e),
            },
        }
    }
}

impl Command {
    /// The command a command word denotes, if any.
    pub fn new(cmd_str: &str) -> (r: Option<Command>)
        ensures
            r == spec_command(cmd_str@),
    {
        if str_eq(cmd_str, "dr") {
            Some(Command::DR)
        } else if str_eq(cmd_str, "ci") {
            Some(Command::CI)
        } else if str_eq(cmd_str, "conn") {
            Some(Command::Conn)
        } else {
            None
        }
    }

    /// The two flags the command takes.
    pub fn get_flags(&self) -> (r: [&str; 2])
        ensures
            r@[0]@ == spec_flag0(*self),
            r@[1]@ == spec_flag1(*self),
    {
        match self {
            Command::DR => ["-f", "-t"],
            Command::CI => ["-i", "-o"],
            Command::Conn => ["-i", "-o"],
        }
    }
}

/// Assigns the four `flag value` arguments to the two flag slots, exactly as
/// `spec_parse_flags` states.
pub fn parse_flags(flags: [&str; 2], all_args: &[String]) -> (r: Result<
    Vec<String>,
    ArgsReadError,
>)
    ensures
        match r {
            Ok(v) => spec_parse_flags(flags@[0]@, flags@[1]@, strings_view(all_args@)) == Ok::<Seq<Seq<char>>, ArgsReadError>(
                strings_view(v@),
            ),
            Err(e) => spec_parse_flags(flags@[0]@, flags@[1]@, strings_view(all_args@)) == Err::<Seq<Seq<char>>, ArgsReadError>(e),
        },
{
    let n = all_args.len();
    if n % 2 != 0 || n / 2 != 2 {
        return Err(ArgsReadError::WrongCommandArgs);
    }
    proof {
        assert(strings_view(all_args@).len() == 4);
        assert(strings_view(all_args@)[0] == all_args@[0]@);
        assert(strings_view(all_args@)[1] == all_args@[1]@);
        assert(strings_view(all_args@)[2] == all_args@[2]@);
        assert(strings_view(all_args@)[3] == all_args@[3]@);
    }
    let mut a0 = String::new();
    let mut a1 = String::new();
    if str_eq(all_args[0].as_str(), flags[0]) {
        a0 = all_args[1].clone();
    } else if str_eq(all_args[0].as_str(), flags[1]) {
        a1 = all_args[1].clone();
    }
    if str_eq(all_args[2].as_str(), flags[0]) {
        a0 = all_args[3].clone();
    } else if str_eq(all_args[2].as_str(), flags[1]) {
        a1 = all_args[3].clone();
    }
    if a0.as_str().is_empty() || a1.as_str().is_empty() {
        return Err(ArgsReadError::WrongCommandArgs);
    }
    let mut out: Vec<String> = Vec::new();
    out.push(a0);
    out.push(a1);
    proof {
        assert(strings_view(out@) =~= seq![out@[0]@, out@[1]@]);
    }
    Ok(out)
}

/// Looks up the command named by the second argument and parses its flags
/// from the remaining four.
fn parse_cmd_and_flags(args: Vec<String>) -> (r: Result<(Command, Vec<String>), ArgsReadError>)
    requires
        args@.len() >= 6,
    ensures
        match r {
            Ok(p) => spec_parse_args(strings_view(args@)) == Ok::<(Command, Seq<Seq<char>>), ArgsReadError>((p.0, strings_view(p.1@))),
            Err(e) => spec_parse_args(strings_view(args@)) == Err::<(Command, Seq<Seq<char>>), ArgsReadError>(e),
        },
{
    proof {
        assert(strings_view(args@)[1] == args@[1]@);
    }
    let cmd = match Command::new(args[1].as_str()) {
        Some(cmd) => cmd,
        None => {
            return Err(ArgsReadError::WrongCommand);
        },
    };
    let tail = vstd::slice::slice_subrange(args.as_slice(), 2, args.len());
    proof {
        assert(strings_view(tail@) =~= strings_view(args@).skip(2));
    }
    match parse_flags(cmd.get_flags(), tail) {
        Ok(parsed) => Ok((cmd, parsed)),
        Err(e) => Err(e),
    }
}

/// Parses a full argument list into the command and its two flag values, as
/// `spec_parse_args` states.
pub fn parse_args(args: Vec<String>) -> (r: Result<(Command, Vec<String>), ArgsReadError>)
    ensures
        match r {
            Ok(p) => spec_parse_args(strings_view(args@)) == Ok::<(Command, Seq<Seq<char>>), ArgsReadError>((p.0, strings_view(p.1@))),
            Err(e) => spec_parse_args(strings_view(args@)) == Err::<(Command, Seq<Seq<char>>), ArgsReadError>(e),
        },
{
    if args.len() < 2 {
        Err(ArgsReadError::NoArgs)
    } else if args.len() < 6 {
        Err(ArgsReadError::WrongCommandArgs)
    } else {
        parse_cmd_and_flags(args)
    }
}

} // verus!
