//! The commands of a session and how a line of input is read as one.

use std::str::FromStr;
use vstd::prelude::*;
use crate::error::{unknown_argument_text, unknown_command_text, Error, ErrorView};
use crate::path::texts;
use crate::words::{split_words, words};

verus! {

/// A flag of `rm`.
#[derive(Debug, PartialEq, Eq)]
pub enum Argument {
    Force,
    Recursive,
}

/// What the user asks for.
#[derive(Debug, PartialEq, Eq)]
pub enum Command {
    /// `help`
    Help,
    /// `ls`
    Display,
    /// `cd <path>`
    Open(String),
    /// `mk <name>`
    Make(String),
    /// `mv`
    Move,
    /// `rm <name> <flag>...`
    Remove(String, Vec<Argument>),
    /// `exit`
    Exit,
}

/// A [`Command`] as a mathematical value.
pub enum CommandView {
    Help,
    Display,
    Open(Seq<char>),
    Make(Seq<char>),
    Move,
    Remove(Seq<char>, Seq<Argument>),
    Exit,
}

impl View for Command {
    type V = CommandView;

    open spec fn view(&self) -> CommandView {
        match self {
            Command::Help => CommandView::Help,
            Command::Display => CommandView::Display,
            Command::Open(path) => CommandView::Open(path@),
            Command::Make(name) => CommandView::Make(name@),
            Command::Move => CommandView::Move,
            Command::Remove(name, flags) => CommandView::Remove(name@, flags@),
            Command::Exit => CommandView::Exit,
        }
    }
}

/// The flag that `token` stands for: `-f` and `--force`, `-r` and
/// `--recursive`; any other token is an error that quotes it.
pub open spec fn argument_of(token: Seq<char>) -> Result<Argument, ErrorView> {
    if token == "-f"@ || token == "--force"@ {
        Ok(Argument::Force)
    } else if token == "-r"@ || token == "--recursive"@ {
        Ok(Argument::Recursive)
    } else {
        Err(ErrorView::ArgsNotRecognized(unknown_argument_text(token)))
    }
}

/// The flags that `tokens` stand for, in order, or the error of the first
/// token that is no flag.
pub open spec fn arguments_of(tokens: Seq<Seq<char>>) -> Result<Seq<Argument>, ErrorView>
    decreases tokens.len(),
{
    if tokens.len() == 0 {
        Ok(Seq::empty())
    } else {
        match argument_of(tokens[0]) {
            Err(e) => Err(e),
            Ok(flag) => match arguments_of(tokens.drop_first()) {
                Err(e) => Err(e),
                Ok(flags) => Ok(seq![flag] + flags),
            },
        }
    }
}

/// The command that a line made of `parts` stands for. `help`, `ls` and
/// `exit` stand alone; `cd` and `mk` take exactly one more word; `rm` takes a
/// name and at least one flag; `mv` is a command whatever follows it. Every
/// other line is an error.
pub open spec fn command_of(parts: Seq<Seq<char>>) -> Result<CommandView, ErrorView> {
    if parts.len() == 0 {
        Err(ErrorView::CommandNotRecognized(unknown_command_text()))
    } else if parts[0] == "help"@ && parts.len() == 1 {
        Ok(CommandView::Help)
    } else if parts[0] == "ls"@ && parts.len() == 1 {
        Ok(CommandView::Display)
    } else if parts[0] == "cd"@ && parts.len() == 2 {
        Ok(CommandView::Open(parts[1]))
    } else if parts[0] == "mk"@ && parts.len() == 2 {
        Ok(CommandView::Make(parts[1]))
    } else if parts[0] == "mv"@ {
        Ok(CommandView::Move)
    } else if parts[0] == "rm"@ && parts.len() > 2 {
        match arguments_of(parts.skip(2)) {
            Ok(flags) => Ok(CommandView::Remove(parts[1], flags)),
            Err(e) => Err(e),
        }
    } else if parts[0] == "exit"@ && parts.len() == 1 {
        Ok(CommandView::Exit)
    } else {
        Err(ErrorView::CommandNotRecognized(unknown_command_text()))
    }
}

/// Tells whether `text` reads `literal`.
fn reads(text: &String, literal: &str) -> (same: bool)
    ensures
        same == (text@ == literal@),
{
    let wanted: String = literal.to_owned();
    *text == wanted
}

impl FromStr for Argument {
    type Err = Error;

    /// Reads one flag of `rm`.
    fn from_str(token: &str) -> (r: Result<Argument, Error>)
        ensures
            match r {
                Ok(flag) => argument_of(token@) == Ok::<Argument, ErrorView>(flag),
                Err(e) => argument_of(token@) == Err::<Argument, ErrorView>(e@),
            },
    {
        let text: String = token.to_owned();
        if reads(&text, "-f") || reads(&text, "--force") {
            Ok(Argument::Force)
        } else if reads(&text, "-r") || reads(&text, "--recursive") {
            Ok(Argument::Recursive)
        } else {
            Err(Error::unknown_argument(token))
        }
    }
}

impl Argument {
    /// Reads the flags of `rm` from the words `parts[from..]`.
    fn parse_all(parts: &Vec<String>, from: usize) -> (r: Result<Vec<Argument>, Error>)
        requires
            from <= parts.len(),
        ensures
            match r {
                Ok(flags) => arguments_of(texts(parts@).skip(from as int)) == Ok::<
                    Seq<Argument>,
                    ErrorView,
                >(flags@),
                Err(e) => arguments_of(texts(parts@).skip(from as int)) == Err::<
                    Seq<Argument>,
                    ErrorView,
                >(e@),
            },
    {
        let ghost all = texts(parts@).skip(from as int);
        let mut flags: Vec<Argument> = Vec::new();
        let mut i: usize = from;
        assert(all.skip(0) == all);
        while i < parts.len()
            invariant
                from <= i <= parts.len(),
                all == texts(parts@).skip(from as int),
                arguments_of(all) == match arguments_of(all.skip(i - from)) {
                    Ok(rest) => Ok::<Seq<Argument>, ErrorView>(flags@ + rest),
                    Err(e) => Err(e),
                },
            decreases parts.len() - i,
        {
            let ghost rest = all.skip(i - from);
            proof {
                assert(rest.drop_first() == all.skip(i + 1 - from));
            }
            match Argument::from_str(parts[i].as_str()) {
                Ok(flag) => {
                    proof {
                        let ghost after = arguments_of(rest.drop_first());
                        if let Ok(more) = after {
                            assert(flags@ + (seq![flag] + more) == flags@.push(flag) + more);
                        }
                    }
                    flags.push(flag);
                },
                Err(e) => {
                    return Err(e);
                },
            }
            i += 1;
        }
        Ok(flags)
    }
}

impl Command {
    /// Reads a command from the words of a line.
    pub fn from_words(parts: &Vec<String>) -> (r: Result<Command, Error>)
        ensures
            match r {
                Ok(command) => command_of(texts(parts@)) == Ok::<CommandView, ErrorView>(command@),
                Err(e) => command_of(texts(parts@)) == Err::<CommandView, ErrorView>(e@),
            },
    {
        if parts.len() == 0 {
            return Err(Error::unknown_command());
        }
        let first: &String = &parts[0];
        if reads(first, "help") && parts.len() == 1 {
            Ok(Command::Help)
        } else if reads(first, "ls") && parts.len() == 1 {
            Ok(Command::Display)
        } else if reads(first, "cd") && parts.len() == 2 {
            Ok(Command::Open(parts[1].clone()))
        } else if reads(first, "mk") && parts.len() == 2 {
            Ok(Command::Make(parts[1].clone()))
        } else if reads(first, "mv") {
            Ok(Command::Move)
        } else if reads(first, "rm") && parts.len() > 2 {
            match Argument::parse_all(parts, 2) {
                Ok(flags) => Ok(Command::Remove(parts[1].clone(), flags)),
                Err(e) => Err(e),
            }
        } else if reads(first, "exit") && parts.len() == 1 {
            Ok(Command::Exit)
        } else {
            Err(Error::unknown_command())
        }
    }
}

impl FromStr for Command {
    type Err = Error;

    /// Reads a line of input as a command: the line is cut into words at
    /// whitespace, and the words are read by [`Command::from_words`].
    fn from_str(line: &str) -> (r: Result<Command, Error>)
        ensures
            match r {
                Ok(command) => command_of(words(line@)) == Ok::<CommandView, ErrorView>(command@),
                Err(e) => command_of(words(line@)) == Err::<CommandView, ErrorView>(e@),
            },
    {
        let parts: Vec<String> = split_words(line);
        Command::from_words(&parts)
    }
}

} // verus!
