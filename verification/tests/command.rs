use doky::command::{Argument, Command};
use doky::error::Error;
use std::str::FromStr;

#[test]
fn command_not_recognized() {
    let res = Command::from_str("unknowncmd");
    assert!(res.is_err());
    assert_eq!(
        res.unwrap_err(),
        Error::CommandNotRecognized("Command not recognized")
    );
}

#[test]
fn command_help() {
    let res = Command::from_str("help");
    assert!(res.is_ok());
    assert_eq!(res.unwrap(), Command::Help);
}

#[test]
fn command_exit() {
    let res = Command::from_str("exit");
    assert!(res.is_ok());
    assert_eq!(res.unwrap(), Command::Exit);
}

#[test]
fn command_ls() {
    assert_eq!(Command::from_str("ls"), Ok(Command::Display));
}

#[test]
fn command_without_arguments_stands_alone() {
    for line in ["help me", "ls docs", "exit now", "exit -f"] {
        assert_eq!(
            Command::from_str(line),
            Err(Error::CommandNotRecognized("Command not recognized"))
        );
    }
}

#[test]
fn command_mv() {
    assert_eq!(Command::from_str("mv"), Ok(Command::Move));
    assert_eq!(Command::from_str("mv a b"), Ok(Command::Move));
}

#[test]
fn command_cd_takes_one_path() {
    assert_eq!(
        Command::from_str("cd first/sub_first"),
        Ok(Command::Open("first/sub_first".to_string()))
    );
    assert_eq!(
        Command::from_str("cd"),
        Err(Error::CommandNotRecognized("Command not recognized"))
    );
    assert_eq!(
        Command::from_str("cd a b"),
        Err(Error::CommandNotRecognized("Command not recognized"))
    );
}

#[test]
fn command_mk_takes_one_name() {
    assert_eq!(
        Command::from_str("mk docs"),
        Ok(Command::Make("docs".to_string()))
    );
    assert_eq!(
        Command::from_str("mk"),
        Err(Error::CommandNotRecognized("Command not recognized"))
    );
    assert_eq!(
        Command::from_str("mk a b"),
        Err(Error::CommandNotRecognized("Command not recognized"))
    );
}

#[test]
fn command_rm_with_flags() {
    assert_eq!(
        Command::from_str("rm docs -f"),
        Ok(Command::Remove("docs".to_string(), vec![Argument::Force]))
    );
    assert_eq!(
        Command::from_str("rm docs --recursive -f -r --force"),
        Ok(Command::Remove(
            "docs".to_string(),
            vec![
                Argument::Recursive,
                Argument::Force,
                Argument::Recursive,
                Argument::Force
            ]
        ))
    );
}

#[test]
fn command_rm_needs_a_flag() {
    assert_eq!(
        Command::from_str("rm docs"),
        Err(Error::CommandNotRecognized("Command not recognized"))
    );
    assert_eq!(
        Command::from_str("rm"),
        Err(Error::CommandNotRecognized("Command not recognized"))
    );
}

#[test]
fn command_rm_unknown_flag() {
    assert_eq!(
        Command::from_str("rm docs -x"),
        Err(Error::ArgsNotRecognized(
            "Argument -x not recognized".to_string()
        ))
    );
    // the first token that is no flag is the one reported
    assert_eq!(
        Command::from_str("rm docs -f one two"),
        Err(Error::ArgsNotRecognized(
            "Argument one not recognized".to_string()
        ))
    );
}

#[test]
fn command_is_case_sensitive() {
    assert_eq!(
        Command::from_str("Help"),
        Err(Error::CommandNotRecognized("Command not recognized"))
    );
    assert_eq!(
        Command::from_str("rm docs -F"),
        Err(Error::ArgsNotRecognized(
            "Argument -F not recognized".to_string()
        ))
    );
}

#[test]
fn command_empty_line() {
    assert_eq!(
        Command::from_str(""),
        Err(Error::CommandNotRecognized("Command not recognized"))
    );
    assert_eq!(
        Command::from_str("  \t "),
        Err(Error::CommandNotRecognized("Command not recognized"))
    );
}

#[test]
fn command_words_are_cut_at_any_whitespace() {
    assert_eq!(
        Command::from_str("  cd \t docs  "),
        Ok(Command::Open("docs".to_string()))
    );
    assert_eq!(
        Command::from_str("mk\u{a0}docs\n"),
        Ok(Command::Make("docs".to_string()))
    );
    assert_eq!(
        Command::from_str("\u{3000}exit"),
        Ok(Command::Exit)
    );
    // an underscore is no whitespace: one word, and no command
    assert_eq!(
        Command::from_str("mk_docs"),
        Err(Error::CommandNotRecognized("Command not recognized"))
    );
}

#[test]
fn command_from_words() {
    let words = vec!["cd".to_string(), "a b".to_string()];
    assert_eq!(
        Command::from_words(&words),
        Ok(Command::Open("a b".to_string()))
    );
    let none: Vec<String> = Vec::new();
    assert_eq!(
        Command::from_words(&none),
        Err(Error::CommandNotRecognized("Command not recognized"))
    );
}

#[test]
fn argument_tokens() {
    assert_eq!(Argument::from_str("-f"), Ok(Argument::Force));
    assert_eq!(Argument::from_str("--force"), Ok(Argument::Force));
    assert_eq!(Argument::from_str("-r"), Ok(Argument::Recursive));
    assert_eq!(Argument::from_str("--recursive"), Ok(Argument::Recursive));
    assert_eq!(
        Argument::from_str("--forced"),
        Err(Error::ArgsNotRecognized(
            "Argument --forced not recognized".to_string()
        ))
    );
    assert_eq!(
        Argument::from_str(""),
        Err(Error::ArgsNotRecognized(
            "Argument  not recognized".to_string()
        ))
    );
}

#[test]
fn error_variants_are_told_apart() {
    assert_ne!(Error::NotFound("Folder not found"), Error::InvalidName("Folder not found"));
    assert_ne!(Error::InvalidPath, Error::InvalidParent);
    assert_eq!(
        "FolderNotEmpty(\"Folder a is not empty\")",
        format!("{:?}", Error::folder_not_empty("a"))
    );
    assert_eq!(Error::InvalidName("Invalid folder name"), Error::invalid_name());
    assert_eq!(Error::InvalidName("Folder not found"), Error::not_found());
    assert_eq!(
        Error::CommandNotRecognized("Command not recognized"),
        Error::unknown_command()
    );
    assert_eq!(
        Error::ArgsNotRecognized("Argument -x not recognized".to_string()),
        Error::unknown_argument("-x")
    );
}
