//! The errors of a session, and the texts they carry.

use vstd::prelude::*;

verus! {

/// Why an operation on the folder tree, or the reading of a command, failed.
#[derive(Debug, PartialEq, Eq)]
pub enum Error {
    /// A path segment names no child of the folder reached so far.
    InvalidPath,
    /// `..` was asked for at the root, or a folder handle did not resolve.
    InvalidParent,
    /// The input line is not a command.
    CommandNotRecognized(&'static str),
    /// A named folder does not exist.
    NotFound(&'static str),
    /// A folder name is not acceptable, or names no child to remove.
    InvalidName(&'static str),
    /// The folder to remove still has children.
    FolderNotEmpty(String),
    /// A token after `rm <name>` is not a known flag.
    ArgsNotRecognized(String),
}

/// An [`Error`] as a mathematical value: the texts are sequences of characters.
pub enum ErrorView {
    InvalidPath,
    InvalidParent,
    CommandNotRecognized(Seq<char>),
    NotFound(Seq<char>),
    InvalidName(Seq<char>),
    FolderNotEmpty(Seq<char>),
    ArgsNotRecognized(Seq<char>),
}

impl View for Error {
    type V = ErrorView;

    open spec fn view(&self) -> ErrorView {
        match self {
            Error::InvalidPath => ErrorView::InvalidPath,
            Error::InvalidParent => ErrorView::InvalidParent,
            Error::CommandNotRecognized(m) => ErrorView::CommandNotRecognized(m@),
            Error::NotFound(m) => ErrorView::NotFound(m@),
            Error::InvalidName(m) => ErrorView::InvalidName(m@),
            Error::FolderNotEmpty(m) => ErrorView::FolderNotEmpty(m@),
            Error::ArgsNotRecognized(m) => ErrorView::ArgsNotRecognized(m@),
        }
    }
}

/// A result as a mathematical value: the error, if any, by its view.
pub open spec fn result_view<T>(r: Result<T, Error>) -> Result<T, ErrorView> {
    match r {
        Ok(t) => Ok(t),
        Err(e) => Err(e@),
    }
}

/// The text carried by the error for a name that `is_valid_name` refuses.
pub open spec fn invalid_name_text() -> Seq<char> {
    "Invalid folder name"@
}

/// The text carried by the error for a removal that finds no such child.
pub open spec fn not_found_text() -> Seq<char> {
    "Folder not found"@
}

/// The text carried by the error for removing the non-empty folder `name`.
pub open spec fn not_empty_text(name: Seq<char>) -> Seq<char> {
    "Folder "@ + name + " is not empty"@
}

/// The text carried by the error for a line that is no command.
pub open spec fn unknown_command_text() -> Seq<char> {
    "Command not recognized"@
}

/// The text carried by the error for `token`, which is no flag of `rm`.
pub open spec fn unknown_argument_text(token: Seq<char>) -> Seq<char> {
    "Argument "@ + token + " not recognized"@
}

impl Error {
    /// The error for a name that `is_valid_name` refuses.
    pub fn invalid_name() -> (e: Error)
        ensures
            e@ == ErrorView::InvalidName(invalid_name_text()),
    {
        Error::InvalidName("Invalid folder name")
    }

    /// The error for a removal that finds no child of the given name.
    pub fn not_found() -> (e: Error)
        ensures
            e@ == ErrorView::InvalidName(not_found_text()),
    {
        Error::InvalidName("Folder not found")
    }

    /// The error for removing `name` while it still has children.
    pub fn folder_not_empty(name: &str) -> (e: Error)
        ensures
            e@ == ErrorView::FolderNotEmpty(not_empty_text(name@)),
    {
        let mut text: String = String::from_str("Folder ");
        text.append(name);
        text.append(" is not empty");
        Error::FolderNotEmpty(text)
    }

    /// The error for an input line that is no command.
    pub fn unknown_command() -> (e: Error)
        ensures
            e@ == ErrorView::CommandNotRecognized(unknown_command_text()),
    {
        Error::CommandNotRecognized("Command not recognized")
    }

    /// The error for `token`, which is no flag of `rm`.
    pub fn unknown_argument(token: &str) -> (e: Error)
        ensures
            e@ == ErrorView::ArgsNotRecognized(unknown_argument_text(token@)),
    {
        let mut text: String = String::from_str("Argument ");
        text.append(token);
        text.append(" not recognized");
        Error::ArgsNotRecognized(text)
    }
}

} // verus!
