//! An in-memory folder tree with a movable "current folder", and the small
//! command language that drives it.
//!
//! - [`folder`] holds the tree ([`folder::FolderCursor`]) and the session
//!   that moves through it ([`folder::Folder`]).
//! - [`model`] says what the tree is as a mathematical value and what each
//!   operation does to it; the contracts of [`folder`] are stated over it.
//! - [`laws`] proves what holds of every session.
//! - [`path`] and [`words`] cut a text into path segments and into words.
//! - [`command`] reads a line of input as a command, [`error`] lists what can
//!   go wrong.

use vstd::prelude::*;
use crate::command::Argument;
use crate::error::{result_view, Error};
use crate::model::FolderModel;

pub mod command;
pub mod error;
pub mod folder;
pub mod laws;
pub mod model;
pub mod path;
pub mod words;

verus! {

/// A position in a folder tree that can be moved and from which children can
/// be removed. Its view is the session it stands for.
pub trait Node: View<V = FolderModel> {
    /// Moves along `path`, or stays and says why not.
    fn open(&mut self, path: String) -> (r: Result<(), Error>)
        requires
            old(self)@.wf(),
        ensures
            final(self)@.wf(),
            old(self)@.open(path@) == (final(self)@, result_view(r)),
    ;

    /// Removes the child called `name`, or changes nothing and says why not.
    fn remove(&mut self, name: String, arguments: Vec<Argument>) -> (r: Result<(), Error>)
        requires
            old(self)@.wf(),
        ensures
            final(self)@.wf(),
            old(self)@.remove(name@) == (final(self)@, result_view(r)),
    ;
}

} // verus!
