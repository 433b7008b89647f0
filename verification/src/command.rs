//! The commands that the control channel carries.

use vstd::prelude::*;

verus! {

/// An instruction for the server, sent over the command channel.
#[derive(Debug, PartialEq, Eq)]
pub enum Command {
    /// Store `value` under `key`, in place of what was there.
    Add { key: String, value: String },
    /// Take `key` out of the store.
    Remove { key: String },
    /// Hand back a snapshot of the store.
    List,
    /// Write a snapshot of the store to the durable file.
    Persist,
}

/// A command as mathematics: its texts as sequences of characters.
pub enum CommandView {
    Add { key: Seq<char>, value: Seq<char> },
    Remove { key: Seq<char> },
    List,
    Persist,
}

impl View for Command {
    type V = CommandView;

    open spec fn view(&self) -> CommandView {
        match self {
            Command::Add { key, value } => CommandView::Add { key: key@, value: value@ },
            Command::Remove { key } => CommandView::Remove { key: key@ },
            Command::List => CommandView::List,
            Command::Persist => CommandView::Persist,
        }
    }
}

impl Clone for Command {
    fn clone(&self) -> (copy: Command)
        ensures
            copy == *self,
    {
        match self {
            Command::Add { key, value } => Command::Add { key: key.clone(), value: value.clone() },
            Command::Remove { key } => Command::Remove { key: key.clone() },
            Command::List => Command::List,
            Command::Persist => Command::Persist,
        }
    }
}

} // verus!
