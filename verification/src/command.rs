//! The slash commands that users type, as the server and the client read them.
use vstd::prelude::*;
use crate::text::str_equal;

verus! {

/// A command that the server acts on.
#[derive(Debug, Clone, Copy, PartialEq, Eq, Structural)]
pub enum ServerCommand {
    Close,
    ViewMessages,
    ViewHistory,
    ViewKey,
    ChangeColor,
    Invalid,
}

/// The server command that a line of text names.
pub open spec fn server_command_spec(s: Seq<char>) -> ServerCommand {
    if s == "/close"@ {
        ServerCommand::Close
    } else if s == "/view-messages"@ {
        ServerCommand::ViewMessages
    } else if s == "/view-key"@ {
        ServerCommand::ViewKey
    } else if s == "/view-history"@ {
        ServerCommand::ViewHistory
    } else if s == "/change-color"@ {
        ServerCommand::ChangeColor
    } else {
        ServerCommand::Invalid
    }
}

impl ServerCommand {
    /// Reads a server command; any other text is `Invalid`.
    pub fn from_str(command: &str) -> (res: ServerCommand)
        ensures
            res == server_command_spec(command@),
    {
        if str_equal(command, "/close") {
            ServerCommand::Close
        } else if str_equal(command, "/view-messages") {
            ServerCommand::ViewMessages
        } else if str_equal(command, "/view-key") {
            ServerCommand::ViewKey
        } else if str_equal(command, "/view-history") {
            ServerCommand::ViewHistory
        } else if str_equal(command, "/change-color") {
            ServerCommand::ChangeColor
        } else {
            ServerCommand::Invalid
        }
    }
}

/// A command that the client acts on by itself.
#[derive(Debug, Clone, Copy, PartialEq, Eq, Structural)]
pub enum ClientCommand {
    Quit,
    ToogleColor,
    Help,
    Invalid,
}

/// The client command that a line of text names.
pub open spec fn client_command_spec(s: Seq<char>) -> ClientCommand {
    if s == "/quit"@ {
        ClientCommand::Quit
    } else if s == "/toggle-color"@ {
        ClientCommand::ToogleColor
    } else if s == "/help"@ {
        ClientCommand::Help
    } else {
        ClientCommand::Invalid
    }
}

impl ClientCommand {
    /// Reads a client command; any other text is `Invalid`.
    pub fn from_str(command: &str) -> (res: ClientCommand)
        ensures
            res == client_command_spec(command@),
    {
        if str_equal(command, "/quit") {
            ClientCommand::Quit
        } else if str_equal(command, "/toggle-color") {
            ClientCommand::ToogleColor
        } else if str_equal(command, "/help") {
            ClientCommand::Help
        } else {
            ClientCommand::Invalid
        }
    }
}

} // verus!
