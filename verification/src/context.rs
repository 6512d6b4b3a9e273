//! Context for a conversation, loaded before a run.

use crate::error::AgentError;
use crate::message::Message;
use crate::views;
use vstd::prelude::*;

verus! {

/// Context that a loader produces.
#[derive(Debug)]
pub struct LoadedContext {
    /// Text appended to the system prompt.
    pub system: Option<String>,
    /// Messages put before the conversation.
    pub messages: Vec<Message>,
}

/// A loader that takes a UTF-8 file as a fragment of the system prompt.
#[derive(Debug, Clone)]
pub struct FsContextLoader {
    path: String,
}

impl FsContextLoader {
    /// The path of the file.
    pub closed spec fn file(self) -> Seq<char> {
        self.path@
    }

    /// A loader for the file at `path`.
    pub fn new(path: String) -> (loader: Self)
        ensures
            loader.file() == path@,
    {
        FsContextLoader { path }
    }

    /// The path of the file to read.
    pub fn path(&self) -> (path: &str)
        ensures
            path@ == self.file(),
    {
        self.path.as_str()
    }

    /// The context that reading the file gave: its text, or the error.
    pub fn loaded(&self, read: Result<String, String>) -> (context: Result<
        LoadedContext,
        AgentError,
    >)
        ensures
            match (read, context) {
                (Ok(content), Ok(c)) => views::optional(c.system) == Some(content@)
                    && c.messages@.len() == 0,
                (Err(e), Err(AgentError::Skill(message))) => message@ == "context file "@
                    + self.file() + ": "@ + e@,
                _ => false,
            },
    {
        match read {
            Ok(content) => Ok(LoadedContext { system: Some(content), messages: Vec::new() }),
            Err(e) => {
                let mut message = "context file ".to_owned();
                message.append(self.path.as_str());
                message.append(": ");
                message.append(e.as_str());
                Err(AgentError::Skill(message))
            },
        }
    }
}

} // verus!
