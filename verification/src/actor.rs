//! The messages between the language server and the query system, and
//! the actors that exchange them.
use vstd::prelude::*;

use languageserver_types::{Position, Range};
use std::collections::VecDeque;
use url::Url;

verus! {

#[verifier::external_type_specification]
#[verifier::external_body]
pub struct ExUrl(url::Url);

#[verifier::external_type_specification]
#[verifier::external_body]
pub struct ExPosition(languageserver_types::Position);

#[verifier::external_type_specification]
#[verifier::external_body]
pub struct ExRange(languageserver_types::Range);

pub type TaskId = usize;

/// Requests to the query system.
#[derive(Debug)]
pub enum QueryRequest {
    TypeAtPosition(TaskId, Url, Position),
    DefinitionAtPosition(TaskId, Url, Position),
    ReferencesAtPosition(TaskId, Url, Position, bool),
    OpenFile(Url, String),
    EditFile(Url, Vec<(Range, String)>),
    Initialize(TaskId),
}

impl QueryRequest {
    /// The request changes the state of the program.
    pub open spec fn mutates(&self) -> bool {
        ||| self is OpenFile
        ||| self is EditFile
        ||| self is Initialize
    }

    /// True if this query will cause us to mutate the state of the
    /// program.
    pub fn is_mutation(&self) -> (r: bool)
        ensures
            r == self.mutates(),
    {
        match self {
            QueryRequest::OpenFile(..) | QueryRequest::EditFile(..) | QueryRequest::Initialize(..) => true,
            QueryRequest::TypeAtPosition(..) => false,
            QueryRequest::DefinitionAtPosition(..) => false,
            QueryRequest::ReferencesAtPosition(..) => false,
        }
    }
}

/// Responses back to the LSP services from the query system.
pub enum LspResponse {
    Type(TaskId, String),
    Range(TaskId, Url, Range),
    Ranges(TaskId, Vec<(Url, Range)>),
    Completions(TaskId, Vec<(String, String)>),
    Initialized(TaskId),
    Nothing(TaskId),
    Diagnostics(Url, Vec<(Range, String)>),
}

/// An actor in the task system: a worker that handles the messages that
/// have arrived for it.
pub trait Actor {
    type InMessage;

    /// Invoked with the messages that can be pulled at this time. The
    /// actor may handle as many as it likes (typically one, popped from the
    /// front); it is called again while messages remain.
    fn receive_messages(&mut self, messages: &mut VecDeque<Self::InMessage>);
}

} // verus!
