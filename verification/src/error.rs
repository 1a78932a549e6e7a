//! Error type shared by the library.

use vstd::prelude::*;

verus! {

/// Errors returned by the issue tracker.
#[derive(Debug, Clone, PartialEq, Eq)]
pub enum TaskulusError {
    /// Initialization failed due to user-facing validation.
    Initialization(String),
    /// An unexpected IO error occurred.
    Io(String),
    /// Issue ID generation failed.
    IdGenerationFailed(String),
    /// Configuration loading or validation failed.
    Configuration(String),
    /// Workflow transition validation failed.
    InvalidTransition(String),
    /// Hierarchy validation failed.
    InvalidHierarchy(String),
    /// Issue operation failed.
    IssueOperation(String),
    /// Daemon protocol negotiation failed.
    ProtocolError(String),
}

/// The name used throughout the library for its error type.
pub type KanbusError = TaskulusError;

impl TaskulusError {
    /// The message carried by an error, whatever its kind.
    pub open spec fn message_view(&self) -> Seq<char> {
        match self {
            TaskulusError::Initialization(m) => m@,
            TaskulusError::Io(m) => m@,
            TaskulusError::IdGenerationFailed(m) => m@,
            TaskulusError::Configuration(m) => m@,
            TaskulusError::InvalidTransition(m) => m@,
            TaskulusError::InvalidHierarchy(m) => m@,
            TaskulusError::IssueOperation(m) => m@,
            TaskulusError::ProtocolError(m) => m@,
        }
    }

    /// Render the error as text: the message itself, whatever the kind.
    pub fn to_message(&self) -> (text: String)
        ensures
            text@ == self.message_view(),
    {
        match self {
            TaskulusError::Initialization(m) => m.clone(),
            TaskulusError::Io(m) => m.clone(),
            TaskulusError::IdGenerationFailed(m) => m.clone(),
            TaskulusError::Configuration(m) => m.clone(),
            TaskulusError::InvalidTransition(m) => m.clone(),
            TaskulusError::InvalidHierarchy(m) => m.clone(),
            TaskulusError::IssueOperation(m) => m.clone(),
            TaskulusError::ProtocolError(m) => m.clone(),
        }
    }
}

impl TaskulusError {
    /// A copy of the error.
    pub fn duplicate(&self) -> (r: Self)
        ensures
            r == *self,
    {
        match self {
            TaskulusError::Initialization(m) => TaskulusError::Initialization(m.clone()),
            TaskulusError::Io(m) => TaskulusError::Io(m.clone()),
            TaskulusError::IdGenerationFailed(m) => TaskulusError::IdGenerationFailed(m.clone()),
            TaskulusError::Configuration(m) => TaskulusError::Configuration(m.clone()),
            TaskulusError::InvalidTransition(m) => TaskulusError::InvalidTransition(m.clone()),
            TaskulusError::InvalidHierarchy(m) => TaskulusError::InvalidHierarchy(m.clone()),
            TaskulusError::IssueOperation(m) => TaskulusError::IssueOperation(m.clone()),
            TaskulusError::ProtocolError(m) => TaskulusError::ProtocolError(m.clone()),
        }
    }
}

} // verus!
