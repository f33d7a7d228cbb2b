//! The error policy of the store.
//!
//! Every failure of the engine is one of four kinds: a malformed identifier,
//! a creation target that already exists, a missing path or missing parent
//! category, or a node of the wrong kind for the requested operation. The
//! variants keep the operation-specific wording apart; [`TicketError::kind`]
//! collapses them back to the four kinds.
use vstd::prelude::*;

verus! {

/// A failure of a store operation.
#[derive(Debug, PartialEq, Eq)]
pub enum TicketError {
    /// The identifier does not contain exactly one separator; carries the
    /// offending identifier.
    InvalidIdentifier(String),
    /// `create` was asked for a path that is already there.
    AlreadyExists,
    /// The storage root was to be initialized a second time.
    RootAlreadyExists,
    /// A ticket was to be created under a category that does not exist.
    CategoryNotFound,
    /// The addressed path is not in the store.
    NotFound,
    /// `edit` was asked to rewrite a category.
    CategoryNotEditable,
    /// A listing was asked of a ticket node.
    NotADirectory,
    /// A whole-category move was given a ticket as its source.
    SourceNotADirectory,
    /// A whole-category move was given a ticket as its destination.
    DestinationNotADirectory,
}

/// The mathematical image of a [`TicketError`]: the identifier payload as a
/// sequence of characters.
pub enum ErrorV {
    InvalidIdentifier(Seq<char>),
    AlreadyExists,
    RootAlreadyExists,
    CategoryNotFound,
    NotFound,
    CategoryNotEditable,
    NotADirectory,
    SourceNotADirectory,
    DestinationNotADirectory,
}

impl View for TicketError {
    type V = ErrorV;

    open spec fn view(&self) -> ErrorV {
        match self {
            TicketError::InvalidIdentifier(id) => ErrorV::InvalidIdentifier(id@),
            TicketError::AlreadyExists => ErrorV::AlreadyExists,
            TicketError::RootAlreadyExists => ErrorV::RootAlreadyExists,
            TicketError::CategoryNotFound => ErrorV::CategoryNotFound,
            TicketError::NotFound => ErrorV::NotFound,
            TicketError::CategoryNotEditable => ErrorV::CategoryNotEditable,
            TicketError::NotADirectory => ErrorV::NotADirectory,
            TicketError::SourceNotADirectory => ErrorV::SourceNotADirectory,
            TicketError::DestinationNotADirectory => ErrorV::DestinationNotADirectory,
        }
    }
}

/// The four kinds of failure the design distinguishes.
#[derive(PartialEq, Eq, Structural, Clone, Copy, Debug)]
pub enum ErrorKind {
    InvalidIdentifier,
    AlreadyExists,
    NotFound,
    InvalidInput,
}

/// The kind of an error value.
pub open spec fn spec_kind(e: ErrorV) -> ErrorKind {
    match e {
        ErrorV::InvalidIdentifier(_) => ErrorKind::InvalidIdentifier,
        ErrorV::AlreadyExists => ErrorKind::AlreadyExists,
        ErrorV::RootAlreadyExists => ErrorKind::AlreadyExists,
        ErrorV::CategoryNotFound => ErrorKind::NotFound,
        ErrorV::NotFound => ErrorKind::NotFound,
        ErrorV::CategoryNotEditable => ErrorKind::InvalidInput,
        ErrorV::NotADirectory => ErrorKind::InvalidInput,
        ErrorV::SourceNotADirectory => ErrorKind::InvalidInput,
        ErrorV::DestinationNotADirectory => ErrorKind::InvalidInput,
    }
}

/// The human-readable sentence for an error value.
pub open spec fn spec_message(e: ErrorV) -> Seq<char> {
    match e {
        ErrorV::InvalidIdentifier(id) => "Invalid identifier "@ + id,
        ErrorV::AlreadyExists => "The path already exists."@,
        ErrorV::RootAlreadyExists => "The root ~/.tickets already exists."@,
        ErrorV::CategoryNotFound => "The category does not exist."@,
        ErrorV::NotFound => "The path does not exist."@,
        ErrorV::CategoryNotEditable => "The category cannot be edited."@,
        ErrorV::NotADirectory => "A path for the file is given, expected a directory."@,
        ErrorV::SourceNotADirectory => (
            "The source path for the file is given, expected a directory."@
        ),
        ErrorV::DestinationNotADirectory => (
            "The destination path for the file is given, expected a directory."@
        ),
    }
}

impl TicketError {
    /// Which of the four kinds this error belongs to.
    pub fn kind(&self) -> (k: ErrorKind)
        ensures
            k == spec_kind(self@),
    {
        match self {
            TicketError::InvalidIdentifier(_) => ErrorKind::InvalidIdentifier,
            TicketError::AlreadyExists => ErrorKind::AlreadyExists,
            TicketError::RootAlreadyExists => ErrorKind::AlreadyExists,
            TicketError::CategoryNotFound => ErrorKind::NotFound,
            TicketError::NotFound => ErrorKind::NotFound,
            TicketError::CategoryNotEditable => ErrorKind::InvalidInput,
            TicketError::NotADirectory => ErrorKind::InvalidInput,
            TicketError::SourceNotADirectory => ErrorKind::InvalidInput,
            TicketError::DestinationNotADirectory => ErrorKind::InvalidInput,
        }
    }

    /// The sentence the command line prints for this error.
    pub fn message(&self) -> (m: String)
        ensures
            m@ == spec_message(self@),
    {
        match self {
            TicketError::InvalidIdentifier(id) => {
                let mut m = String::from_str("Invalid identifier ");
                m.append(id.as_str());
                m
            },
            TicketError::AlreadyExists => String::from_str("The path already exists."),
            TicketError::RootAlreadyExists => {
                String::from_str("The root ~/.tickets already exists.")
            },
            TicketError::CategoryNotFound => String::from_str("The category does not exist."),
            TicketError::NotFound => String::from_str("The path does not exist."),
            TicketError::CategoryNotEditable => {
                String::from_str("The category cannot be edited.")
            },
            TicketError::NotADirectory => {
                String::from_str("A path for the file is given, expected a directory.")
            },
            TicketError::SourceNotADirectory => {
                String::from_str("The source path for the file is given, expected a directory.")
            },
            TicketError::DestinationNotADirectory => {
                String::from_str(
                    "The destination path for the file is given, expected a directory.",
                )
            },
        }
    }
}

} // verus!
