//! Parser errors and warnings.
use vstd::prelude::*;
use crate::attribute::{AttributeError, AttributeType};
use crate::low::LowError;
use crate::reader::IoError;

verus! {

/// A compression format.
#[derive(Debug, Clone, Copy, PartialEq, Eq, Structural)]
pub enum Compression {
    Zlib,
}

/// Violations of the wire format.
#[derive(Debug, Clone, Copy, PartialEq, Eq, Structural)]
pub enum DataError {
    /// A compressed payload that does not decompress.
    BrokenCompression(Compression),
    /// A footer that does not have the expected shape.
    BrokenFbxFooter,
    /// An array encoding other than 0 or 1.
    InvalidArrayAttributeEncoding(u32),
    /// An unknown attribute type code.
    InvalidAttributeTypeCode(u8),
    /// A node name that is not UTF-8.
    InvalidNodeNameEncoding,
    /// An attribute whose payload could not be decoded.
    NodeAttributeError,
    /// A node that does not end where its header says: expected, actual.
    NodeLengthMismatch(u64, Option<u64>),
    /// An attribute of another type than a loader accepts: expected, actual.
    UnexpectedAttribute(AttributeType, AttributeType),
}

/// Misuse of the parser.
#[derive(Debug, Clone, Copy, PartialEq, Eq, Structural)]
pub enum OperationError {
    /// Parsing was aborted before.
    AlreadyAborted,
    /// Parsing has finished.
    AlreadyFinished,
    /// The file's version is not one the parser reads.
    UnsupportedFbxVersion(u32),
}

/// Recoverable anomalies.
#[derive(Debug, Clone, Copy, PartialEq, Eq, Structural)]
pub enum Warning {
    EmptyNodeName,
    ExtraNodeEndMarker,
    IncorrectBooleanRepresentation,
    /// Expected and actual padding lengths.
    InvalidFooterPaddingLength(u64, u64),
    MissingNodeEndMarker,
    UnexpectedFooterFieldValue,
}

impl Warning {
    /// Whether two warnings are of the same kind, whatever they carry.
    pub open spec fn spec_same_kind(self, o: Warning) -> bool {
        match (self, o) {
            (Warning::EmptyNodeName, Warning::EmptyNodeName) => true,
            (Warning::ExtraNodeEndMarker, Warning::ExtraNodeEndMarker) => true,
            (Warning::IncorrectBooleanRepresentation, Warning::IncorrectBooleanRepresentation) => true,
            (Warning::InvalidFooterPaddingLength(_, _), Warning::InvalidFooterPaddingLength(_, _)) => true,
            (Warning::MissingNodeEndMarker, Warning::MissingNodeEndMarker) => true,
            (Warning::UnexpectedFooterFieldValue, Warning::UnexpectedFooterFieldValue) => true,
            _ => false,
        }
    }

    /// Whether two warnings are of the same kind, whatever they carry.
    pub fn same_kind(&self, o: &Warning) -> (r: bool)
        ensures
            r == self.spec_same_kind(*o),
    {
        match (self, o) {
            (Warning::EmptyNodeName, Warning::EmptyNodeName) => true,
            (Warning::ExtraNodeEndMarker, Warning::ExtraNodeEndMarker) => true,
            (Warning::IncorrectBooleanRepresentation, Warning::IncorrectBooleanRepresentation) => true,
            (Warning::InvalidFooterPaddingLength(_, _), Warning::InvalidFooterPaddingLength(_, _)) => true,
            (Warning::MissingNodeEndMarker, Warning::MissingNodeEndMarker) => true,
            (Warning::UnexpectedFooterFieldValue, Warning::UnexpectedFooterFieldValue) => true,
            _ => false,
        }
    }
}

/// The four kinds of error.
#[derive(Debug, Clone, Copy, PartialEq, Eq, Structural)]
pub enum ErrorKind {
    Data,
    Io,
    Operation,
    Warning,
}

/// An error of one of the four kinds.
#[derive(Debug, Clone, Copy, PartialEq, Eq, Structural)]
pub enum ErrorContainer {
    Data(DataError),
    Io(IoError),
    Operation(OperationError),
    Warning(Warning),
}

impl ErrorContainer {
    pub open spec fn spec_kind(self) -> ErrorKind {
        match self {
            ErrorContainer::Data(_) => ErrorKind::Data,
            ErrorContainer::Io(_) => ErrorKind::Io,
            ErrorContainer::Operation(_) => ErrorKind::Operation,
            ErrorContainer::Warning(_) => ErrorKind::Warning,
        }
    }

    /// Returns the kind of the error.
    pub fn kind(&self) -> (r: ErrorKind)
        ensures
            r == self.spec_kind(),
    {
        match self {
            ErrorContainer::Data(_) => ErrorKind::Data,
            ErrorContainer::Io(_) => ErrorKind::Io,
            ErrorContainer::Operation(_) => ErrorKind::Operation,
            ErrorContainer::Warning(_) => ErrorKind::Warning,
        }
    }
}

/// Where in the file an error arose.
#[derive(Debug, Clone, PartialEq, Eq)]
pub struct SyntacticPosition {
    /// The byte position of the reader.
    pub byte_pos: u64,
    /// The start of the enclosing record.
    pub component_byte_pos: u64,
    /// Names of the open nodes, outermost first.
    pub node_path: Vec<String>,
    /// Index of the attribute being read, if any.
    pub attribute_index: Option<u64>,
}

/// A parser error, with the position where it arose when known.
#[derive(Debug, Clone, PartialEq, Eq)]
pub struct Error {
    /// What went wrong.
    pub container: ErrorContainer,
    /// Where it went wrong.
    pub position: Option<SyntacticPosition>,
}

impl Error {
    /// An error without a position.
    pub fn new(container: ErrorContainer) -> (r: Error)
        ensures
            r.container == container,
            r.position is None,
    {
        Error { container, position: None }
    }

    /// An error at a position.
    pub fn with_position(container: ErrorContainer, position: SyntacticPosition) -> (r: Error)
        ensures
            r.container == container,
            r.position == Some(position),
    {
        Error { container, position: Some(position) }
    }

    /// Returns the kind of the error.
    pub fn kind(&self) -> (r: ErrorKind)
        ensures
            r == self.container.spec_kind(),
    {
        self.container.kind()
    }

    /// Returns what went wrong.
    pub fn as_error(&self) -> (r: &ErrorContainer)
        ensures
            *r == self.container,
    {
        &self.container
    }

    /// Returns where it went wrong.
    pub fn position(&self) -> (r: &Option<SyntacticPosition>)
        ensures
            *r == self.position,
    {
        &self.position
    }
}

/// The parser error for an attribute that could not be decoded.
pub open spec fn container_of_attr(e: AttributeError) -> ErrorContainer {
    match e {
        AttributeError::Io(io) => ErrorContainer::Io(io),
        AttributeError::Low(LowError::Io(io)) => ErrorContainer::Io(io),
        AttributeError::Low(LowError::InvalidArrayAttributeEncoding(v)) => ErrorContainer::Data(
            DataError::InvalidArrayAttributeEncoding(v),
        ),
        AttributeError::Low(LowError::InvalidAttributeTypeCode(c)) => ErrorContainer::Data(
            DataError::InvalidAttributeTypeCode(c),
        ),
        AttributeError::BrokenCompression => ErrorContainer::Data(
            DataError::BrokenCompression(Compression::Zlib),
        ),
        AttributeError::NodeAttributeError => ErrorContainer::Data(DataError::NodeAttributeError),
    }
}

/// Maps an attribute error to a parser error.
pub fn from_attribute_error(e: AttributeError) -> (r: ErrorContainer)
    ensures
        r == container_of_attr(e),
{
    match e {
        AttributeError::Io(io) => ErrorContainer::Io(io),
        AttributeError::Low(LowError::Io(io)) => ErrorContainer::Io(io),
        AttributeError::Low(LowError::InvalidArrayAttributeEncoding(v)) => ErrorContainer::Data(
            DataError::InvalidArrayAttributeEncoding(v),
        ),
        AttributeError::Low(LowError::InvalidAttributeTypeCode(c)) => ErrorContainer::Data(
            DataError::InvalidAttributeTypeCode(c),
        ),
        AttributeError::BrokenCompression => ErrorContainer::Data(
            DataError::BrokenCompression(Compression::Zlib),
        ),
        AttributeError::NodeAttributeError => ErrorContainer::Data(DataError::NodeAttributeError),
    }
}

} // verus!
