use vstd::prelude::*;
use vstd::string::StringExecFns;

verus! {

/// Everything that can go wrong in the broker, each kind with its detail text.
#[derive(Debug, PartialEq)]
pub enum TesseractError {
    /// A socket or file operation failed; the text is the system's description.
    Io(String),
    /// A frame was oversized, malformed, or not acceptable to the server.
    Protocol(String),
    /// The topic registry refused an operation.
    Storage(String),
    /// The configuration could not be read or written.
    Config(String),
    /// The shared buffer refused to admit a message.
    BufferOverflow(String),
    /// A consumer named a topic that does not exist; the text is that name.
    TopicNotFound(String),
    /// A consumer named a partition that its topic does not have.
    PartitionNotFound(String),
}

/// The mathematical value of a [`TesseractError`].
pub enum ErrorModel {
    Io(Seq<char>),
    Protocol(Seq<char>),
    Storage(Seq<char>),
    Config(Seq<char>),
    BufferOverflow(Seq<char>),
    TopicNotFound(Seq<char>),
    PartitionNotFound(Seq<char>),
}

impl ErrorModel {
    /// The text under which the error is shown to a client.
    ///
    /// A storage error is shown by its detail alone; every other kind puts the
    /// name of the kind in front of it.
    pub open spec fn rendered(self) -> Seq<char> {
        match self {
            ErrorModel::Io(detail) => "IO error: "@ + detail,
            ErrorModel::Protocol(detail) => "Protocol error: "@ + detail,
            ErrorModel::Storage(detail) => detail,
            ErrorModel::Config(detail) => "Configuration error: "@ + detail,
            ErrorModel::BufferOverflow(detail) => "Buffer overflow: "@ + detail,
            ErrorModel::TopicNotFound(detail) => "Topic not found: "@ + detail,
            ErrorModel::PartitionNotFound(detail) => "Partition not found: "@ + detail,
        }
    }
}

impl View for TesseractError {
    type V = ErrorModel;

    open spec fn view(&self) -> ErrorModel {
        match self {
            TesseractError::Io(detail) => ErrorModel::Io(detail@),
            TesseractError::Protocol(detail) => ErrorModel::Protocol(detail@),
            TesseractError::Storage(detail) => ErrorModel::Storage(detail@),
            TesseractError::Config(detail) => ErrorModel::Config(detail@),
            TesseractError::BufferOverflow(detail) => ErrorModel::BufferOverflow(detail@),
            TesseractError::TopicNotFound(detail) => ErrorModel::TopicNotFound(detail@),
            TesseractError::PartitionNotFound(detail) => ErrorModel::PartitionNotFound(detail@),
        }
    }
}

/// `prefix` followed by `detail`.
fn prefixed(prefix: &str, detail: &String) -> (text: String)
    ensures
        text@ == prefix@ + detail@,
{
    let mut text = String::from_str(prefix);
    text.append(detail.as_str());
    text
}

impl TesseractError {
    /// The text under which this error is shown to a client.
    pub fn to_string(&self) -> (text: String)
        ensures
            text@ == self@.rendered(),
    {
        match self {
            TesseractError::Io(detail) => prefixed("IO error: ", detail),
            TesseractError::Protocol(detail) => prefixed("Protocol error: ", detail),
            TesseractError::Storage(detail) => detail.clone(),
            TesseractError::Config(detail) => prefixed("Configuration error: ", detail),
            TesseractError::BufferOverflow(detail) => prefixed("Buffer overflow: ", detail),
            TesseractError::TopicNotFound(detail) => prefixed("Topic not found: ", detail),
            TesseractError::PartitionNotFound(detail) => prefixed(
                "Partition not found: ",
                detail,
            ),
        }
    }
}

} // verus!
