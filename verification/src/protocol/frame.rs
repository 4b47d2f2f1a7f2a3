use crate::error::{ErrorModel, TesseractError};
use vstd::prelude::*;
use vstd::string::StrSliceExecFns;
use vstd::utf8::encode_utf8;

verus! {

/// How a request ended.
#[derive(Debug, PartialEq)]
pub enum Status {
    Success,
    Error(String),
}

/// One protocol message, request or response.
#[derive(Debug, PartialEq)]
#[allow(inconsistent_fields)]
pub enum Frame {
    Produce { topic: String, message: Vec<u8> },
    Consume { topic: String, partition_id: usize, offset: usize },
    ConsumeNext { topic: String, partition_id: usize },
    Response { status: Status, data: Option<Vec<u8>>, message: Option<String> },
    Ping,
    Pong,
}

/// The mathematical value of a [`Status`].
pub enum StatusModel {
    Success,
    Error(Seq<char>),
}

/// The mathematical value of a [`Frame`].
#[allow(inconsistent_fields)]
pub enum FrameModel {
    Produce { topic: Seq<char>, message: Seq<u8> },
    Consume { topic: Seq<char>, partition_id: nat, offset: nat },
    ConsumeNext { topic: Seq<char>, partition_id: nat },
    Response { status: StatusModel, data: Option<Seq<u8>>, message: Option<Seq<char>> },
    Ping,
    Pong,
}

impl FrameModel {
    /// The response that reports success with a message and no data.
    pub open spec fn done(message: Seq<char>) -> FrameModel {
        FrameModel::Response { status: StatusModel::Success, data: None, message: Some(message) }
    }

    /// The response that reports success and carries data.
    pub open spec fn delivered(data: Seq<u8>, message: Seq<char>) -> FrameModel {
        FrameModel::Response { status: StatusModel::Success, data: Some(data), message: Some(message) }
    }

    /// The response that reports an error, with the same text as its status
    /// and as its message.
    pub open spec fn failed(message: Seq<char>) -> FrameModel {
        FrameModel::Response {
            status: StatusModel::Error(message),
            data: None,
            message: Some(message),
        }
    }
}

/// The mathematical value of a handler's outcome.
pub open spec fn outcome_model(outcome: Result<Frame, TesseractError>) -> Result<
    FrameModel,
    ErrorModel,
> {
    match outcome {
        Ok(frame) => Ok(frame@),
        Err(error) => Err(error@),
    }
}

impl View for Status {
    type V = StatusModel;

    open spec fn view(&self) -> StatusModel {
        match self {
            Status::Success => StatusModel::Success,
            Status::Error(message) => StatusModel::Error(message@),
        }
    }
}

impl View for Frame {
    type V = FrameModel;

    open spec fn view(&self) -> FrameModel {
        match self {
            Frame::Produce { topic, message } => FrameModel::Produce {
                topic: topic@,
                message: message@,
            },
            Frame::Consume { topic, partition_id, offset } => FrameModel::Consume {
                topic: topic@,
                partition_id: *partition_id as nat,
                offset: *offset as nat,
            },
            Frame::ConsumeNext { topic, partition_id } => FrameModel::ConsumeNext {
                topic: topic@,
                partition_id: *partition_id as nat,
            },
            Frame::Response { status, data, message } => FrameModel::Response {
                status: status@,
                data: match data {
                    Some(bytes) => Some(bytes@),
                    None => None,
                },
                message: match message {
                    Some(text) => Some(text@),
                    None => None,
                },
            },
            Frame::Ping => FrameModel::Ping,
            Frame::Pong => FrameModel::Pong,
        }
    }
}

impl Clone for Status {
    fn clone(&self) -> (copy: Self)
        ensures
            copy@ == self@,
    {
        match self {
            Status::Success => Status::Success,
            Status::Error(message) => Status::Error(message.clone()),
        }
    }
}

impl Clone for Frame {
    fn clone(&self) -> (copy: Self)
        ensures
            copy@ == self@,
    {
        match self {
            Frame::Produce { topic, message } => Frame::Produce {
                topic: topic.clone(),
                message: message.clone(),
            },
            Frame::Consume { topic, partition_id, offset } => Frame::Consume {
                topic: topic.clone(),
                partition_id: *partition_id,
                offset: *offset,
            },
            Frame::ConsumeNext { topic, partition_id } => Frame::ConsumeNext {
                topic: topic.clone(),
                partition_id: *partition_id,
            },
            Frame::Response { status, data, message } => Frame::Response {
                status: status.clone(),
                data: match data {
                    Some(bytes) => Some(bytes.clone()),
                    None => None,
                },
                message: match message {
                    Some(text) => Some(text.clone()),
                    None => None,
                },
            },
            Frame::Ping => Frame::Ping,
            Frame::Pong => Frame::Pong,
        }
    }
}

impl Frame {
    /// A request to append `message` to `topic`.
    pub fn produce(topic: String, message: Vec<u8>) -> (frame: Self)
        ensures
            frame@ == (FrameModel::Produce { topic: topic@, message: message@ }),
    {
        Self::Produce { topic, message }
    }

    /// A request for the message at `offset` of a partition.
    pub fn consume(topic: String, partition_id: usize, offset: usize) -> (frame: Self)
        ensures
            frame@ == (FrameModel::Consume {
                topic: topic@,
                partition_id: partition_id as nat,
                offset: offset as nat,
            }),
    {
        Self::Consume { topic, partition_id, offset }
    }

    /// A successful response that carries `data`, if any, and no message.
    pub fn response_ok(data: Option<Vec<u8>>) -> (frame: Self)
        ensures
            frame@ == (FrameModel::Response {
                status: StatusModel::Success,
                data: match data {
                    Some(bytes) => Some(bytes@),
                    None => None,
                },
                message: None,
            }),
    {
        Self::Response { status: Status::ok(), data, message: None }
    }

    /// An error response with `message` as the text of its status and as its
    /// message.
    pub fn response_error(message: String) -> (frame: Self)
        ensures
            frame@ == FrameModel::failed(message@),
    {
        Self::Response {
            status: Status::Error(message.clone()),
            data: None,
            message: Some(message),
        }
    }

    /// A successful response that carries the UTF-8 bytes of `message` as its
    /// data.
    pub fn response_ok_str(message: String) -> (frame: Self)
        ensures
            frame@ == (FrameModel::Response {
                status: StatusModel::Success,
                data: Some(encode_utf8(message@)),
                message: None,
            }),
    {
        Self::Response {
            status: Status::ok(),
            data: Some(message.as_str().as_bytes_vec()),
            message: None,
        }
    }
}

impl Status {
    /// The status of a request that went well.
    pub fn ok() -> (status: Self)
        ensures
            status@ == StatusModel::Success,
    {
        Self::Success
    }

    /// The status of a request that failed, with the reason.
    pub fn error(msg: String) -> (status: Self)
        ensures
            status@ == StatusModel::Error(msg@),
    {
        Self::Error(msg)
    }
}

} // verus!
