use crate::error::{ErrorModel, TesseractError};
use crate::protocol::frame::{outcome_model, Frame, FrameModel, Status, StatusModel};
use crate::storage::message::{Message, MessageModel};
use crate::storage::partition::PartitionModel;
use crate::storage::topic::{lemma_partition_by_numeral, TopicManager, TopicManagerModel};
use crate::text::{decimal, usize_to_string};
use vstd::prelude::*;
use vstd::string::StringExecFns;
use vstd::utf8::{decode_utf8, valid_utf8};

verus! {

/// The text that stands for a payload in a response: the payload itself where
/// it is UTF-8, else a note of its size.
pub open spec fn readable(message: MessageModel) -> Seq<char> {
    if valid_utf8(message.data) {
        decode_utf8(message.data)
    } else {
        "[Binary data: "@ + decimal(message.size()) + " bytes]"@
    }
}

/// The error for a partition number that the topic does not have.
pub open spec fn no_partition(number: nat, topic: Seq<char>) -> ErrorModel {
    ErrorModel::PartitionNotFound(
        "Partition "@ + decimal(number) + " not found in topic "@ + topic,
    )
}

/// The partition that a request names, or the error for what is missing: the
/// topic is looked for first, then the partition.
pub open spec fn addressed(manager: TopicManagerModel, topic: Seq<char>, number: nat) -> Result<
    PartitionModel,
    ErrorModel,
> {
    match manager.topic(topic) {
        None => Err(ErrorModel::TopicNotFound(topic)),
        Some(found) => match found.partition_at(number) {
            None => Err(no_partition(number, topic)),
            Some(partition) => Ok(partition),
        },
    }
}

/// The response to a read at `offset` of a partition.
pub open spec fn read_at(partition: PartitionModel, offset: nat) -> FrameModel {
    match partition.get(offset) {
        Some(message) => FrameModel::delivered(message.data, readable(message)),
        None => FrameModel::Response {
            status: StatusModel::Error("No message at offset "@ + decimal(offset)),
            data: None,
            message: Some(
                "Current offset: "@ + decimal(partition.base_offset) + " Requested offset: "@
                    + decimal(offset),
            ),
        },
    }
}

/// The response to a poll of a partition: its head under the offset it had,
/// or the note that there is nothing new, which is no error.
pub open spec fn polled(partition: PartitionModel) -> FrameModel {
    match partition.head() {
        Some(message) => FrameModel::delivered(
            message.data,
            "offset="@ + decimal(partition.base_offset) + ":"@ + readable(message),
        ),
        None => FrameModel::done(
            "No new messages. Current offset: "@ + decimal(partition.base_offset),
        ),
    }
}

/// What a consume request is answered with.
pub open spec fn consume_reply(
    manager: TopicManagerModel,
    topic: Seq<char>,
    number: nat,
    offset: nat,
) -> Result<FrameModel, ErrorModel> {
    match addressed(manager, topic, number) {
        Err(error) => Err(error),
        Ok(partition) => Ok(read_at(partition, offset)),
    }
}

/// What a consume-next request is answered with.
pub open spec fn consume_next_reply(
    manager: TopicManagerModel,
    topic: Seq<char>,
    number: nat,
) -> Result<FrameModel, ErrorModel> {
    match addressed(manager, topic, number) {
        Err(error) => Err(error),
        Ok(partition) => Ok(polled(partition)),
    }
}

/// The text that stands for a payload in a response.
fn display_text(msg: &Message) -> (text: String)
    ensures
        text@ == readable(msg@),
{
    match msg.to_string() {
        Ok(text) => text,
        Err(_) => {
            let mut text = String::from_str("[Binary data: ");
            text.append(usize_to_string(msg.size()).as_str());
            text.append(" bytes]");
            text
        },
    }
}

/// The error for a partition number that the topic does not have.
fn partition_not_found(partition_id: usize, topic: &str) -> (error: TesseractError)
    ensures
        error@ == no_partition(partition_id as nat, topic@),
{
    let mut detail = String::from_str("Partition ");
    detail.append(usize_to_string(partition_id).as_str());
    detail.append(" not found in topic ");
    detail.append(topic);
    TesseractError::PartitionNotFound(detail)
}

/// Reads the message at `offset` of a partition; nothing is consumed.
pub fn handle_consume(
    topic_manager: &TopicManager,
    topic: String,
    partition_id: usize,
    offset: usize,
) -> (outcome: Result<Frame, TesseractError>)
    requires
        topic_manager.wf(),
    ensures
        outcome_model(outcome) == consume_reply(
            topic_manager@,
            topic@,
            partition_id as nat,
            offset as nat,
        ),
{
    let found = match topic_manager.get_topic(topic.as_str()) {
        Some(found) => found,
        None => {
            return Err(TesseractError::TopicNotFound(topic));
        },
    };
    proof {
        lemma_partition_by_numeral(found@, partition_id as nat);
    }
    let id = usize_to_string(partition_id);
    let partition = match found.get_partition(id.as_str()) {
        Some(partition) => partition,
        None => {
            return Err(partition_not_found(partition_id, found.name()));
        },
    };
    match partition.get_message(offset) {
        Some(msg) => {
            let text = display_text(&msg);
            Ok(Frame::Response { status: Status::ok(), data: Some(msg.data), message: Some(text) })
        },
        None => {
            let mut reason = String::from_str("No message at offset ");
            reason.append(usize_to_string(offset).as_str());
            let mut note = String::from_str("Current offset: ");
            note.append(usize_to_string(partition.current_offset()).as_str());
            note.append(" Requested offset: ");
            note.append(usize_to_string(offset).as_str());
            Ok(Frame::Response { status: Status::error(reason), data: None, message: Some(note) })
        },
    }
}

/// Takes the head of a partition, if it has one.
pub fn handle_consume_next(topic_manager: &mut TopicManager, topic: String, partition_id: usize) -> (outcome:
    Result<Frame, TesseractError>)
    requires
        old(topic_manager).wf(),
    ensures
        final(topic_manager).wf(),
        final(topic_manager)@ == old(topic_manager)@.consumed(topic@, decimal(partition_id as nat)),
        outcome_model(outcome) == consume_next_reply(
            old(topic_manager)@,
            topic@,
            partition_id as nat,
        ),
{
    let id = usize_to_string(partition_id);
    let current_offset = {
        let found = match topic_manager.get_topic(topic.as_str()) {
            Some(found) => found,
            None => {
                return Err(TesseractError::TopicNotFound(topic));
            },
        };
        proof {
            lemma_partition_by_numeral(found@, partition_id as nat);
        }
        match found.get_partition(id.as_str()) {
            Some(partition) => partition.current_offset(),
            None => {
                proof {
                    let before = topic_manager@;
                    let at = before.position_of(topic@);
                    assert(before.topics.update(at, before.topics[at]) =~= before.topics);
                }
                return Err(partition_not_found(partition_id, found.name()));
            },
        }
    };
    match topic_manager.consume_message(topic.as_str(), id.as_str()) {
        Some(msg) => {
            let mut text = String::from_str("offset=");
            text.append(usize_to_string(current_offset).as_str());
            text.append(":");
            text.append(display_text(&msg).as_str());
            Ok(Frame::Response { status: Status::ok(), data: Some(msg.data), message: Some(text) })
        },
        None => {
            let mut text = String::from_str("No new messages. Current offset: ");
            text.append(usize_to_string(current_offset).as_str());
            Ok(Frame::Response { status: Status::ok(), data: None, message: Some(text) })
        },
    }
}

} // verus!
