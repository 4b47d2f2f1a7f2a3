use crate::error::{ErrorModel, TesseractError};
use crate::protocol::frame::{outcome_model, Frame, FrameModel, Status};
use crate::storage::message::{Message, MessageModel};
use crate::storage::topic::{TopicManager, TopicManagerModel};
use vstd::prelude::*;
use vstd::string::StringExecFns;

verus! {

/// What a produce request is answered with: the confirmation, or the error
/// that kept the message out.
pub open spec fn produce_reply(
    manager: TopicManagerModel,
    topic: Seq<char>,
    message: MessageModel,
) -> Result<FrameModel, ErrorModel> {
    match manager.production_error(topic, message) {
        Some(error) => Err(error),
        None => Ok(FrameModel::done("Message produced successfully"@)),
    }
}

/// Produces `message`, taken in at `timestamp`, to `topic`.
pub fn handle_produce_at(
    topic_manager: &mut TopicManager,
    topic: String,
    message: Vec<u8>,
    timestamp: u64,
) -> (outcome: Result<Frame, TesseractError>)
    requires
        old(topic_manager).wf(),
        old(topic_manager)@.has_room(topic@),
    ensures
        final(topic_manager).wf(),
        final(topic_manager)@ == old(topic_manager)@.produced(
            topic@,
            MessageModel::stamped(message@, timestamp as nat),
        ),
        outcome_model(outcome) == produce_reply(
            old(topic_manager)@,
            topic@,
            MessageModel::stamped(message@, timestamp as nat),
        ),
{
    let msg = Message::stamped(message, timestamp);
    match topic_manager.add_message(topic, msg) {
        Ok(()) => Ok(
            Frame::Response {
                status: Status::ok(),
                data: None,
                message: Some(String::from_str("Message produced successfully")),
            },
        ),
        Err(e) => Err(e),
    }
}

/// Produces `message` to `topic`, stamped with the current time. Whatever the
/// clock says, the outcome is that of [`handle_produce_at`] for some
/// timestamp.
pub fn handle_produce(topic_manager: &mut TopicManager, topic: String, message: Vec<u8>) -> (outcome:
    Result<Frame, TesseractError>)
    requires
        old(topic_manager).wf(),
        old(topic_manager)@.has_room(topic@),
    ensures
        final(topic_manager).wf(),
        exists|timestamp: nat|
            final(topic_manager)@ == old(topic_manager)@.produced(
                topic@,
                #[trigger] MessageModel::stamped(message@, timestamp),
            ) && outcome_model(outcome) == produce_reply(
                old(topic_manager)@,
                topic@,
                MessageModel::stamped(message@, timestamp),
            ),
{
    let msg = Message::new(message);
    handle_produce_at(topic_manager, topic, msg.data, msg.timestamp)
}

} // verus!
