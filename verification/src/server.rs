use crate::config::Config;
use crate::error::{ErrorModel, TesseractError};
use crate::handler::consumer::{
    consume_next_reply, consume_reply, handle_consume, handle_consume_next,
};
use crate::handler::producer::{handle_produce, handle_produce_at, produce_reply};
use crate::storage::message::MessageModel;
use crate::protocol::frame::{outcome_model, Frame, FrameModel, Status};
use crate::storage::buffer::BufferModel;
use crate::storage::topic::{
    lemma_consumed_keeps_wf, lemma_produced_keeps_wf, TopicManager, TopicManagerModel,
};
use crate::text::decimal;
use vstd::prelude::*;
use vstd::string::StringExecFns;

verus! {

/// The response that carries a handler's outcome: the frame it made, or the
/// error as the text of both status and message.
pub open spec fn reply_of(outcome: Result<FrameModel, ErrorModel>) -> FrameModel {
    match outcome {
        Ok(frame) => frame,
        Err(error) => FrameModel::failed(error.rendered()),
    }
}

/// The response to a frame that arrives at `timestamp`.
pub open spec fn reply(manager: TopicManagerModel, frame: FrameModel, timestamp: nat) -> FrameModel {
    match frame {
        FrameModel::Produce { topic, message } => reply_of(
            produce_reply(manager, topic, MessageModel::stamped(message, timestamp)),
        ),
        FrameModel::Consume { topic, partition_id, offset } => reply_of(
            consume_reply(manager, topic, partition_id, offset),
        ),
        FrameModel::ConsumeNext { topic, partition_id } => reply_of(
            consume_next_reply(manager, topic, partition_id),
        ),
        FrameModel::Ping => FrameModel::Pong,
        FrameModel::Pong => FrameModel::Ping,
        FrameModel::Response { .. } => FrameModel::failed(
            "Server does not accept response frames"@,
        ),
    }
}

/// The storage after a frame that arrives at `timestamp` was served.
pub open spec fn state_after(manager: TopicManagerModel, frame: FrameModel, timestamp: nat) -> TopicManagerModel {
    match frame {
        FrameModel::Produce { topic, message } => manager.produced(
            topic,
            MessageModel::stamped(message, timestamp),
        ),
        FrameModel::ConsumeNext { topic, partition_id } => manager.consumed(
            topic,
            decimal(partition_id),
        ),
        _ => manager,
    }
}

/// Whether the storage can serve the frame: a produce needs an offset to
/// hand out.
pub open spec fn can_serve(manager: TopicManagerModel, frame: FrameModel) -> bool {
    frame matches FrameModel::Produce { topic, .. } ==> manager.has_room(topic)
}

/// Serving a frame keeps the storage well-formed: whatever was asked, the
/// buffer still counts exactly the messages and bytes that the partitions
/// hold.
pub proof fn lemma_serving_keeps_wf(manager: TopicManagerModel, frame: FrameModel, timestamp: nat)
    requires
        manager.wf(),
        can_serve(manager, frame),
    ensures
        state_after(manager, frame, timestamp).wf(),
        state_after(manager, frame, timestamp).balanced(),
{
    match frame {
        FrameModel::Produce { topic, message } => {
            lemma_produced_keeps_wf(manager, topic, MessageModel::stamped(message, timestamp));
        },
        FrameModel::ConsumeNext { topic, partition_id } => {
            lemma_consumed_keeps_wf(manager, topic, decimal(partition_id));
        },
        _ => {},
    }
}

/// What a connection's reader hands to the server.
pub enum ConnectionEvent {
    /// A frame was decoded.
    Received(Frame),
    /// The bytes read could not be decoded.
    Malformed(TesseractError),
    /// The peer closed the connection.
    Closed,
}

/// What the server has the connection do next.
pub enum ConnectionAction {
    /// Write this frame, then read on.
    Reply(Frame),
    /// Write nothing and read on.
    Continue,
    /// Stop reading and close.
    Close,
}

/// The broker: its configuration and its storage.
pub struct Server {
    config: Config,
    topic_manager: TopicManager,
}

/// The response that reports an error.
fn error_frame(error: &TesseractError) -> (frame: Frame)
    ensures
        frame@ == FrameModel::failed(error@.rendered()),
{
    Frame::Response {
        status: Status::error(error.to_string()),
        data: None,
        message: Some(error.to_string()),
    }
}

/// The response that carries a handler's outcome.
fn frame_of(outcome: Result<Frame, TesseractError>) -> (frame: Frame)
    ensures
        frame@ == reply_of(outcome_model(outcome)),
{
    match outcome {
        Ok(frame) => frame,
        Err(error) => error_frame(&error),
    }
}

impl Server {
    /// The storage that the server holds.
    pub closed spec fn storage(&self) -> TopicManagerModel {
        self.topic_manager@
    }

    /// The configuration that the server was made with.
    pub closed spec fn configuration(&self) -> Config {
        self.config
    }

    /// The server's storage is well-formed.
    pub open spec fn wf(&self) -> bool {
        self.storage().wf()
    }

    /// A server with empty storage under the limits of `config`.
    pub fn new(config: Config) -> (server: Self)
        ensures
            server.wf(),
            server.configuration() == config,
            server.storage() == (TopicManagerModel {
                topics: Seq::empty(),
                buffer: BufferModel {
                    max_messages: config.storage.max_messages_per_partition as nat,
                    max_bytes: config.storage.max_message_size_bytes as nat,
                    messages: 0,
                    bytes: 0,
                },
                max_topics: config.storage.max_topics as nat,
            }),
    {
        let topic_manager = TopicManager::new(
            config.storage.max_topics,
            config.storage.max_messages_per_partition,
            config.storage.max_message_size_bytes,
        );
        Self { config, topic_manager }
    }

    /// The configuration that the server was made with.
    pub fn config(&self) -> (config: &Config)
        ensures
            *config == self.configuration(),
    {
        &self.config
    }

    /// The storage that the server holds.
    pub fn topic_manager(&self) -> (manager: &TopicManager)
        ensures
            manager@ == self.storage(),
    {
        &self.topic_manager
    }

    /// Serves a frame that arrives at `timestamp`: requests go to their
    /// handlers, a ping is answered with a pong and a pong with a ping, and a
    /// response is turned away.
    pub fn process_frame_at(frame: Frame, topic_manager: &mut TopicManager, timestamp: u64) -> (response:
        Frame)
        requires
            old(topic_manager).wf(),
            can_serve(old(topic_manager)@, frame@),
        ensures
            final(topic_manager).wf(),
            final(topic_manager)@ == state_after(old(topic_manager)@, frame@, timestamp as nat),
            response@ == reply(old(topic_manager)@, frame@, timestamp as nat),
    {
        match frame {
            Frame::Produce { topic, message } => frame_of(
                handle_produce_at(topic_manager, topic, message, timestamp),
            ),
            Frame::Consume { topic, partition_id, offset } => frame_of(
                handle_consume(topic_manager, topic, partition_id, offset),
            ),
            Frame::ConsumeNext { topic, partition_id } => frame_of(
                handle_consume_next(topic_manager, topic, partition_id),
            ),
            Frame::Ping => Frame::Pong,
            Frame::Pong => Frame::Ping,
            Frame::Response { .. } => Frame::response_error(
                String::from_str("Server does not accept response frames"),
            ),
        }
    }

    /// Serves a frame that arrives now. Whatever the clock says, the outcome
    /// is that of [`Server::process_frame_at`] for some timestamp.
    pub fn process_frame(frame: Frame, topic_manager: &mut TopicManager) -> (response: Frame)
        requires
            old(topic_manager).wf(),
            can_serve(old(topic_manager)@, frame@),
        ensures
            final(topic_manager).wf(),
            exists|timestamp: nat|
                final(topic_manager)@ == #[trigger] state_after(
                    old(topic_manager)@,
                    frame@,
                    timestamp,
                ) && response@ == reply(old(topic_manager)@, frame@, timestamp),
    {
        match frame {
            Frame::Produce { topic, message } => {
                let ghost sent = message@;
                let response = frame_of(handle_produce(topic_manager, topic, message));
                proof {
                    let timestamp = choose|timestamp: nat|
                        final(topic_manager)@ == old(topic_manager)@.produced(
                            topic@,
                            #[trigger] MessageModel::stamped(sent, timestamp),
                        ) && reply_of(
                            produce_reply(old(topic_manager)@, topic@, MessageModel::stamped(sent, timestamp)),
                        ) == response@;
                    assert(final(topic_manager)@ == state_after(
                        old(topic_manager)@,
                        frame@,
                        timestamp,
                    ));
                }
                response
            },
            other => Self::process_frame_at(other, topic_manager, 0),
        }
    }

    /// One step of a connection: a decoded frame is served and answered, bytes
    /// that could not be decoded are passed over, and a closed connection
    /// ends the loop.
    pub fn handle_event(&mut self, event: ConnectionEvent) -> (action: ConnectionAction)
        requires
            old(self).wf(),
            event matches ConnectionEvent::Received(frame) ==> can_serve(
                old(self).storage(),
                frame@,
            ),
        ensures
            final(self).wf(),
            final(self).configuration() == old(self).configuration(),
            match event {
                ConnectionEvent::Received(frame) => action matches ConnectionAction::Reply(response)
                    && exists|timestamp: nat|
                    final(self).storage() == #[trigger] state_after(
                        old(self).storage(),
                        frame@,
                        timestamp,
                    ) && response@ == reply(old(self).storage(), frame@, timestamp),
                ConnectionEvent::Malformed(_) => action is Continue && final(self).storage() == old(
                    self,
                ).storage(),
                ConnectionEvent::Closed => action is Close && final(self).storage() == old(
                    self,
                ).storage(),
            },
    {
        match event {
            ConnectionEvent::Received(frame) => ConnectionAction::Reply(
                Self::process_frame(frame, &mut self.topic_manager),
            ),
            ConnectionEvent::Malformed(_) => ConnectionAction::Continue,
            ConnectionEvent::Closed => ConnectionAction::Close,
        }
    }
}

} // verus!
