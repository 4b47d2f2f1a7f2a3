use tesseract_core::handler::consumer::{handle_consume, handle_consume_next};
use tesseract_core::handler::producer::{handle_produce, handle_produce_at};
use tesseract_core::server::{ConnectionAction, ConnectionEvent, Server};
use tesseract_core::storage::TopicManager;
use tesseract_core::{Config, Frame, Status, TesseractError};

fn produce(topic: &str, data: &[u8]) -> Frame {
    Frame::Produce { topic: topic.to_string(), message: data.to_vec() }
}

fn consume(topic: &str, partition_id: usize, offset: usize) -> Frame {
    Frame::Consume { topic: topic.to_string(), partition_id, offset }
}

fn consume_next(topic: &str, partition_id: usize) -> Frame {
    Frame::ConsumeNext { topic: topic.to_string(), partition_id }
}

fn done(message: &str) -> Frame {
    Frame::Response { status: Status::Success, data: None, message: Some(message.to_string()) }
}

fn delivered(data: &[u8], message: &str) -> Frame {
    Frame::Response {
        status: Status::Success,
        data: Some(data.to_vec()),
        message: Some(message.to_string()),
    }
}

fn failed(message: &str) -> Frame {
    Frame::Response {
        status: Status::Error(message.to_string()),
        data: None,
        message: Some(message.to_string()),
    }
}

#[test]
fn produce_then_consume_by_offset() {
    let mut manager = TopicManager::new(100, 10000, 1024 * 1024);
    assert_eq!(
        Server::process_frame(produce("t", &[65, 66]), &mut manager),
        done("Message produced successfully")
    );
    assert_eq!(Server::process_frame(consume("t", 0, 0), &mut manager), delivered(&[65, 66], "AB"));
    assert_eq!(Server::process_frame(consume("t", 0, 0), &mut manager), delivered(&[65, 66], "AB"));
}

#[test]
fn consume_next_on_empty_partition_is_no_error() {
    let mut manager = TopicManager::new(100, 10000, 1024 * 1024);
    Server::process_frame(produce("t2", b"x"), &mut manager);
    assert_eq!(
        Server::process_frame(consume_next("t2", 1), &mut manager),
        done("No new messages. Current offset: 0")
    );
    Server::process_frame(consume_next("t2", 0), &mut manager);
    assert_eq!(
        Server::process_frame(consume_next("t2", 0), &mut manager),
        done("No new messages. Current offset: 1")
    );
}

#[test]
fn consume_next_advances_the_offset() {
    let mut manager = TopicManager::new(100, 10000, 1024 * 1024);
    Server::process_frame(produce("t", b"first"), &mut manager);
    Server::process_frame(produce("t", b"second"), &mut manager);
    assert_eq!(
        Server::process_frame(consume_next("t", 0), &mut manager),
        delivered(b"first", "offset=0:first")
    );
    assert_eq!(
        Server::process_frame(consume_next("t", 0), &mut manager),
        done("No new messages. Current offset: 1")
    );
    assert_eq!(
        Server::process_frame(consume_next("t", 1), &mut manager),
        delivered(b"second", "offset=0:second")
    );
}

#[test]
fn one_message_limit_drops_each_message_as_it_fills_the_buffer() {
    let mut manager = TopicManager::new(100, 1, 1_000_000);
    for payload in [[1u8], [2], [3], [4]] {
        assert_eq!(
            Server::process_frame(produce("t", &payload), &mut manager),
            done("Message produced successfully")
        );
    }
    let topic = manager.get_topic("t").unwrap();
    let first = topic.get_partition("0").unwrap();
    assert_eq!(first.current_offset(), 2);
    assert_eq!(first.message_count(), 0);
    assert!(first.get_message(1).is_none());
    assert_eq!(topic.get_partition("1").unwrap().current_offset(), 1);
    assert_eq!(topic.get_partition("2").unwrap().current_offset(), 1);
}

#[test]
fn two_message_limit_keeps_one_message() {
    let mut manager = TopicManager::new(100, 2, 1_000_000);
    Server::process_frame(produce("t", &[1]), &mut manager);
    Server::process_frame(produce("t", &[2]), &mut manager);
    Server::process_frame(produce("t", &[3]), &mut manager);
    Server::process_frame(produce("t", &[4]), &mut manager);
    let topic = manager.get_topic("t").unwrap();
    let first = topic.get_partition("0").unwrap();
    assert_eq!(first.current_offset(), 1);
    assert_eq!(first.get_message(1).unwrap().data, vec![4]);
    assert_eq!(topic.get_partition("1").unwrap().current_offset(), 1);
    assert_eq!(topic.get_partition("1").unwrap().message_count(), 0);
    assert_eq!(topic.get_partition("2").unwrap().current_offset(), 1);
    assert_eq!(topic.get_partition("2").unwrap().message_count(), 0);
}

#[test]
fn byte_limit_refuses_with_an_error_response() {
    let mut manager = TopicManager::new(100, 10, 3);
    assert_eq!(
        Server::process_frame(produce("t", b"abcd"), &mut manager),
        failed("Buffer overflow: Cannot add message: size=4, current=0/10 messages, 0/3 bytes")
    );
}

#[test]
fn topic_cap() {
    let mut manager = TopicManager::new(2, 10000, 1024 * 1024);
    assert_eq!(
        Server::process_frame(produce("a", b"1"), &mut manager),
        done("Message produced successfully")
    );
    assert_eq!(
        Server::process_frame(produce("b", b"2"), &mut manager),
        done("Message produced successfully")
    );
    assert_eq!(
        Server::process_frame(produce("c", b"3"), &mut manager),
        failed("Maximum topics limit reached: 2")
    );
    assert_eq!(
        Server::process_frame(produce("a", b"4"), &mut manager),
        done("Message produced successfully")
    );
}

#[test]
fn unknown_topic() {
    let mut manager = TopicManager::new(100, 10000, 1024 * 1024);
    assert_eq!(
        Server::process_frame(consume("nope", 0, 0), &mut manager),
        failed("Topic not found: nope")
    );
    assert_eq!(
        Server::process_frame(consume_next("nope", 0), &mut manager),
        failed("Topic not found: nope")
    );
}

#[test]
fn unknown_partition() {
    let mut manager = TopicManager::new(100, 10000, 1024 * 1024);
    Server::process_frame(produce("t", b"x"), &mut manager);
    assert_eq!(
        Server::process_frame(consume("t", 3, 0), &mut manager),
        failed("Partition not found: Partition 3 not found in topic t")
    );
    assert_eq!(
        Server::process_frame(consume_next("t", 17), &mut manager),
        failed("Partition not found: Partition 17 not found in topic t")
    );
}

#[test]
fn consume_at_an_offset_that_is_not_held() {
    let mut manager = TopicManager::new(100, 10000, 1024 * 1024);
    Server::process_frame(produce("t", b"x"), &mut manager);
    assert_eq!(
        Server::process_frame(consume("t", 0, 5), &mut manager),
        Frame::Response {
            status: Status::Error("No message at offset 5".to_string()),
            data: None,
            message: Some("Current offset: 0 Requested offset: 5".to_string()),
        }
    );
    Server::process_frame(consume_next("t", 0), &mut manager);
    assert_eq!(
        Server::process_frame(consume("t", 0, 0), &mut manager),
        Frame::Response {
            status: Status::Error("No message at offset 0".to_string()),
            data: None,
            message: Some("Current offset: 1 Requested offset: 0".to_string()),
        }
    );
}

#[test]
fn binary_payload_is_described_by_its_size() {
    let mut manager = TopicManager::new(100, 10000, 1024 * 1024);
    Server::process_frame(produce("t", &[0xff, 0xfe, 0x00]), &mut manager);
    assert_eq!(
        Server::process_frame(consume("t", 0, 0), &mut manager),
        delivered(&[0xff, 0xfe, 0x00], "[Binary data: 3 bytes]")
    );
    assert_eq!(
        Server::process_frame(consume_next("t", 0), &mut manager),
        delivered(&[0xff, 0xfe, 0x00], "offset=0:[Binary data: 3 bytes]")
    );
}

#[test]
fn ping_and_pong_answer_each_other() {
    let mut manager = TopicManager::new(100, 10000, 1024 * 1024);
    assert_eq!(Server::process_frame(Frame::Ping, &mut manager), Frame::Pong);
    assert_eq!(Server::process_frame(Frame::Pong, &mut manager), Frame::Ping);
    assert_eq!(Server::process_frame_at(Frame::Ping, &mut manager, 3), Frame::Pong);
}

#[test]
fn response_frames_are_turned_away() {
    let mut manager = TopicManager::new(100, 10000, 1024 * 1024);
    assert_eq!(
        Server::process_frame(Frame::response_ok(None), &mut manager),
        failed("Server does not accept response frames")
    );
    assert_eq!(
        Server::process_frame(Frame::response_error("x".to_string()), &mut manager),
        failed("Server does not accept response frames")
    );
    assert!(manager.list_topics().is_empty());
}

#[test]
fn process_frame_at_stamps_the_message() {
    let mut manager = TopicManager::new(100, 10000, 1024 * 1024);
    Server::process_frame_at(produce("t", b"x"), &mut manager, 1234);
    let topic = manager.get_topic("t").unwrap();
    let held = topic.get_partition("0").unwrap().get_message(0).unwrap();
    assert_eq!(held.timestamp, 1234);
    assert_eq!(held.data, b"x".to_vec());
}

#[test]
fn handlers_return_errors_as_errors() {
    let mut manager = TopicManager::new(1, 10000, 1024 * 1024);
    assert_eq!(
        handle_consume(&manager, "t".to_string(), 0, 0),
        Err(TesseractError::TopicNotFound("t".to_string()))
    );
    assert_eq!(
        handle_consume_next(&mut manager, "t".to_string(), 0),
        Err(TesseractError::TopicNotFound("t".to_string()))
    );
    assert_eq!(
        handle_produce(&mut manager, "t".to_string(), vec![1]),
        Ok(done("Message produced successfully"))
    );
    assert_eq!(
        handle_produce_at(&mut manager, "u".to_string(), vec![1], 5),
        Err(TesseractError::Storage("Maximum topics limit reached: 1".to_string()))
    );
    assert_eq!(
        handle_consume(&manager, "t".to_string(), 4, 0),
        Err(TesseractError::PartitionNotFound("Partition 4 not found in topic t".to_string()))
    );
    assert_eq!(handle_consume(&manager, "t".to_string(), 0, 0), Ok(delivered(&[1], "\u{1}")));
}

#[test]
fn round_robin_over_many_produces() {
    let mut manager = TopicManager::new(100, 10000, 1024 * 1024);
    for n in 0..10u8 {
        Server::process_frame(produce("t", &[n]), &mut manager);
    }
    let topic = manager.get_topic("t").unwrap();
    assert_eq!(topic.get_partition("0").unwrap().message_count(), 4);
    assert_eq!(topic.get_partition("1").unwrap().message_count(), 3);
    assert_eq!(topic.get_partition("2").unwrap().message_count(), 3);
}

#[test]
fn server_takes_its_limits_from_the_configuration() {
    let mut config = Config::default();
    config.storage.max_topics = 1;
    config.storage.max_message_size_bytes = 2;
    let mut server = Server::new(config);
    assert_eq!(server.config().storage.max_topics, 1);
    assert!(server.topic_manager().list_topics().is_empty());
    let first = server.handle_event(ConnectionEvent::Received(produce("a", b"ab")));
    assert!(matches!(first, ConnectionAction::Reply(frame)
        if frame == done("Message produced successfully")));
    let second = server.handle_event(ConnectionEvent::Received(produce("b", b"c")));
    assert!(matches!(second, ConnectionAction::Reply(frame)
        if frame == failed("Maximum topics limit reached: 1")));
    let third = server.handle_event(ConnectionEvent::Received(produce("a", b"c")));
    assert!(matches!(third, ConnectionAction::Reply(frame)
        if frame == failed("Buffer overflow: Cannot add message: size=1, current=1/10000 messages, 2/2 bytes")));
    assert_eq!(server.topic_manager().list_topics(), vec!["a".to_string()]);
}

#[test]
fn connection_steps() {
    let mut server = Server::new(Config::default());
    assert!(matches!(
        server.handle_event(ConnectionEvent::Received(Frame::Ping)),
        ConnectionAction::Reply(Frame::Pong)
    ));
    assert!(matches!(
        server.handle_event(ConnectionEvent::Malformed(TesseractError::Protocol(
            "Deserialization error".to_string()
        ))),
        ConnectionAction::Continue
    ));
    assert!(matches!(server.handle_event(ConnectionEvent::Closed), ConnectionAction::Close));
}
