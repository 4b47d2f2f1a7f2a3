use tesseract_core::storage::{BufferManager, Message, Partition, Topic, TopicManager};
use tesseract_core::TesseractError;

fn message(data: &[u8]) -> Message {
    Message { data: data.to_vec(), timestamp: 7 }
}

#[test]
fn buffer_starts_empty() {
    let buffer = BufferManager::new(3, 10);
    assert_eq!(buffer.message_count(), 0);
    assert_eq!(buffer.current_size(), 0);
    assert!(buffer.can_add(10));
    assert!(!buffer.can_add(11));
}

#[test]
fn buffer_admits_up_to_both_limits() {
    let mut buffer = BufferManager::new(2, 10);
    assert_eq!(buffer.add_message(4), Ok(()));
    assert_eq!(buffer.message_count(), 1);
    assert_eq!(buffer.current_size(), 4);
    assert!(buffer.can_add(6));
    assert!(!buffer.can_add(7));
    assert_eq!(buffer.add_message(6), Ok(()));
    assert_eq!(buffer.message_count(), 2);
    assert_eq!(buffer.current_size(), 10);
    assert!(!buffer.can_add(0));
}

#[test]
fn buffer_refusal_names_size_and_limits() {
    let mut buffer = BufferManager::new(2, 10);
    buffer.add_message(4).unwrap();
    let refused = buffer.add_message(7);
    assert_eq!(
        refused,
        Err(TesseractError::BufferOverflow(
            "Cannot add message: size=7, current=1/2 messages, 4/10 bytes".to_string()
        ))
    );
    assert_eq!(buffer.message_count(), 1);
    assert_eq!(buffer.current_size(), 4);
}

#[test]
fn buffer_with_zero_messages_allowed_refuses_everything() {
    let mut buffer = BufferManager::new(0, 10);
    assert!(!buffer.can_add(0));
    assert!(buffer.add_message(0).is_err());
}

#[test]
fn buffer_size_sum_near_the_integer_limit_is_refused() {
    let mut buffer = BufferManager::new(5, usize::MAX);
    buffer.add_message(usize::MAX).unwrap();
    assert!(!buffer.can_add(1));
    assert!(buffer.can_add(0));
}

#[test]
fn buffer_release_never_goes_below_zero() {
    let mut buffer = BufferManager::new(5, 100);
    buffer.add_message(10).unwrap();
    buffer.remove_message(25);
    assert_eq!(buffer.current_size(), 0);
    assert_eq!(buffer.message_count(), 0);
    buffer.remove_message(1);
    assert_eq!(buffer.current_size(), 0);
    assert_eq!(buffer.message_count(), 0);
}

#[test]
fn buffer_release_gives_back_exactly() {
    let mut buffer = BufferManager::new(5, 100);
    buffer.add_message(10).unwrap();
    buffer.add_message(20).unwrap();
    buffer.remove_message(10);
    assert_eq!(buffer.current_size(), 20);
    assert_eq!(buffer.message_count(), 1);
}

#[test]
fn message_new_keeps_payload_and_stamps_it() {
    let made = Message::new(vec![1, 2, 3]);
    assert_eq!(made.data, vec![1, 2, 3]);
    assert_eq!(made.size(), 3);
    assert!(made.timestamp > 1_000_000_000);
}

#[test]
fn message_text_of_utf8_payload() {
    assert_eq!(message("héllo".as_bytes()).to_string(), Ok("héllo".to_string()));
    assert_eq!(message(b"").to_string(), Ok(String::new()));
}

#[test]
fn message_text_of_binary_payload_is_a_protocol_error() {
    let outcome = message(&[0xff, 0x41]).to_string();
    assert_eq!(
        outcome,
        Err(TesseractError::Protocol(
            "Invalid UTF-8: invalid utf-8 sequence of 1 bytes from index 0".to_string()
        ))
    );
}

#[test]
fn message_clone_is_equal() {
    let first = message(b"abc");
    let copy = first.clone();
    assert_eq!(copy.data, first.data);
    assert_eq!(copy.timestamp, first.timestamp);
}

#[test]
fn partition_starts_empty_at_offset_zero() {
    let partition = Partition::new("0".to_string());
    assert_eq!(partition.id(), "0");
    assert_eq!(partition.current_offset(), 0);
    assert_eq!(partition.message_count(), 0);
    assert!(partition.get_message(0).is_none());
}

#[test]
fn partition_retains_appends_in_order() {
    let mut buffer = BufferManager::new(100, 1000);
    let mut partition = Partition::new("0".to_string());
    for i in 0..5u8 {
        assert_eq!(partition.add_message(&mut buffer, message(&[i, i])), Ok(()));
    }
    assert_eq!(partition.current_offset(), 0);
    assert_eq!(partition.message_count(), 5);
    for i in 0..5u8 {
        assert_eq!(partition.get_message(i as usize).unwrap().data, vec![i, i]);
    }
    assert!(partition.get_message(5).is_none());
    assert_eq!(buffer.message_count(), 5);
    assert_eq!(buffer.current_size(), 10);
}

#[test]
fn partition_get_does_not_consume() {
    let mut buffer = BufferManager::new(100, 1000);
    let mut partition = Partition::new("0".to_string());
    partition.add_message(&mut buffer, message(b"a")).unwrap();
    assert!(partition.get_message(0).is_some());
    assert!(partition.get_message(0).is_some());
    assert_eq!(partition.current_offset(), 0);
    assert_eq!(partition.message_count(), 1);
}

#[test]
fn partition_consume_moves_offset_and_releases() {
    let mut buffer = BufferManager::new(100, 1000);
    let mut partition = Partition::new("0".to_string());
    partition.add_message(&mut buffer, message(b"one")).unwrap();
    partition.add_message(&mut buffer, message(b"three")).unwrap();
    let head = partition.consume_message(&mut buffer).unwrap();
    assert_eq!(head.data, b"one".to_vec());
    assert_eq!(partition.current_offset(), 1);
    assert_eq!(partition.message_count(), 1);
    assert_eq!(buffer.message_count(), 1);
    assert_eq!(buffer.current_size(), 5);
    assert!(partition.get_message(0).is_none());
    assert_eq!(partition.get_message(1).unwrap().data, b"three".to_vec());
    assert_eq!(partition.consume_message(&mut buffer).unwrap().data, b"three".to_vec());
    assert!(partition.consume_message(&mut buffer).is_none());
    assert_eq!(partition.current_offset(), 2);
    assert_eq!(buffer.message_count(), 0);
    assert_eq!(buffer.current_size(), 0);
}

#[test]
fn partition_refused_append_changes_nothing() {
    let mut buffer = BufferManager::new(10, 4);
    let mut partition = Partition::new("0".to_string());
    partition.add_message(&mut buffer, message(b"abc")).unwrap();
    let refused = partition.add_message(&mut buffer, message(b"de"));
    assert_eq!(
        refused,
        Err(TesseractError::BufferOverflow(
            "Cannot add message: size=2, current=1/10 messages, 3/4 bytes".to_string()
        ))
    );
    assert_eq!(partition.message_count(), 1);
    assert_eq!(partition.current_offset(), 0);
    assert_eq!(buffer.message_count(), 1);
    assert_eq!(buffer.current_size(), 3);
}

#[test]
fn partition_append_that_fills_the_buffer_drops_its_own_head() {
    let mut buffer = BufferManager::new(3, 1000);
    let mut partition = Partition::new("0".to_string());
    partition.add_message(&mut buffer, message(b"a")).unwrap();
    partition.add_message(&mut buffer, message(b"bb")).unwrap();
    assert_eq!(partition.message_count(), 2);
    partition.add_message(&mut buffer, message(b"ccc")).unwrap();
    assert_eq!(partition.current_offset(), 1);
    assert_eq!(partition.message_count(), 2);
    assert_eq!(partition.get_message(1).unwrap().data, b"bb".to_vec());
    assert_eq!(partition.get_message(2).unwrap().data, b"ccc".to_vec());
    assert_eq!(buffer.message_count(), 2);
    assert_eq!(buffer.current_size(), 5);
}

#[test]
fn partition_with_limit_of_one_message_evicts_what_it_appends() {
    let mut buffer = BufferManager::new(1, 1000);
    let mut partition = Partition::new("0".to_string());
    assert_eq!(partition.add_message(&mut buffer, message(b"x")), Ok(()));
    assert_eq!(partition.current_offset(), 1);
    assert_eq!(partition.message_count(), 0);
    assert_eq!(buffer.message_count(), 0);
    assert_eq!(buffer.current_size(), 0);
}

#[test]
fn partition_offset_never_goes_back() {
    let mut buffer = BufferManager::new(4, 1000);
    let mut partition = Partition::new("0".to_string());
    let mut last = partition.current_offset();
    for round in 0..20u8 {
        if round % 3 == 2 {
            let _ = partition.consume_message(&mut buffer);
        } else {
            let _ = partition.add_message(&mut buffer, message(&[round]));
        }
        let _ = partition.get_message(round as usize);
        assert!(partition.current_offset() >= last);
        last = partition.current_offset();
    }
}

#[test]
fn topic_has_three_numbered_partitions() {
    let topic = Topic::new("orders".to_string());
    assert_eq!(topic.name(), "orders");
    assert_eq!(topic.partition_ids(), vec!["0".to_string(), "1".to_string(), "2".to_string()]);
    assert_eq!(topic.get_partition("0").unwrap().id(), "0");
    assert_eq!(topic.get_partition("2").unwrap().id(), "2");
    assert!(topic.get_partition("3").is_none());
    assert!(topic.get_partition("00").is_none());
    assert!(topic.get_partition("").is_none());
    assert!(topic.has_room());
}

#[test]
fn topic_deals_appends_out_in_turn() {
    let mut buffer = BufferManager::new(100, 1000);
    let mut topic = Topic::new("t".to_string());
    for i in 0..7u8 {
        topic.add_message(&mut buffer, message(&[i])).unwrap();
    }
    assert_eq!(topic.get_partition("0").unwrap().message_count(), 3);
    assert_eq!(topic.get_partition("1").unwrap().message_count(), 2);
    assert_eq!(topic.get_partition("2").unwrap().message_count(), 2);
    assert_eq!(topic.get_partition("0").unwrap().get_message(1).unwrap().data, vec![3]);
    assert_eq!(topic.get_partition("1").unwrap().get_message(0).unwrap().data, vec![1]);
    assert_eq!(topic.get_partition("2").unwrap().get_message(1).unwrap().data, vec![5]);
}

#[test]
fn topic_refused_append_still_takes_its_turn() {
    let mut buffer = BufferManager::new(100, 2);
    let mut topic = Topic::new("t".to_string());
    assert!(topic.add_message(&mut buffer, message(b"abc")).is_err());
    topic.add_message(&mut buffer, message(b"a")).unwrap();
    assert_eq!(topic.get_partition("0").unwrap().message_count(), 0);
    assert_eq!(topic.get_partition("1").unwrap().message_count(), 1);
}

#[test]
fn topic_eviction_leaves_other_partitions_alone() {
    let mut buffer = BufferManager::new(4, 1000);
    let mut topic = Topic::new("t".to_string());
    for i in 0..3u8 {
        topic.add_message(&mut buffer, message(&[i])).unwrap();
    }
    topic.add_message(&mut buffer, message(&[3])).unwrap();
    let first = topic.get_partition("0").unwrap();
    assert_eq!(first.current_offset(), 1);
    assert_eq!(first.message_count(), 1);
    assert_eq!(first.get_message(1).unwrap().data, vec![3]);
    for id in ["1", "2"] {
        let other = topic.get_partition(id).unwrap();
        assert_eq!(other.current_offset(), 0);
        assert_eq!(other.message_count(), 1);
    }
    assert_eq!(buffer.message_count(), 3);
}

#[test]
fn topic_consume_by_id() {
    let mut buffer = BufferManager::new(100, 1000);
    let mut topic = Topic::new("t".to_string());
    topic.add_message(&mut buffer, message(b"a")).unwrap();
    topic.add_message(&mut buffer, message(b"b")).unwrap();
    assert!(topic.consume_message(&mut buffer, "7").is_none());
    assert!(topic.consume_message(&mut buffer, "2").is_none());
    assert_eq!(topic.consume_message(&mut buffer, "1").unwrap().data, b"b".to_vec());
    assert_eq!(buffer.message_count(), 1);
    assert_eq!(topic.get_partition("1").unwrap().current_offset(), 1);
    assert_eq!(topic.get_partition("0").unwrap().current_offset(), 0);
}

#[test]
fn manager_creates_and_finds_topics() {
    let mut manager = TopicManager::new(10, 100, 1000);
    assert!(manager.get_topic("a").is_none());
    assert_eq!(manager.create_topic("a".to_string()).unwrap().name(), "a");
    assert_eq!(manager.get_or_create_topic("b".to_string()).unwrap().name(), "b");
    assert_eq!(manager.get_or_create_topic("a".to_string()).unwrap().name(), "a");
    assert_eq!(manager.get_topic("b").unwrap().name(), "b");
    assert_eq!(manager.list_topics(), vec!["a".to_string(), "b".to_string()]);
}

#[test]
fn manager_refuses_a_taken_name() {
    let mut manager = TopicManager::new(10, 100, 1000);
    manager.create_topic("a".to_string()).unwrap();
    let again = manager.create_topic("a".to_string()).err();
    assert_eq!(again, Some(TesseractError::Storage("Topic already exists: a".to_string())));
    assert_eq!(manager.list_topics().len(), 1);
}

#[test]
fn manager_refuses_beyond_the_cap_and_looks_at_the_cap_first() {
    let mut manager = TopicManager::new(2, 100, 1000);
    manager.create_topic("a".to_string()).unwrap();
    manager.create_topic("b".to_string()).unwrap();
    let third = manager.create_topic("c".to_string()).err();
    assert_eq!(
        third,
        Some(TesseractError::Storage("Maximum topics limit reached: 2".to_string()))
    );
    let taken = manager.create_topic("a".to_string()).err();
    assert_eq!(
        taken,
        Some(TesseractError::Storage("Maximum topics limit reached: 2".to_string()))
    );
    assert!(manager.get_or_create_topic("a".to_string()).is_ok());
    assert!(manager.get_or_create_topic("c".to_string()).is_err());
}

#[test]
fn manager_with_cap_zero_creates_nothing() {
    let mut manager = TopicManager::new(0, 100, 1000);
    assert_eq!(
        manager.create_topic("a".to_string()).err(),
        Some(TesseractError::Storage("Maximum topics limit reached: 0".to_string()))
    );
}

#[test]
fn manager_produce_creates_the_topic() {
    let mut manager = TopicManager::new(10, 100, 1000);
    assert!(manager.has_room("t"));
    assert_eq!(manager.add_message("t".to_string(), message(b"a")), Ok(()));
    let topic = manager.get_topic("t").unwrap();
    assert_eq!(topic.get_partition("0").unwrap().get_message(0).unwrap().data, b"a".to_vec());
    assert!(manager.has_room("t"));
}

#[test]
fn manager_refused_produce_still_creates_the_topic() {
    let mut manager = TopicManager::new(10, 100, 2);
    let refused = manager.add_message("t".to_string(), message(b"abc"));
    assert_eq!(
        refused,
        Err(TesseractError::BufferOverflow(
            "Cannot add message: size=3, current=0/100 messages, 0/2 bytes".to_string()
        ))
    );
    assert!(manager.get_topic("t").is_some());
}

#[test]
fn manager_consume_by_topic_and_partition() {
    let mut manager = TopicManager::new(10, 100, 1000);
    manager.add_message("t".to_string(), message(b"a")).unwrap();
    assert!(manager.consume_message("nope", "0").is_none());
    assert!(manager.consume_message("t", "9").is_none());
    assert!(manager.consume_message("t", "1").is_none());
    assert_eq!(manager.consume_message("t", "0").unwrap().data, b"a".to_vec());
    assert!(manager.consume_message("t", "0").is_none());
}

#[test]
fn manager_buffer_is_shared_by_all_topics() {
    let mut manager = TopicManager::new(10, 100, 5);
    manager.add_message("a".to_string(), message(b"abc")).unwrap();
    assert!(manager.add_message("b".to_string(), message(b"def")).is_err());
    assert_eq!(manager.add_message("b".to_string(), message(b"de")), Ok(()));
    manager.consume_message("a", "0").unwrap();
    assert_eq!(manager.add_message("b".to_string(), message(b"fgh")), Ok(()));
}

#[test]
fn manager_delete_releases_what_the_topic_held() {
    let mut manager = TopicManager::new(10, 100, 5);
    manager.add_message("a".to_string(), message(b"abc")).unwrap();
    manager.add_message("a".to_string(), message(b"de")).unwrap();
    assert!(manager.add_message("b".to_string(), message(b"x")).is_err());
    assert_eq!(manager.delete_topic("a"), Ok(()));
    assert!(manager.get_topic("a").is_none());
    assert_eq!(manager.list_topics(), vec!["b".to_string()]);
    assert_eq!(manager.add_message("b".to_string(), message(b"12345")), Ok(()));
}

#[test]
fn manager_delete_of_unknown_topic() {
    let mut manager = TopicManager::new(10, 100, 5);
    assert_eq!(manager.delete_topic("a"), Err(TesseractError::TopicNotFound("a".to_string())));
}

#[test]
fn buffer_counts_what_the_partitions_hold() {
    let mut buffer = BufferManager::new(5, 40);
    let mut topic = Topic::new("t".to_string());
    for round in 0..30usize {
        if round % 4 == 3 {
            let id = (round % 3).to_string();
            let _ = topic.consume_message(&mut buffer, &id);
        } else {
            let _ = topic.add_message(&mut buffer, message(&vec![0u8; round % 7]));
        }
        let mut held = 0;
        let mut bytes = 0;
        for id in ["0", "1", "2"] {
            let partition = topic.get_partition(id).unwrap();
            held += partition.message_count();
            let base = partition.current_offset();
            for offset in base..base + partition.message_count() {
                bytes += partition.get_message(offset).unwrap().size();
            }
        }
        assert_eq!(buffer.message_count(), held);
        assert_eq!(buffer.current_size(), bytes);
    }
}

#[test]
fn message_stamped_keeps_payload_and_time() {
    let made = Message::stamped(vec![4, 5], 99);
    assert_eq!(made.data, vec![4, 5]);
    assert_eq!(made.timestamp, 99);
}

#[test]
fn message_stamped_by_a_clock_before_the_epoch_gets_zero() {
    assert_eq!(Message::stamped_by(vec![1], Some(12)).timestamp, 12);
    let early = Message::stamped_by(vec![1], None);
    assert_eq!(early.timestamp, 0);
    assert_eq!(early.data, vec![1]);
}

#[test]
fn buffer_counters_stay_within_their_limits() {
    let mut buffer = BufferManager::new(3, 10);
    let mut topic = Topic::new("t".to_string());
    for round in 0..40usize {
        let _ = topic.add_message(&mut buffer, message(&vec![0u8; round % 6]));
        assert!(buffer.message_count() <= 3);
        assert!(buffer.current_size() <= 10);
    }
}
