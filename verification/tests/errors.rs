use tesseract_core::config::{
    default_max_connections, default_max_messages, default_max_size, default_max_topics, LogLevel,
};
use tesseract_core::{Config, TesseractError};

#[test]
fn error_text_by_kind() {
    let detail = || "why".to_string();
    assert_eq!(TesseractError::Io(detail()).to_string(), "IO error: why");
    assert_eq!(TesseractError::Protocol(detail()).to_string(), "Protocol error: why");
    assert_eq!(TesseractError::Storage(detail()).to_string(), "why");
    assert_eq!(TesseractError::Config(detail()).to_string(), "Configuration error: why");
    assert_eq!(TesseractError::BufferOverflow(detail()).to_string(), "Buffer overflow: why");
    assert_eq!(TesseractError::TopicNotFound(detail()).to_string(), "Topic not found: why");
    assert_eq!(
        TesseractError::PartitionNotFound(detail()).to_string(),
        "Partition not found: why"
    );
}

#[test]
fn default_configuration() {
    let config = Config::default();
    assert_eq!(config.server.bind_addr, "127.0.0.1:2369");
    assert_eq!(config.server.max_connections, 1000);
    assert_eq!(config.storage.max_messages_per_partition, 10000);
    assert_eq!(config.storage.max_message_size_bytes, 1_048_576);
    assert_eq!(config.storage.max_topics, 100);
    assert!(matches!(config.logging.level, LogLevel::INFO));
    assert!(config.logging.file.is_none());
}

#[test]
fn default_limits() {
    assert_eq!(default_max_connections(), 1000);
    assert_eq!(default_max_messages(), 10000);
    assert_eq!(default_max_size(), 1024 * 1024);
    assert_eq!(default_max_topics(), 100);
    assert!(matches!(LogLevel::default(), LogLevel::INFO));
}

#[test]
fn configuration_clone_keeps_the_fields() {
    let mut config = Config::default();
    config.logging.file = Some("broker.log".to_string());
    config.storage.max_topics = 7;
    let copy = config.clone();
    assert_eq!(copy.server.bind_addr, config.server.bind_addr);
    assert_eq!(copy.server.max_connections, 1000);
    assert_eq!(copy.storage.max_topics, 7);
    assert_eq!(copy.logging.file, Some("broker.log".to_string()));
}
