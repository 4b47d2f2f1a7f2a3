use vstd::prelude::*;
use vstd::string::StringExecFns;

verus! {

/// How much the broker logs.
#[derive(Debug, Clone, Copy)]
pub enum LogLevel {
    INFO,
    DEBUG,
    ERROR,
    WARN,
    FATAL,
}

impl Default for LogLevel {
    fn default() -> (level: Self)
        ensures
            level is INFO,
    {
        LogLevel::INFO
    }
}

/// Where the server listens and how many connections it expects.
#[derive(Debug)]
pub struct ServerConfig {
    pub bind_addr: String,
    pub max_connections: usize,
}

/// The limits of the storage engine. The two message limits hold for the
/// broker as a whole: they are the limits of its one buffer.
#[derive(Debug, Clone, Copy)]
pub struct StorageConfig {
    pub max_messages_per_partition: usize,
    pub max_message_size_bytes: usize,
    pub max_topics: usize,
}

/// The log level and, where the log goes to a file, its path.
#[derive(Debug)]
pub struct LoggingConfig {
    pub level: LogLevel,
    pub file: Option<String>,
}

/// All that the broker is configured with.
#[derive(Debug)]
pub struct Config {
    pub server: ServerConfig,
    pub storage: StorageConfig,
    pub logging: LoggingConfig,
}

impl Clone for ServerConfig {
    fn clone(&self) -> (copy: Self)
        ensures
            copy == *self,
    {
        ServerConfig { bind_addr: self.bind_addr.clone(), max_connections: self.max_connections }
    }
}

impl Clone for LoggingConfig {
    fn clone(&self) -> (copy: Self)
        ensures
            copy == *self,
    {
        LoggingConfig {
            level: self.level,
            file: match &self.file {
                Some(path) => Some(path.clone()),
                None => None,
            },
        }
    }
}

impl Clone for Config {
    fn clone(&self) -> (copy: Self)
        ensures
            copy == *self,
    {
        Config {
            server: self.server.clone(),
            storage: self.storage,
            logging: self.logging.clone(),
        }
    }
}

/// The number of connections the server expects unless told otherwise.
pub fn default_max_connections() -> (limit: usize)
    ensures
        limit == 1000,
{
    1000
}

/// The message limit of the buffer unless told otherwise.
pub fn default_max_messages() -> (limit: usize)
    ensures
        limit == 10000,
{
    10000
}

/// The byte limit of the buffer unless told otherwise: 1 MiB.
pub fn default_max_size() -> (limit: usize)
    ensures
        limit == 1024 * 1024,
{
    1024 * 1024
}

/// The most topics there may be unless told otherwise.
pub fn default_max_topics() -> (limit: usize)
    ensures
        limit == 100,
{
    100
}

impl Config {
    /// The configuration that the broker runs with where none is given.
    pub fn default() -> (config: Self)
        ensures
            config.server.bind_addr@ == "127.0.0.1:2369"@,
            config.server.max_connections == 1000,
            config.storage.max_messages_per_partition == 10000,
            config.storage.max_message_size_bytes == 1024 * 1024,
            config.storage.max_topics == 100,
            config.logging.level is INFO,
            config.logging.file is None,
    {
        Self {
            server: ServerConfig {
                bind_addr: String::from_str("127.0.0.1:2369"),
                max_connections: default_max_connections(),
            },
            storage: StorageConfig {
                max_messages_per_partition: default_max_messages(),
                max_message_size_bytes: default_max_size(),
                max_topics: default_max_topics(),
            },
            logging: LoggingConfig { level: LogLevel::INFO, file: None },
        }
    }
}

} // verus!
