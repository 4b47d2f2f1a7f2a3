pub mod buffer;
pub mod message;
pub mod partition;
pub mod tally;
pub mod topic;


pub use buffer::BufferManager;
pub use message::Message;
pub use partition::Partition;

pub use topic::{Topic, TopicManager};
