pub mod consumer;
pub mod producer;

pub use consumer::{handle_consume, handle_consume_next};
pub use producer::handle_produce;
