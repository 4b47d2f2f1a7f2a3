pub mod config;
pub mod error;
pub mod handler;
pub mod protocol;
pub mod server;
pub mod storage;
pub mod text;

pub use config::Config;
pub use error::TesseractError;
pub use protocol::{Frame, MeierCodec, Status};
