pub mod codec;
pub mod frame;

pub use codec::MeierCodec;
pub use frame::{Frame, Status};
