use crate::error::{ErrorModel, TesseractError};
use std::time::{Duration, SystemTime, UNIX_EPOCH};
use vstd::prelude::*;
use vstd::string::StringExecFns;
use vstd::utf8::{decode_utf8, encode_utf8, encode_utf8_decode_utf8, valid_utf8};

verus! {

/// The mathematical value of a [`Message`].
pub struct MessageModel {
    /// The payload.
    pub data: Seq<u8>,
    /// Seconds since the Unix epoch at which the message was taken in.
    pub timestamp: nat,
}

impl MessageModel {
    /// A payload with the time at which it was taken in.
    pub open spec fn stamped(data: Seq<u8>, timestamp: nat) -> MessageModel {
        MessageModel { data, timestamp }
    }

    /// The size of a message is the length of its payload.
    pub open spec fn size(self) -> nat {
        self.data.len()
    }
}

/// One payload with the time at which the broker took it in.
#[derive(Debug)]
pub struct Message {
    pub data: Vec<u8>,
    pub timestamp: u64,
}

impl View for Message {
    type V = MessageModel;

    open spec fn view(&self) -> MessageModel {
        MessageModel { data: self.data@, timestamp: self.timestamp as nat }
    }
}

impl Clone for Message {
    fn clone(&self) -> (copy: Self)
        ensures
            copy@ == self@,
    {
        Message { data: self.data.clone(), timestamp: self.timestamp }
    }
}

/// What the standard library says is wrong with bytes that are not UTF-8.
pub uninterp spec fn utf8_fault(bytes: Seq<u8>) -> Seq<char>;

/// A reading of the system clock, opaque to the verifier.
#[verifier::external_type_specification]
#[verifier::external_body]
pub struct ExSystemTime(SystemTime);

/// The wall clock.
///
/// Trusted: calls `SystemTime::now` of the standard library. Nothing is
/// claimed of the reading.
#[verifier::external_body]
fn wall_clock() -> SystemTime {
    SystemTime::now()
}

/// The time from the Unix epoch to a reading; `None` where the reading is
/// earlier than the epoch.
///
/// Trusted: calls `SystemTime::duration_since` of the standard library.
/// Nothing is claimed of the result.
#[verifier::external_body]
fn since_epoch(reading: &SystemTime) -> Option<Duration> {
    reading.duration_since(UNIX_EPOCH).ok()
}

/// The whole seconds of a span of time.
///
/// Trusted: calls `Duration::as_secs` of the standard library. Nothing is
/// claimed of the result.
#[verifier::external_body]
fn whole_seconds(span: &Duration) -> u64 {
    span.as_secs()
}

/// Reads bytes as UTF-8 text.
///
/// Trusted: calls `String::from_utf8` of the standard library, which returns
/// the text whose encoding the bytes are if they are well-formed UTF-8, and
/// otherwise an error, handed back here as the text it displays.
#[verifier::external_body]
fn text_from_utf8(bytes: Vec<u8>) -> (outcome: Result<String, String>)
    ensures
        match outcome {
            Ok(text) => valid_utf8(bytes@) && encode_utf8(text@) == bytes@,
            Err(fault) => !valid_utf8(bytes@) && fault@ == utf8_fault(bytes@),
        },
{
    String::from_utf8(bytes).map_err(|fault| fault.to_string())
}

impl Message {
    /// The timestamp that a reading of the clock gives: its seconds since
    /// the epoch, or zero where the clock stands before the epoch.
    pub open spec fn timestamp_of(reading: Option<u64>) -> nat {
        match reading {
            Some(seconds) => seconds as nat,
            None => 0,
        }
    }

    /// A message with the given payload, taken in at `timestamp`.
    pub fn stamped(data: Vec<u8>, timestamp: u64) -> (message: Self)
        ensures
            message@ == MessageModel::stamped(data@, timestamp as nat),
    {
        Self { data, timestamp }
    }

    /// A message with the given payload, stamped as a reading of the clock
    /// says: `reading` holds the seconds since the epoch, if the clock stands
    /// behind it.
    pub fn stamped_by(data: Vec<u8>, reading: Option<u64>) -> (message: Self)
        ensures
            message@ == MessageModel::stamped(data@, Self::timestamp_of(reading)),
    {
        match reading {
            Some(seconds) => Self::stamped(data, seconds),
            None => Self::stamped(data, 0),
        }
    }

    /// A message with the given payload, stamped with the current time.
    /// Whatever the clock says, the message is that of
    /// [`Message::stamped_by`] for some reading.
    pub fn new(data: Vec<u8>) -> (message: Self)
        ensures
            message@.data == data@,
            exists|reading: Option<u64>|
                message@ == MessageModel::stamped(data@, #[trigger] Self::timestamp_of(reading)),
    {
        let reading = match since_epoch(&wall_clock()) {
            Some(span) => Some(whole_seconds(&span)),
            None => None,
        };
        Self::stamped_by(data, reading)
    }

    /// The number of payload bytes.
    pub fn size(&self) -> (size: usize)
        ensures
            size == self@.size(),
    {
        self.data.len()
    }

    /// The text that the payload read as UTF-8 would be.
    pub open spec fn text(model: MessageModel) -> Result<Seq<char>, ErrorModel> {
        if valid_utf8(model.data) {
            Ok(decode_utf8(model.data))
        } else {
            Err(ErrorModel::Protocol("Invalid UTF-8: "@ + utf8_fault(model.data)))
        }
    }

    /// The payload as text, or a protocol error if it is not UTF-8.
    pub fn to_string(&self) -> (outcome: Result<String, TesseractError>)
        ensures
            match outcome {
                Ok(text) => Self::text(self@) == Ok::<Seq<char>, ErrorModel>(text@),
                Err(e) => Self::text(self@) == Err::<Seq<char>, ErrorModel>(e@),
            },
    {
        match text_from_utf8(self.data.clone()) {
            Ok(text) => {
                proof {
                    encode_utf8_decode_utf8(text@);
                }
                Ok(text)
            },
            Err(fault) => {
                let mut detail = String::from_str("Invalid UTF-8: ");
                detail.append(fault.as_str());
                Err(TesseractError::Protocol(detail))
            },
        }
    }
}

} // verus!
