use crate::error::{ErrorModel, TesseractError};
use crate::text::{decimal, usize_to_string};
use vstd::prelude::*;
use vstd::string::StringExecFns;

verus! {

/// The counters of a [`BufferManager`] as mathematical integers.
pub struct BufferModel {
    /// The most messages that may be held at once.
    pub max_messages: nat,
    /// The most payload bytes that may be held at once.
    pub max_bytes: nat,
    /// The messages held now.
    pub messages: nat,
    /// The payload bytes held now.
    pub bytes: nat,
}

impl BufferModel {
    /// Neither counter is over its limit.
    pub open spec fn within_limits(self) -> bool {
        self.messages <= self.max_messages && self.bytes <= self.max_bytes
    }

    /// Whether one more message of `size` bytes fits under both limits.
    pub open spec fn admits(self, size: nat) -> bool {
        self.messages + 1 <= self.max_messages && self.bytes + size <= self.max_bytes
    }

    /// The counters after a message of `size` bytes was admitted.
    pub open spec fn admitted(self, size: nat) -> BufferModel {
        BufferModel { messages: self.messages + 1, bytes: self.bytes + size, ..self }
    }

    /// The counters after a message of `size` bytes was released; neither
    /// counter goes below zero.
    pub open spec fn released(self, size: nat) -> BufferModel {
        BufferModel {
            messages: if self.messages > 0 {
                (self.messages - 1) as nat
            } else {
                0
            },
            bytes: if size <= self.bytes {
                (self.bytes - size) as nat
            } else {
                0
            },
            ..self
        }
    }

    /// The detail text of the error that refuses a message of `size` bytes.
    pub open spec fn refusal(self, size: nat) -> Seq<char> {
        "Cannot add message: size="@ + decimal(size) + ", current="@ + decimal(self.messages)
            + "/"@ + decimal(self.max_messages) + " messages, "@ + decimal(self.bytes) + "/"@
            + decimal(self.max_bytes) + " bytes"@
    }
}

/// The broker's one admission gate: it counts the messages and payload bytes
/// held in memory and refuses what would exceed either limit.
pub struct BufferManager {
    max_messages: usize,
    max_size_bytes: usize,
    current_size: usize,
    message_count: usize,
}

impl View for BufferManager {
    type V = BufferModel;

    closed spec fn view(&self) -> BufferModel {
        BufferModel {
            max_messages: self.max_messages as nat,
            max_bytes: self.max_size_bytes as nat,
            messages: self.message_count as nat,
            bytes: self.current_size as nat,
        }
    }
}

impl BufferManager {
    /// An empty buffer with the given limits.
    pub fn new(max_messages: usize, max_size_bytes: usize) -> (buffer: Self)
        ensures
            buffer@ == (BufferModel {
                max_messages: max_messages as nat,
                max_bytes: max_size_bytes as nat,
                messages: 0,
                bytes: 0,
            }),
            buffer@.within_limits(),
    {
        Self { max_messages, max_size_bytes, current_size: 0, message_count: 0 }
    }

    /// Whether one more message of `message_size` bytes fits.
    pub fn can_add(&self, message_size: usize) -> (fits: bool)
        ensures
            fits == self@.admits(message_size as nat),
    {
        self.message_count < self.max_messages && match self.current_size.checked_add(
            message_size,
        ) {
            Some(total) => total <= self.max_size_bytes,
            None => false,
        }
    }

    /// Admits a message of `size` bytes, or refuses it and changes nothing.
    pub fn add_message(&mut self, size: usize) -> (outcome: Result<(), TesseractError>)
        ensures
            match outcome {
                Ok(()) => old(self)@.admits(size as nat) && final(self)@ == old(self)@.admitted(
                    size as nat,
                ),
                Err(e) => !old(self)@.admits(size as nat) && final(self)@ == old(self)@ && e@
                    == ErrorModel::BufferOverflow(old(self)@.refusal(size as nat)),
            },
            old(self)@.within_limits() ==> final(self)@.within_limits(),
    {
        if !self.can_add(size) {
            let mut detail = String::from_str("Cannot add message: size=");
            detail.append(usize_to_string(size).as_str());
            detail.append(", current=");
            detail.append(usize_to_string(self.message_count).as_str());
            detail.append("/");
            detail.append(usize_to_string(self.max_messages).as_str());
            detail.append(" messages, ");
            detail.append(usize_to_string(self.current_size).as_str());
            detail.append("/");
            detail.append(usize_to_string(self.max_size_bytes).as_str());
            detail.append(" bytes");
            return Err(TesseractError::BufferOverflow(detail));
        }
        self.current_size += size;
        self.message_count += 1;
        Ok(())
    }

    /// Releases a message of `size` bytes. A release that finds less than it
    /// gives back leaves the counter at zero.
    pub fn remove_message(&mut self, size: usize)
        ensures
            final(self)@ == old(self)@.released(size as nat),
            old(self)@.within_limits() ==> final(self)@.within_limits(),
    {
        if self.current_size >= size {
            self.current_size -= size;
        } else {
            self.current_size = 0;
        }
        if self.message_count > 0 {
            self.message_count -= 1;
        }
    }

    /// The payload bytes held now.
    pub fn current_size(&self) -> (bytes: usize)
        ensures
            bytes == self@.bytes,
    {
        self.current_size
    }

    /// The messages held now.
    pub fn message_count(&self) -> (count: usize)
        ensures
            count == self@.messages,
    {
        self.message_count
    }
}

} // verus!
