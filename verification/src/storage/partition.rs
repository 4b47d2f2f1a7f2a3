use crate::error::{ErrorModel, TesseractError};
use crate::storage::buffer::{BufferManager, BufferModel};
use crate::storage::message::{Message, MessageModel};
use crate::storage::tally::{lemma_total_drop_first, lemma_total_push, total};
use std::collections::VecDeque;
use vstd::prelude::*;

verus! {

/// The mathematical value of a [`Partition`]: its id, the offset of its head
/// and the messages it holds, oldest first.
pub struct PartitionModel {
    pub id: Seq<char>,
    pub base_offset: nat,
    pub messages: Seq<MessageModel>,
}

impl PartitionModel {
    /// The offset that the next appended message will get.
    pub open spec fn next_offset(self) -> nat {
        self.base_offset + self.messages.len()
    }

    /// The message at a logical offset, if the partition still holds it.
    pub open spec fn get(self, offset: nat) -> Option<MessageModel> {
        if self.base_offset <= offset < self.next_offset() {
            Some(self.messages[offset - self.base_offset])
        } else {
            None
        }
    }

    /// The offsets handed out so far fit the machine's integers.
    pub open spec fn wf(self) -> bool {
        self.next_offset() <= usize::MAX
    }

    /// Whether one more offset can be handed out.
    pub open spec fn has_room(self) -> bool {
        self.next_offset() < usize::MAX
    }

    /// The payload bytes of all messages held.
    pub open spec fn held_bytes(self) -> nat {
        total(self.messages, |m: MessageModel| m.size())
    }

    /// The oldest message held, if any.
    pub open spec fn head(self) -> Option<MessageModel> {
        if self.messages.len() > 0 {
            Some(self.messages[0])
        } else {
            None
        }
    }

    /// The partition with `message` put at its tail.
    pub open spec fn with_tail(self, message: MessageModel) -> PartitionModel {
        PartitionModel { messages: self.messages.push(message), ..self }
    }

    /// The partition with its head dropped and its base offset moved on by one.
    pub open spec fn without_head(self) -> PartitionModel
        recommends
            self.messages.len() > 0,
    {
        PartitionModel {
            base_offset: self.base_offset + 1,
            messages: self.messages.drop_first(),
            ..self
        }
    }
}

/// A partition together with the buffer that accounts for it.
pub struct Ledger {
    pub partition: PartitionModel,
    pub buffer: BufferModel,
}

impl Ledger {
    /// Whether the buffer is saturated while the partition has a head to drop.
    pub open spec fn under_pressure(self) -> bool {
        !self.buffer.admits(0) && self.partition.messages.len() > 0
    }

    /// Drops the partition's head and releases it from the buffer.
    pub open spec fn drop_head(self) -> Ledger
        recommends
            self.partition.messages.len() > 0,
    {
        Ledger {
            partition: self.partition.without_head(),
            buffer: self.buffer.released(self.partition.messages[0].size()),
        }
    }

    /// Head-drop eviction: heads are dropped from this partition, and from no
    /// other, for as long as the buffer stays saturated and a head is left.
    pub open spec fn relieved(self) -> Ledger
        decreases self.partition.messages.len(),
    {
        if self.under_pressure() {
            self.drop_head().relieved()
        } else {
            self
        }
    }

    /// What an append makes of a partition and its buffer: nothing where the
    /// buffer refuses the message; else the message at the tail, followed by
    /// eviction.
    pub open spec fn appended(self, message: MessageModel) -> Ledger {
        if self.buffer.admits(message.size()) {
            (Ledger {
                partition: self.partition.with_tail(message),
                buffer: self.buffer.admitted(message.size()),
            }).relieved()
        } else {
            self
        }
    }

    /// What consuming the head makes of a partition and its buffer.
    pub open spec fn consumed(self) -> Ledger {
        if self.partition.messages.len() > 0 {
            self.drop_head()
        } else {
            self
        }
    }
}

/// A message admitted to the tail of a partition stays, unless it brings the
/// buffer to its message limit: then exactly one message, the partition's
/// oldest, is dropped in its place.
pub proof fn lemma_append_drops_at_most_one(before: Ledger, message: MessageModel)
    requires
        before.buffer.admits(message.size()),
    ensures
        before.buffer.messages + 1 < before.buffer.max_messages ==> before.appended(message) == (
        Ledger {
            partition: before.partition.with_tail(message),
            buffer: before.buffer.admitted(message.size()),
        }),
        before.buffer.messages + 1 == before.buffer.max_messages ==> before.appended(message) == (
        Ledger {
            partition: before.partition.with_tail(message),
            buffer: before.buffer.admitted(message.size()),
        }).drop_head(),
{
    let pushed = Ledger {
        partition: before.partition.with_tail(message),
        buffer: before.buffer.admitted(message.size()),
    };
    if before.buffer.messages + 1 == before.buffer.max_messages {
        let dropped = pushed.drop_head();
        assert(pushed.relieved() == dropped.relieved());
    }
}

impl Ledger {
    /// The buffer counts exactly what this partition holds on top of what is
    /// held elsewhere.
    pub open spec fn balanced_with(self, other_messages: nat, other_bytes: nat) -> bool {
        &&& self.buffer.messages == other_messages + self.partition.messages.len()
        &&& self.buffer.bytes == other_bytes + self.partition.held_bytes()
    }
}

/// Dropping the head keeps the buffer's count in step with the partition.
pub proof fn lemma_drop_head_keeps_balance(before: Ledger, other_messages: nat, other_bytes: nat)
    requires
        before.balanced_with(other_messages, other_bytes),
        before.partition.messages.len() > 0,
    ensures
        before.drop_head().balanced_with(other_messages, other_bytes),
{
    lemma_total_drop_first(before.partition.messages, |m: MessageModel| m.size());
}

/// Eviction keeps the buffer's count in step with the partition.
pub proof fn lemma_relieved_keeps_balance(before: Ledger, other_messages: nat, other_bytes: nat)
    requires
        before.balanced_with(other_messages, other_bytes),
    ensures
        before.relieved().balanced_with(other_messages, other_bytes),
    decreases before.partition.messages.len(),
{
    if before.under_pressure() {
        lemma_drop_head_keeps_balance(before, other_messages, other_bytes);
        lemma_relieved_keeps_balance(before.drop_head(), other_messages, other_bytes);
    }
}

/// An append, accepted or refused, keeps the buffer's count in step with the
/// partition.
pub proof fn lemma_appended_keeps_balance(
    before: Ledger,
    message: MessageModel,
    other_messages: nat,
    other_bytes: nat,
)
    requires
        before.balanced_with(other_messages, other_bytes),
    ensures
        before.appended(message).balanced_with(other_messages, other_bytes),
{
    if before.buffer.admits(message.size()) {
        let pushed = Ledger {
            partition: before.partition.with_tail(message),
            buffer: before.buffer.admitted(message.size()),
        };
        lemma_total_push(before.partition.messages, |m: MessageModel| m.size(), message);
        lemma_relieved_keeps_balance(pushed, other_messages, other_bytes);
    }
}

/// Consuming the head keeps the buffer's count in step with the partition.
pub proof fn lemma_consumed_keeps_balance(before: Ledger, other_messages: nat, other_bytes: nat)
    requires
        before.balanced_with(other_messages, other_bytes),
    ensures
        before.consumed().balanced_with(other_messages, other_bytes),
{
    if before.partition.messages.len() > 0 {
        lemma_drop_head_keeps_balance(before, other_messages, other_bytes);
    }
}

/// Eviction keeps the buffer's counters within their limits.
pub proof fn lemma_relieved_keeps_limits(before: Ledger)
    requires
        before.buffer.within_limits(),
    ensures
        before.relieved().buffer.within_limits(),
        before.relieved().buffer.max_messages == before.buffer.max_messages,
        before.relieved().buffer.max_bytes == before.buffer.max_bytes,
    decreases before.partition.messages.len(),
{
    if before.under_pressure() {
        lemma_relieved_keeps_limits(before.drop_head());
    }
}

/// A consume keeps the buffer's counters within their limits, and leaves the
/// limits as they are.
pub proof fn lemma_consumed_keeps_limits(before: Ledger)
    requires
        before.buffer.within_limits(),
    ensures
        before.consumed().buffer.within_limits(),
        before.consumed().buffer.max_messages == before.buffer.max_messages,
        before.consumed().buffer.max_bytes == before.buffer.max_bytes,
{
}

/// An append, accepted or refused, keeps the buffer's counters within their
/// limits, and leaves the limits as they are.
pub proof fn lemma_appended_keeps_limits(before: Ledger, message: MessageModel)
    requires
        before.buffer.within_limits(),
    ensures
        before.appended(message).buffer.within_limits(),
        before.appended(message).buffer.max_messages == before.buffer.max_messages,
        before.appended(message).buffer.max_bytes == before.buffer.max_bytes,
{
    if before.buffer.admits(message.size()) {
        lemma_relieved_keeps_limits(
            Ledger {
                partition: before.partition.with_tail(message),
                buffer: before.buffer.admitted(message.size()),
            },
        );
    }
}

/// Eviction never moves the base offset back, leaves the id alone and keeps
/// the offsets within the machine's integers.
pub proof fn lemma_relieved_moves_forward(before: Ledger)
    ensures
        before.relieved().partition.base_offset >= before.partition.base_offset,
        before.relieved().partition.next_offset() == before.partition.next_offset(),
        before.relieved().partition.id == before.partition.id,
    decreases before.partition.messages.len(),
{
    if before.under_pressure() {
        lemma_relieved_moves_forward(before.drop_head());
    }
}

/// One operation on a partition.
pub enum PartitionOp {
    /// An append of this message.
    Append(MessageModel),
    /// A consume of the head.
    Consume,
    /// A read at this offset.
    Get(nat),
}

impl Ledger {
    /// What one operation makes of a partition and its buffer.
    pub open spec fn after(self, op: PartitionOp) -> Ledger {
        match op {
            PartitionOp::Append(message) => self.appended(message),
            PartitionOp::Consume => self.consumed(),
            PartitionOp::Get(_) => self,
        }
    }

    /// What a run of operations, first to last, makes of a partition and its
    /// buffer.
    pub open spec fn after_all(self, ops: Seq<PartitionOp>) -> Ledger
        decreases ops.len(),
    {
        if ops.len() == 0 {
            self
        } else {
            self.after_all(ops.drop_last()).after(ops.last())
        }
    }

    /// What a run of appends, first to last, makes of a partition and its
    /// buffer.
    pub open spec fn appended_all(self, messages: Seq<MessageModel>) -> Ledger
        decreases messages.len(),
    {
        if messages.len() == 0 {
            self
        } else {
            self.appended_all(messages.drop_last()).appended(messages.last())
        }
    }

    /// Whether every append of a run is admitted and none brings the buffer
    /// to its message limit, so that nothing is evicted.
    pub open spec fn takes_quietly(self, messages: Seq<MessageModel>) -> bool
        decreases messages.len(),
    {
        messages.len() > 0 ==> {
            let before = self.appended_all(messages.drop_last());
            &&& self.takes_quietly(messages.drop_last())
            &&& before.buffer.admits(messages.last().size())
            &&& before.buffer.messages + 1 < before.buffer.max_messages
        }
    }
}

/// Whatever is appended, consumed and read, and in whatever order, the base
/// offset of a partition never goes back.
pub proof fn lemma_offset_never_goes_back(start: Ledger, ops: Seq<PartitionOp>)
    ensures
        start.after_all(ops).partition.base_offset >= start.partition.base_offset,
    decreases ops.len(),
{
    if ops.len() > 0 {
        lemma_offset_never_goes_back(start, ops.drop_last());
        let before = start.after_all(ops.drop_last());
        match ops.last() {
            PartitionOp::Append(message) => {
                if before.buffer.admits(message.size()) {
                    lemma_relieved_moves_forward(
                        Ledger {
                            partition: before.partition.with_tail(message),
                            buffer: before.buffer.admitted(message.size()),
                        },
                    );
                }
            },
            PartitionOp::Consume => {},
            PartitionOp::Get(_) => {},
        }
    }
}

/// After a run of appends that were all admitted, with nothing consumed and
/// nothing evicted, the partition holds what it held before
/// followed by the appended messages in their order, so that a read at the
/// offset of the `i`-th of them returns it.
pub proof fn lemma_appends_are_retained(start: Ledger, messages: Seq<MessageModel>)
    requires
        start.takes_quietly(messages),
    ensures
        start.appended_all(messages).partition.base_offset == start.partition.base_offset,
        start.appended_all(messages).partition.messages == start.partition.messages + messages,
        forall|i: int|
            0 <= i < messages.len() ==> start.appended_all(messages).partition.get(
                start.partition.next_offset() + i as nat,
            ) == Some(#[trigger] messages[i]),
    decreases messages.len(),
{
    if messages.len() > 0 {
        let earlier = messages.drop_last();
        lemma_appends_are_retained(start, earlier);
        lemma_append_drops_at_most_one(start.appended_all(earlier), messages.last());
    }
}

/// Eviction drops heads and nothing else: what is left is what was held with
/// as many messages taken off the front as the base offset moved on.
pub proof fn lemma_relieved_drops_heads_only(before: Ledger)
    ensures
        before.relieved().partition.base_offset >= before.partition.base_offset,
        before.relieved().partition.base_offset - before.partition.base_offset
            <= before.partition.messages.len(),
        before.relieved().partition.messages == before.partition.messages.skip(
            before.relieved().partition.base_offset - before.partition.base_offset,
        ),
    decreases before.partition.messages.len(),
{
    if before.under_pressure() {
        let next = before.drop_head();
        lemma_relieved_drops_heads_only(next);
        let moved = next.relieved().partition.base_offset - next.partition.base_offset;
        assert(next.partition.messages.skip(moved) =~= before.partition.messages.skip(moved + 1));
    } else {
        assert(before.partition.messages.skip(0) =~= before.partition.messages);
    }
}

/// What an append does to a partition, whether it is admitted, refused or
/// followed by eviction: a refused append changes nothing; an admitted one
/// puts the message at the tail and then drops as many messages from the
/// head, and from nowhere else, as the base offset moves on.
pub proof fn lemma_append_drops_heads_only(before: Ledger, message: MessageModel)
    ensures
        !before.buffer.admits(message.size()) ==> before.appended(message) == before,
        before.appended(message).partition.base_offset >= before.partition.base_offset,
        before.buffer.admits(message.size()) ==> before.appended(message).partition.messages
            == before.partition.messages.push(message).skip(
            before.appended(message).partition.base_offset - before.partition.base_offset,
        ),
        before.buffer.admits(message.size()) ==> before.appended(message).partition.next_offset()
            == before.partition.next_offset() + 1,
{
    if before.buffer.admits(message.size()) {
        let pushed = Ledger {
            partition: before.partition.with_tail(message),
            buffer: before.buffer.admitted(message.size()),
        };
        lemma_relieved_drops_heads_only(pushed);
        lemma_relieved_moves_forward(pushed);
    }
}

/// An append that is admitted and leaves the buffer below its message limit
/// keeps everything: the message stands at the tail, under the offset that
/// was next, behind what was held, and the base offset stays.
pub proof fn lemma_quiet_append_is_retained(before: Ledger, message: MessageModel)
    requires
        before.buffer.admits(message.size()),
        before.buffer.messages + 1 < before.buffer.max_messages,
    ensures
        before.appended(message).partition == before.partition.with_tail(message),
        before.appended(message).partition.get(before.partition.next_offset()) == Some(message),
        forall|offset: nat|
            offset < before.partition.next_offset() ==> before.appended(message).partition.get(
                offset,
            ) == #[trigger] before.partition.get(offset),
{
    lemma_append_drops_at_most_one(before, message);
}

/// An ordered queue of messages. Offsets number the messages ever appended;
/// the base offset is that of the current head.
pub struct Partition {
    id: String,
    messages: VecDeque<Message>,
    offset: usize,
}

impl View for Partition {
    type V = PartitionModel;

    closed spec fn view(&self) -> PartitionModel {
        PartitionModel {
            id: self.id@,
            base_offset: self.offset as nat,
            messages: self.messages@.map_values(|m: Message| m@),
        }
    }
}

impl Partition {
    /// The offsets handed out so far fit the machine's integers.
    pub open spec fn wf(&self) -> bool {
        self@.wf()
    }

    /// An empty partition with base offset zero.
    pub fn new(id: String) -> (partition: Self)
        ensures
            partition.wf(),
            partition@ == (PartitionModel { id: id@, base_offset: 0, messages: Seq::empty() }),
    {
        let partition = Self { id, messages: VecDeque::new(), offset: 0 };
        assert(partition@.messages =~= Seq::empty());
        partition
    }

    /// The partition's id.
    pub fn id(&self) -> (id: &str)
        ensures
            id@ == self@.id,
    {
        self.id.as_str()
    }

    /// Whether the partition's id is `id`.
    pub(crate) fn has_id(&self, id: &String) -> (same: bool)
        ensures
            same == (self@.id == id@),
    {
        self.id == *id
    }

    /// Appends `msg` if the buffer admits it, then relieves a saturated buffer
    /// by dropping from this partition's head.
    pub fn add_message(&mut self, buffer: &mut BufferManager, msg: Message) -> (outcome: Result<
        (),
        TesseractError,
    >)
        requires
            old(self).wf(),
            old(self)@.has_room(),
        ensures
            final(self).wf(),
            (Ledger { partition: final(self)@, buffer: final(buffer)@ }) == (Ledger {
                partition: old(self)@,
                buffer: old(buffer)@,
            }).appended(msg@),
            outcome is Ok <==> old(buffer)@.admits(msg@.size()),
            outcome matches Err(e) ==> e@ == ErrorModel::BufferOverflow(
                old(buffer)@.refusal(msg@.size()),
            ),
            final(self)@.base_offset >= old(self)@.base_offset,
            old(buffer)@.within_limits() ==> final(buffer)@.within_limits(),
    {
        let ghost start = Ledger { partition: self@, buffer: buffer@ };
        proof {
            if start.buffer.within_limits() {
                lemma_appended_keeps_limits(start, msg@);
            }
        }
        let msg_size = msg.size();
        match buffer.add_message(msg_size) {
            Err(e) => {
                return Err(e);
            },
            Ok(()) => {},
        }
        let ghost pushed = Ledger {
            partition: start.partition.with_tail(msg@),
            buffer: start.buffer.admitted(msg@.size()),
        };
        self.messages.push_back(msg);
        assert(self@.messages =~= pushed.partition.messages);
        while !buffer.can_add(0) && self.messages.len() > 0
            invariant
                self.wf(),
                (Ledger { partition: self@, buffer: buffer@ }).relieved() == pushed.relieved(),
                self@.base_offset >= start.partition.base_offset,
            decreases self.messages.len(),
        {
            let ghost now = Ledger { partition: self@, buffer: buffer@ };
            match self.messages.pop_front() {
                Some(old_msg) => {
                    buffer.remove_message(old_msg.size());
                    self.offset += 1;
                    assert(self@.messages =~= now.partition.messages.drop_first());
                },
                None => {},
            }
        }
        Ok(())
    }

    /// A copy of the message at a logical offset, if the partition holds it.
    pub fn get_message(&self, offset: usize) -> (found: Option<Message>)
        ensures
            match found {
                Some(message) => self@.get(offset as nat) == Some(message@),
                None => self@.get(offset as nat) is None,
            },
    {
        if offset < self.offset {
            return None;
        }
        let index = offset - self.offset;
        if index < self.messages.len() {
            Some(self.messages[index].clone())
        } else {
            None
        }
    }

    /// The offset of the head: the one that the next consume would hand out.
    pub fn current_offset(&self) -> (offset: usize)
        ensures
            offset == self@.base_offset,
    {
        self.offset
    }

    /// The number of messages held.
    pub fn message_count(&self) -> (count: usize)
        ensures
            count == self@.messages.len(),
    {
        self.messages.len()
    }

    /// Takes the head out, if there is one, and releases it from the buffer.
    pub fn consume_message(&mut self, buffer: &mut BufferManager) -> (taken: Option<Message>)
        requires
            old(self).wf(),
        ensures
            final(self).wf(),
            (Ledger { partition: final(self)@, buffer: final(buffer)@ }) == (Ledger {
                partition: old(self)@,
                buffer: old(buffer)@,
            }).consumed(),
            match taken {
                Some(message) => old(self)@.head() == Some(message@),
                None => old(self)@.head() is None,
            },
            final(self)@.base_offset >= old(self)@.base_offset,
            old(buffer)@.within_limits() ==> final(buffer)@.within_limits(),
    {
        match self.messages.pop_front() {
            Some(msg) => {
                self.offset += 1;
                buffer.remove_message(msg.size());
                assert(self@.messages =~= old(self)@.messages.drop_first());
                Some(msg)
            },
            None => None,
        }
    }

    /// Drops every message held, head by head, and releases each from the
    /// buffer.
    pub(crate) fn release_all(&mut self, buffer: &mut BufferManager)
        requires
            old(self).wf(),
        ensures
            final(self).wf(),
            final(self)@.messages.len() == 0,
            final(self)@.id == old(self)@.id,
            final(buffer)@.max_messages == old(buffer)@.max_messages,
            final(buffer)@.max_bytes == old(buffer)@.max_bytes,
            old(buffer)@.within_limits() ==> final(buffer)@.within_limits(),
            forall|m: nat, b: nat|
                (Ledger { partition: old(self)@, buffer: old(buffer)@ }).balanced_with(m, b) ==> (
                Ledger { partition: final(self)@, buffer: final(buffer)@ }).balanced_with(m, b),
    {
        while self.messages.len() > 0
            invariant
                self.wf(),
                old(buffer)@.within_limits() ==> buffer@.within_limits(),
                self.id == old(self).id,
                buffer@.max_messages == old(buffer)@.max_messages,
                buffer@.max_bytes == old(buffer)@.max_bytes,
                forall|m: nat, b: nat|
                    (Ledger { partition: old(self)@, buffer: old(buffer)@ }).balanced_with(m, b)
                        ==> (Ledger { partition: self@, buffer: buffer@ }).balanced_with(m, b),
            decreases self.messages.len(),
        {
            let ghost now = Ledger { partition: self@, buffer: buffer@ };
            match self.messages.pop_front() {
                Some(dropped) => {
                    buffer.remove_message(dropped.size());
                    self.offset += 1;
                },
                None => {},
            }
            proof {
                assert(self@.messages =~= now.partition.messages.drop_first());
                let next = Ledger { partition: self@, buffer: buffer@ };
                assert forall|m: nat, b: nat| now.balanced_with(m, b) implies next.balanced_with(
                    m,
                    b,
                ) by {
                    lemma_drop_head_keeps_balance(now, m, b);
                }
            }
        }
    }
}

} // verus!
