use crate::error::{ErrorModel, TesseractError};
use crate::storage::buffer::{BufferManager, BufferModel};
use crate::storage::message::{Message, MessageModel};
use crate::storage::partition::{
    lemma_appended_keeps_balance, lemma_consumed_keeps_balance, lemma_relieved_moves_forward,
    lemma_appended_keeps_limits, lemma_consumed_keeps_limits,
    Ledger, Partition, PartitionModel,
};
use crate::storage::tally::{
    lemma_total_covers, lemma_total_push, lemma_total_remove, lemma_total_update, total,
};
use crate::text::{decimal, lemma_decimal_injective, usize_to_string};
use vstd::prelude::*;
use vstd::string::StringExecFns;

verus! {

/// The number of partitions that every topic has.
pub const DEFAULT_PARTITIONS: usize = 3;

/// The mathematical value of a [`Topic`]: its name, its round-robin cursor
/// and its partitions in the order of their ids.
pub struct TopicModel {
    pub name: Seq<char>,
    pub cursor: nat,
    pub partitions: Seq<PartitionModel>,
}

/// A topic together with the buffer that accounts for it.
pub struct TopicLedger {
    pub topic: TopicModel,
    pub buffer: BufferModel,
}

impl TopicModel {
    /// Every topic has the fixed number of partitions, each well-formed and
    /// with the numeral of its position as its id.
    pub open spec fn wf(self) -> bool {
        &&& self.cursor <= usize::MAX
        &&& self.partitions.len() == DEFAULT_PARTITIONS
        &&& forall|i: int|
            0 <= i < self.partitions.len() ==> (#[trigger] self.partitions[i]).wf()
                && self.partitions[i].id == decimal(i as nat)
    }

    /// The position of the partition that the next append goes to.
    pub open spec fn next_index(self) -> int {
        (self.cursor % self.partitions.len()) as int
    }

    /// The cursor after one more append; it wraps at the machine's limit.
    pub open spec fn next_cursor(self) -> nat {
        if self.cursor >= usize::MAX {
            0
        } else {
            self.cursor + 1
        }
    }

    /// Whether the partition that the next append goes to can hand out one
    /// more offset.
    pub open spec fn has_room(self) -> bool {
        self.partitions[self.next_index()].has_room()
    }

    /// The partition with the given number, if the topic has one.
    pub open spec fn partition_at(self, number: nat) -> Option<PartitionModel> {
        if number < self.partitions.len() {
            Some(self.partitions[number as int])
        } else {
            None
        }
    }

    /// Whether `at` is the position of a partition with the given id.
    pub open spec fn has_id_at(self, id: Seq<char>, at: int) -> bool {
        0 <= at < self.partitions.len() && self.partitions[at].id == id
    }

    /// Whether the topic has a partition with the given id.
    pub open spec fn has_id(self, id: Seq<char>) -> bool {
        exists|at: int| self.has_id_at(id, at)
    }

    /// The position of a partition with the given id, where there is one.
    pub open spec fn position_of(self, id: Seq<char>) -> int {
        choose|at: int| self.has_id_at(id, at)
    }

    /// The partition with the given id, if the topic has one.
    pub open spec fn partition(self, id: Seq<char>) -> Option<PartitionModel> {
        if self.has_id(id) {
            Some(self.partitions[self.position_of(id)])
        } else {
            None
        }
    }

    /// The oldest message of the partition with the given id, if there is
    /// such a partition and it holds any.
    pub open spec fn head(self, id: Seq<char>) -> Option<MessageModel> {
        match self.partition(id) {
            Some(partition) => partition.head(),
            None => None,
        }
    }

    /// The messages held in all partitions.
    pub open spec fn held_messages(self) -> nat {
        total(self.partitions, |p: PartitionModel| p.messages.len())
    }

    /// The payload bytes held in all partitions.
    pub open spec fn held_bytes(self) -> nat {
        total(self.partitions, |p: PartitionModel| p.held_bytes())
    }

    /// The topic with the partition at `at` replaced.
    pub open spec fn with_partition(self, at: int, partition: PartitionModel) -> TopicModel {
        TopicModel { partitions: self.partitions.update(at, partition), ..self }
    }
}

impl TopicLedger {
    /// What an append makes of a topic and its buffer: the cursor moves on,
    /// whether or not the message is admitted, and the partition that the
    /// cursor pointed at takes the append.
    pub open spec fn appended(self, message: MessageModel) -> TopicLedger {
        let at = self.topic.next_index();
        let after = (Ledger { partition: self.topic.partitions[at], buffer: self.buffer }).appended(
            message,
        );
        TopicLedger {
            topic: TopicModel {
                cursor: self.topic.next_cursor(),
                partitions: self.topic.partitions.update(at, after.partition),
                ..self.topic
            },
            buffer: after.buffer,
        }
    }

    /// What consuming the head of the partition at `at` makes of a topic and
    /// its buffer.
    pub open spec fn consumed(self, at: int) -> TopicLedger {
        let after = (Ledger { partition: self.topic.partitions[at], buffer: self.buffer }).consumed();
        TopicLedger { topic: self.topic.with_partition(at, after.partition), buffer: after.buffer }
    }

    /// What consuming the head of the partition with the given id makes of a
    /// topic and its buffer: nothing where the topic has no such partition.
    pub open spec fn consumed_by_id(self, id: Seq<char>) -> TopicLedger {
        if self.topic.has_id(id) {
            self.consumed(self.topic.position_of(id))
        } else {
            self
        }
    }
}

/// A topic as it is created: the cursor at zero and every partition empty,
/// with base offset zero.
pub open spec fn fresh_topic(name: Seq<char>) -> TopicModel {
    TopicModel {
        name,
        cursor: 0,
        partitions: Seq::new(
            DEFAULT_PARTITIONS as nat,
            |i: int| PartitionModel { id: decimal(i as nat), base_offset: 0, messages: Seq::empty() },
        ),
    }
}

impl TopicLedger {
    /// The buffer counts exactly what this topic holds on top of what is held
    /// elsewhere.
    pub open spec fn balanced_with(self, other_messages: nat, other_bytes: nat) -> bool {
        &&& self.buffer.messages == other_messages + self.topic.held_messages()
        &&& self.buffer.bytes == other_bytes + self.topic.held_bytes()
    }
}

/// A sequence whose items all measure zero has total zero.
proof fn lemma_total_of_zeros<T>(items: Seq<T>, measure: spec_fn(T) -> nat)
    requires
        forall|i: int| 0 <= i < items.len() ==> measure(#[trigger] items[i]) == 0,
    ensures
        total(items, measure) == 0,
    decreases items.len(),
{
    if items.len() > 0 {
        lemma_total_of_zeros(items.drop_last(), measure);
    }
}

/// A fresh topic is well-formed, holds nothing and has room.
pub proof fn lemma_fresh_topic(name: Seq<char>)
    ensures
        fresh_topic(name).wf(),
        fresh_topic(name).held_messages() == 0,
        fresh_topic(name).held_bytes() == 0,
        fresh_topic(name).has_room(),
{
    let topic = fresh_topic(name);
    lemma_total_of_zeros(topic.partitions, |p: PartitionModel| p.messages.len());
    assert forall|i: int| 0 <= i < topic.partitions.len() implies (|p: PartitionModel|
        p.held_bytes())(#[trigger] topic.partitions[i]) == 0 by {
    }
    lemma_total_of_zeros(topic.partitions, |p: PartitionModel| p.held_bytes());
}

/// Replacing a partition by what an append or a consume made of it, with the
/// buffer that went through the same step, keeps the buffer's count in step
/// with the topic.
proof fn lemma_step_keeps_balance(
    before: TopicLedger,
    at: int,
    after: Ledger,
    other_messages: nat,
    other_bytes: nat,
)
    requires
        0 <= at < before.topic.partitions.len(),
        before.balanced_with(other_messages, other_bytes),
        forall|m: nat, b: nat|
            (Ledger { partition: before.topic.partitions[at], buffer: before.buffer }).balanced_with(
                m,
                b,
            ) ==> after.balanced_with(m, b),
    ensures
        (TopicLedger {
            topic: before.topic.with_partition(at, after.partition),
            buffer: after.buffer,
        }).balanced_with(other_messages, other_bytes),
{
    let parts = before.topic.partitions;
    let count = |p: PartitionModel| p.messages.len();
    let bytes = |p: PartitionModel| p.held_bytes();
    lemma_total_covers(parts, count, at);
    lemma_total_covers(parts, bytes, at);
    lemma_total_update(parts, count, at, after.partition);
    lemma_total_update(parts, bytes, at, after.partition);
    let rest_messages = (other_messages + before.topic.held_messages() - count(parts[at])) as nat;
    let rest_bytes = (other_bytes + before.topic.held_bytes() - bytes(parts[at])) as nat;
    assert(before.topic.held_messages() == total(parts, count));
    assert(before.topic.held_bytes() == total(parts, bytes));
    assert((Ledger { partition: parts[at], buffer: before.buffer }).balanced_with(
        rest_messages,
        rest_bytes,
    ));
    assert(after.balanced_with(rest_messages, rest_bytes));
    let stepped = before.topic.with_partition(at, after.partition);
    assert(stepped.held_messages() == total(parts.update(at, after.partition), count));
    assert(stepped.held_bytes() == total(parts.update(at, after.partition), bytes));
}

/// An append, accepted or refused, keeps the buffer's count in step with the
/// topic.
pub proof fn lemma_topic_appended_keeps_balance(
    before: TopicLedger,
    message: MessageModel,
    other_messages: nat,
    other_bytes: nat,
)
    requires
        before.topic.partitions.len() > 0,
        before.balanced_with(other_messages, other_bytes),
    ensures
        before.appended(message).balanced_with(other_messages, other_bytes),
{
    let at = before.topic.next_index();
    let start = Ledger { partition: before.topic.partitions[at], buffer: before.buffer };
    assert forall|m: nat, b: nat| start.balanced_with(m, b) implies start.appended(
        message,
    ).balanced_with(m, b) by {
        lemma_appended_keeps_balance(start, message, m, b);
    }
    lemma_step_keeps_balance(before, at, start.appended(message), other_messages, other_bytes);
}

/// Consuming a head keeps the buffer's count in step with the topic.
pub proof fn lemma_topic_consumed_keeps_balance(
    before: TopicLedger,
    at: int,
    other_messages: nat,
    other_bytes: nat,
)
    requires
        0 <= at < before.topic.partitions.len(),
        before.balanced_with(other_messages, other_bytes),
    ensures
        before.consumed(at).balanced_with(other_messages, other_bytes),
{
    let start = Ledger { partition: before.topic.partitions[at], buffer: before.buffer };
    assert forall|m: nat, b: nat| start.balanced_with(m, b) implies start.consumed().balanced_with(
        m,
        b,
    ) by {
        lemma_consumed_keeps_balance(start, m, b);
    }
    lemma_step_keeps_balance(before, at, start.consumed(), other_messages, other_bytes);
}

impl TopicLedger {
    /// What a run of appends, first to last, makes of a topic and its buffer.
    pub open spec fn appended_all(self, messages: Seq<MessageModel>) -> TopicLedger
        decreases messages.len(),
    {
        if messages.len() == 0 {
            self
        } else {
            self.appended_all(messages.drop_last()).appended(messages.last())
        }
    }

    /// How many appends of a run go to the partition at `at`, admitted or
    /// not.
    pub open spec fn turns(self, messages: Seq<MessageModel>, at: int) -> nat
        decreases messages.len(),
    {
        if messages.len() == 0 {
            0
        } else {
            let earlier = messages.drop_last();
            let hit: nat = if self.appended_all(earlier).topic.next_index() == at {
                1
            } else {
                0
            };
            self.turns(earlier, at) + hit
        }
    }
}

/// Appends are dealt out evenly: of a run of appends to a topic, during which
/// the cursor does not wrap, each partition gets a third, rounded down or up.
pub proof fn lemma_round_robin_is_fair(start: TopicLedger, messages: Seq<MessageModel>, at: int)
    requires
        start.topic.wf(),
        0 <= at < DEFAULT_PARTITIONS,
        start.topic.cursor + messages.len() <= usize::MAX + 1,
    ensures
        start.turns(messages, at) == messages.len() / (DEFAULT_PARTITIONS as nat)
            || start.turns(messages, at) == messages.len() / (DEFAULT_PARTITIONS as nat) + 1,
        messages.len() % (DEFAULT_PARTITIONS as nat) == 0 ==> start.turns(messages, at)
            == messages.len() / (DEFAULT_PARTITIONS as nat),
{
    lemma_turns_counted(start, messages, at);
}

/// From a fresh topic the appends go round in the order of the partitions:
/// the append after `k` others goes to partition `k mod 3`, and of a run of
/// appends partition `at` gets a third, and one more if `at` is less than the
/// remainder.
pub proof fn lemma_round_robin_from_fresh(
    name: Seq<char>,
    buffer: BufferModel,
    messages: Seq<MessageModel>,
    at: int,
)
    requires
        0 <= at < DEFAULT_PARTITIONS,
        messages.len() <= usize::MAX,
    ensures
        (TopicLedger { topic: fresh_topic(name), buffer }).appended_all(
            messages,
        ).topic.next_index() == messages.len() % 3,
        (TopicLedger { topic: fresh_topic(name), buffer }).turns(messages, at) == messages.len() / 3
            + (if at < messages.len() % 3 {
            1nat
        } else {
            0nat
        }),
{
    lemma_turns_counted(TopicLedger { topic: fresh_topic(name), buffer }, messages, at);
}

/// The cursor after a run of appends without a wrap, and the exact number of
/// appends that went to one partition.
proof fn lemma_turns_counted(start: TopicLedger, messages: Seq<MessageModel>, at: int)
    requires
        start.topic.partitions.len() == DEFAULT_PARTITIONS,
        start.topic.cursor <= usize::MAX,
        0 <= at < DEFAULT_PARTITIONS,
        start.topic.cursor + messages.len() <= usize::MAX + 1,
    ensures
        start.appended_all(messages).topic.cursor == (if start.topic.cursor + messages.len()
            > usize::MAX {
            0nat
        } else {
            start.topic.cursor + messages.len()
        }),
        start.appended_all(messages).topic.partitions.len() == DEFAULT_PARTITIONS,
        start.turns(messages, at) == messages.len() / 3 + (if (at + 3 - start.topic.cursor % 3) % 3
            < messages.len() % 3 {
            1nat
        } else {
            0nat
        }),
    decreases messages.len(),
{
    if messages.len() > 0 {
        let earlier = messages.drop_last();
        lemma_turns_counted(start, earlier, at);
        let before = start.appended_all(earlier);
        assert(start.appended_all(messages) == before.appended(messages.last()));
        assert(before.appended(messages.last()).topic.cursor == before.topic.next_cursor());
        assert(before.topic.next_index() == (before.topic.cursor % 3) as int);
    }
}

/// An append changes one partition of one topic: every other partition of
/// that topic stays as it was, whether or not a message was evicted.
pub proof fn lemma_append_touches_one_partition(before: TopicLedger, message: MessageModel)
    requires
        before.topic.partitions.len() > 0,
    ensures
        before.appended(message).topic.partitions.len() == before.topic.partitions.len(),
        forall|i: int|
            0 <= i < before.topic.partitions.len() && i != before.topic.next_index()
                ==> #[trigger] before.appended(message).topic.partitions[i]
                == before.topic.partitions[i],
{
}

/// In a well-formed topic the partition with the numeral of `number` as its
/// id is the partition at position `number`.
pub proof fn lemma_partition_by_numeral(topic: TopicModel, number: nat)
    requires
        topic.wf(),
    ensures
        topic.partition(decimal(number)) == topic.partition_at(number),
{
    let id = decimal(number);
    if number < topic.partitions.len() {
        assert(topic.has_id_at(id, number as int));
        lemma_decimal_injective(topic.position_of(id) as nat, number);
    } else {
        assert forall|at: int| !topic.has_id_at(id, at) by {
            if topic.has_id_at(id, at) {
                lemma_decimal_injective(at as nat, number);
            }
        }
    }
}

/// A named set of partitions over which appends are dealt out in turn.
pub struct Topic {
    name: String,
    partitions: Vec<Partition>,
    rr_count: usize,
}

impl View for Topic {
    type V = TopicModel;

    closed spec fn view(&self) -> TopicModel {
        TopicModel {
            name: self.name@,
            cursor: self.rr_count as nat,
            partitions: self.partitions@.map_values(|p: Partition| p@),
        }
    }
}

impl Topic {
    /// The topic's structure is as [`TopicModel::wf`] says.
    pub open spec fn wf(&self) -> bool {
        self@.wf()
    }

    /// A topic of empty partitions, with its cursor at zero.
    pub fn new(name: String) -> (topic: Self)
        ensures
            topic.wf(),
            topic@ == fresh_topic(name@),
    {
        let mut partitions: Vec<Partition> = Vec::new();
        let mut i: usize = 0;
        while i < DEFAULT_PARTITIONS
            invariant
                i <= DEFAULT_PARTITIONS,
                partitions@.len() == i,
                forall|j: int|
                    0 <= j < i ==> (#[trigger] partitions@[j])@ == (PartitionModel {
                        id: decimal(j as nat),
                        base_offset: 0,
                        messages: Seq::empty(),
                    }),
            decreases DEFAULT_PARTITIONS - i,
        {
            let partition_id = usize_to_string(i);
            partitions.push(Partition::new(partition_id));
            i += 1;
        }
        let topic = Self { name, partitions, rr_count: 0 };
        proof {
            assert(topic@.partitions =~= fresh_topic(name@).partitions);
            lemma_fresh_topic(name@);
        }
        topic
    }

    /// The topic's name.
    pub fn name(&self) -> (name: &str)
        ensures
            name@ == self@.name,
    {
        self.name.as_str()
    }

    /// Whether the partition that the next append goes to can hand out one
    /// more offset.
    pub fn has_room(&self) -> (room: bool)
        requires
            self.wf(),
        ensures
            room == self@.has_room(),
    {
        let index = self.rr_count % self.partitions.len();
        let partition = &self.partitions[index];
        partition.current_offset() < usize::MAX - partition.message_count()
    }

    /// Appends to the partition whose turn it is and moves the cursor on.
    pub fn add_message(&mut self, buffer: &mut BufferManager, msg: Message) -> (outcome: Result<
        (),
        TesseractError,
    >)
        requires
            old(self).wf(),
            old(self)@.has_room(),
        ensures
            final(self).wf(),
            (TopicLedger { topic: final(self)@, buffer: final(buffer)@ }) == (TopicLedger {
                topic: old(self)@,
                buffer: old(buffer)@,
            }).appended(msg@),
            outcome is Ok <==> old(buffer)@.admits(msg@.size()),
            outcome matches Err(e) ==> e@ == ErrorModel::BufferOverflow(
                old(buffer)@.refusal(msg@.size()),
            ),
            forall|i: int|
                0 <= i < DEFAULT_PARTITIONS && i != old(self)@.next_index()
                    ==> final(self)@.partitions[i] == old(self)@.partitions[i],
            old(buffer)@.within_limits() ==> final(buffer)@.within_limits(),
    {
        let index = self.next_partition();
        let ghost before = self@;
        let outcome = self.partitions[index].add_message(buffer, msg);
        proof {
            let after = (Ledger {
                partition: old(self)@.partitions[index as int],
                buffer: old(buffer)@,
            }).appended(msg@);
            lemma_relieved_moves_forward(
                Ledger {
                    partition: old(self)@.partitions[index as int].with_tail(msg@),
                    buffer: old(buffer)@.admitted(msg@.size()),
                },
            );
            assert(self@.partitions =~= before.partitions.update(index as int, after.partition));
        }
        outcome
    }

    /// The position of the partition whose turn it is; moves the cursor on.
    fn next_partition(&mut self) -> (index: usize)
        requires
            old(self).wf(),
        ensures
            index == old(self)@.next_index(),
            final(self)@ == (TopicModel { cursor: old(self)@.next_cursor(), ..old(self)@ }),
            final(self).partitions == old(self).partitions,
    {
        let index = self.rr_count % self.partitions.len();
        self.rr_count = self.rr_count.wrapping_add(1);
        index
    }

    /// The position of the partition with the given id, if the topic has one.
    fn find_partition(&self, partition_id: &str) -> (found: Option<usize>)
        requires
            self.wf(),
        ensures
            match found {
                Some(at) => self@.has_id_at(partition_id@, at as int) && self@.partition(
                    partition_id@,
                ) == Some(self@.partitions[at as int]),
                None => self@.partition(partition_id@) is None,
            },
    {
        let wanted = String::from_str(partition_id);
        let mut i: usize = 0;
        while i < self.partitions.len()
            invariant
                self.wf(),
                wanted@ == partition_id@,
                i <= self.partitions.len(),
                forall|j: int| 0 <= j < i ==> !self@.has_id_at(partition_id@, j),
            decreases self.partitions.len() - i,
        {
            if self.partitions[i].has_id(&wanted) {
                proof {
                    assert(self@.has_id_at(partition_id@, i as int));
                    lemma_decimal_injective(self@.position_of(partition_id@) as nat, i as nat);
                }
                return Some(i);
            }
            i += 1;
        }
        None
    }

    /// The partition with the given id, if the topic has one.
    pub fn get_partition(&self, partition_id: &str) -> (found: Option<&Partition>)
        requires
            self.wf(),
        ensures
            match found {
                Some(partition) => self@.partition(partition_id@) == Some(partition@),
                None => self@.partition(partition_id@) is None,
            },
    {
        match self.find_partition(partition_id) {
            Some(at) => Some(&self.partitions[at]),
            None => None,
        }
    }

    /// Takes the head out of the partition with the given id and releases it
    /// from the buffer. Nothing changes where the topic has no such partition
    /// or the partition is empty.
    pub fn consume_message(&mut self, buffer: &mut BufferManager, partition_id: &str) -> (taken:
        Option<Message>)
        requires
            old(self).wf(),
        ensures
            final(self).wf(),
            (TopicLedger { topic: final(self)@, buffer: final(buffer)@ }) == (TopicLedger {
                topic: old(self)@,
                buffer: old(buffer)@,
            }).consumed_by_id(partition_id@),
            match taken {
                Some(message) => old(self)@.head(partition_id@) == Some(message@),
                None => old(self)@.head(partition_id@) is None,
            },
            old(buffer)@.within_limits() ==> final(buffer)@.within_limits(),
    {
        match self.find_partition(partition_id) {
            Some(at) => {
                let ghost before = self@;
                let taken = self.partitions[at].consume_message(buffer);
                proof {
                    let after = (Ledger {
                        partition: before.partitions[at as int],
                        buffer: old(buffer)@,
                    }).consumed();
                    assert(self@.partitions =~= before.partitions.update(
                        at as int,
                        after.partition,
                    ));
                    lemma_decimal_injective(before.position_of(partition_id@) as nat, at as nat);
                }
                taken
            },
            None => None,
        }
    }

    /// Drops every message that the topic holds and releases each from the
    /// buffer.
    fn release_all(&mut self, buffer: &mut BufferManager)
        requires
            old(self).wf(),
        ensures
            final(self)@.held_messages() == 0,
            final(self)@.held_bytes() == 0,
            final(buffer)@.max_messages == old(buffer)@.max_messages,
            final(buffer)@.max_bytes == old(buffer)@.max_bytes,
            old(buffer)@.within_limits() ==> final(buffer)@.within_limits(),
            forall|m: nat, b: nat|
                (TopicLedger { topic: old(self)@, buffer: old(buffer)@ }).balanced_with(m, b) ==> (
                TopicLedger { topic: final(self)@, buffer: final(buffer)@ }).balanced_with(m, b),
    {
        let mut i: usize = 0;
        while i < self.partitions.len()
            invariant
                self.wf(),
                i <= self.partitions.len(),
                forall|j: int| 0 <= j < i ==> (#[trigger] self@.partitions[j]).messages.len() == 0,
                buffer@.max_messages == old(buffer)@.max_messages,
                buffer@.max_bytes == old(buffer)@.max_bytes,
                old(buffer)@.within_limits() ==> buffer@.within_limits(),
                forall|m: nat, b: nat|
                    (TopicLedger { topic: old(self)@, buffer: old(buffer)@ }).balanced_with(m, b)
                        ==> (TopicLedger { topic: self@, buffer: buffer@ }).balanced_with(m, b),
            decreases self.partitions.len() - i,
        {
            let ghost now = TopicLedger { topic: self@, buffer: buffer@ };
            assert(now.topic.partitions[i as int] == self.partitions[i as int]@);
            self.partitions[i].release_all(buffer);
            proof {
                let after = Ledger { partition: self.partitions[i as int]@, buffer: buffer@ };
                assert(self@ == now.topic.with_partition(i as int, after.partition)) by {
                    assert(self@.partitions =~= now.topic.partitions.update(
                        i as int,
                        after.partition,
                    ));
                }
                assert forall|m: nat, b: nat| now.balanced_with(m, b) implies (TopicLedger {
                    topic: self@,
                    buffer: buffer@,
                }).balanced_with(m, b) by {
                    lemma_step_keeps_balance(now, i as int, after, m, b);
                }
            }
            i += 1;
        }
        proof {
            lemma_total_of_zeros(self@.partitions, |p: PartitionModel| p.messages.len());
            assert forall|j: int| 0 <= j < self@.partitions.len() implies (|p: PartitionModel|
                p.held_bytes())(#[trigger] self@.partitions[j]) == 0 by {
            }
            lemma_total_of_zeros(self@.partitions, |p: PartitionModel| p.held_bytes());
        }
    }

    /// The ids of the partitions, in the order of their numbers.
    pub fn partition_ids(&self) -> (ids: Vec<String>)
        ensures
            ids@.len() == self@.partitions.len(),
            forall|i: int| 0 <= i < ids@.len() ==> (#[trigger] ids@[i])@ == self@.partitions[i].id,
    {
        let mut ids: Vec<String> = Vec::new();
        let mut i: usize = 0;
        while i < self.partitions.len()
            invariant
                i <= self.partitions.len(),
                ids@.len() == i,
                forall|j: int| 0 <= j < i ==> (#[trigger] ids@[j])@ == self@.partitions[j].id,
            decreases self.partitions.len() - i,
        {
            ids.push(String::from_str(self.partitions[i].id()));
            i += 1;
        }
        ids
    }
}

} // verus!

verus! {

/// The mathematical value of a [`TopicManager`]: the topics in the order of
/// their creation, the shared buffer and the most topics there may be.
pub struct TopicManagerModel {
    pub topics: Seq<TopicModel>,
    pub buffer: BufferModel,
    pub max_topics: nat,
}

impl TopicManagerModel {
    /// Whether `at` is the position of a topic with the given name.
    pub open spec fn has_name_at(self, name: Seq<char>, at: int) -> bool {
        0 <= at < self.topics.len() && self.topics[at].name == name
    }

    /// Whether there is a topic with the given name.
    pub open spec fn has_topic(self, name: Seq<char>) -> bool {
        exists|at: int| self.has_name_at(name, at)
    }

    /// The position of a topic with the given name, where there is one.
    pub open spec fn position_of(self, name: Seq<char>) -> int {
        choose|at: int| self.has_name_at(name, at)
    }

    /// The topic with the given name, if there is one.
    pub open spec fn topic(self, name: Seq<char>) -> Option<TopicModel> {
        if self.has_topic(name) {
            Some(self.topics[self.position_of(name)])
        } else {
            None
        }
    }

    /// The oldest message of a partition, if the topic and the partition
    /// exist and the partition holds any.
    pub open spec fn head(self, name: Seq<char>, id: Seq<char>) -> Option<MessageModel> {
        match self.topic(name) {
            Some(topic) => topic.head(id),
            None => None,
        }
    }

    /// The messages held in all partitions of all topics.
    pub open spec fn held_messages(self) -> nat {
        total(self.topics, |t: TopicModel| t.held_messages())
    }

    /// The payload bytes held in all partitions of all topics.
    pub open spec fn held_bytes(self) -> nat {
        total(self.topics, |t: TopicModel| t.held_bytes())
    }

    /// The buffer counts exactly the messages and bytes that the partitions
    /// hold.
    pub open spec fn balanced(self) -> bool {
        &&& self.buffer.messages == self.held_messages()
        &&& self.buffer.bytes == self.held_bytes()
    }

    /// The registry keeps within its cap, its topics are well-formed and
    /// differ in their names, and the buffer is balanced and within its
    /// limits.
    pub open spec fn wf(self) -> bool {
        &&& self.topics.len() <= self.max_topics
        &&& self.buffer.within_limits()
        &&& forall|i: int| 0 <= i < self.topics.len() ==> (#[trigger] self.topics[i]).wf()
        &&& forall|i: int, j: int|
            0 <= i < j < self.topics.len() ==> (#[trigger] self.topics[i]).name
                != (#[trigger] self.topics[j]).name
        &&& self.balanced()
    }

    /// Why a topic of this name cannot be created, if it cannot: the cap is
    /// looked at first, then the name.
    pub open spec fn creation_error(self, name: Seq<char>) -> Option<ErrorModel> {
        if self.topics.len() >= self.max_topics {
            Some(
                ErrorModel::Storage("Maximum topics limit reached: "@ + decimal(self.max_topics)),
            )
        } else if self.has_topic(name) {
            Some(ErrorModel::Storage("Topic already exists: "@ + name))
        } else {
            None
        }
    }

    /// The registry with a fresh topic of this name behind the others.
    pub open spec fn with_new_topic(self, name: Seq<char>) -> TopicManagerModel {
        TopicManagerModel { topics: self.topics.push(fresh_topic(name)), ..self }
    }

    /// Why a topic of this name can be neither found nor created, if so.
    pub open spec fn provision_error(self, name: Seq<char>) -> Option<ErrorModel> {
        if self.has_topic(name) {
            None
        } else {
            self.creation_error(name)
        }
    }

    /// The registry after the topic was looked up and, where it was missing
    /// and could be created, created.
    pub open spec fn provided(self, name: Seq<char>) -> TopicManagerModel {
        if self.has_topic(name) || self.creation_error(name) is Some {
            self
        } else {
            self.with_new_topic(name)
        }
    }

    /// Whether an append to the topic of this name finds an offset to hand
    /// out. A topic that does not exist yet always has one.
    pub open spec fn has_room(self, name: Seq<char>) -> bool {
        self.has_topic(name) ==> self.topics[self.position_of(name)].has_room()
    }

    /// The registry without the topic of this name; the buffer lets go of all
    /// that the topic held.
    pub open spec fn without_topic(self, name: Seq<char>) -> TopicManagerModel {
        let at = self.position_of(name);
        TopicManagerModel {
            topics: self.topics.remove(at),
            buffer: BufferModel {
                messages: (self.buffer.messages - self.topics[at].held_messages()) as nat,
                bytes: (self.buffer.bytes - self.topics[at].held_bytes()) as nat,
                ..self.buffer
            },
            ..self
        }
    }

    /// The registry with the topic at `at` and the buffer replaced.
    pub open spec fn with_ledger(self, at: int, ledger: TopicLedger) -> TopicManagerModel {
        TopicManagerModel {
            topics: self.topics.update(at, ledger.topic),
            buffer: ledger.buffer,
            ..self
        }
    }

    /// The topic at `at` together with the shared buffer.
    pub open spec fn ledger_at(self, at: int) -> TopicLedger {
        TopicLedger { topic: self.topics[at], buffer: self.buffer }
    }

    /// Why a message cannot be produced to the topic of this name, if it
    /// cannot: the topic can be neither found nor created, or the buffer
    /// refuses the message.
    pub open spec fn production_error(self, name: Seq<char>, message: MessageModel) -> Option<
        ErrorModel,
    > {
        if self.provision_error(name) is Some {
            self.provision_error(name)
        } else if !self.buffer.admits(message.size()) {
            Some(ErrorModel::BufferOverflow(self.buffer.refusal(message.size())))
        } else {
            None
        }
    }

    /// The registry after a produce to the topic of this name: the topic is
    /// created where it was missing and the cap allows, and then takes the
    /// append.
    pub open spec fn produced(self, name: Seq<char>, message: MessageModel) -> TopicManagerModel {
        if self.provision_error(name) is Some {
            self
        } else {
            let provided = self.provided(name);
            let at = provided.position_of(name);
            provided.with_ledger(at, provided.ledger_at(at).appended(message))
        }
    }

    /// The registry after the head of a partition was consumed. Nothing
    /// changes where the topic or the partition does not exist.
    pub open spec fn consumed(self, name: Seq<char>, id: Seq<char>) -> TopicManagerModel {
        if self.has_topic(name) {
            let at = self.position_of(name);
            self.with_ledger(at, self.ledger_at(at).consumed_by_id(id))
        } else {
            self
        }
    }
}

/// Replacing a topic by what an append or a consume made of it, with the
/// buffer that went through the same step, keeps the buffer balanced.
proof fn lemma_manager_step_keeps_balance(before: TopicManagerModel, at: int, after: TopicLedger)
    requires
        0 <= at < before.topics.len(),
        before.balanced(),
        forall|m: nat, b: nat|
            before.ledger_at(at).balanced_with(m, b) ==> after.balanced_with(m, b),
    ensures
        before.with_ledger(at, after).balanced(),
{
    let count = |t: TopicModel| t.held_messages();
    let bytes = |t: TopicModel| t.held_bytes();
    lemma_total_covers(before.topics, count, at);
    lemma_total_covers(before.topics, bytes, at);
    lemma_total_update(before.topics, count, at, after.topic);
    lemma_total_update(before.topics, bytes, at, after.topic);
    let rest_messages = (before.held_messages() - count(before.topics[at])) as nat;
    let rest_bytes = (before.held_bytes() - bytes(before.topics[at])) as nat;
    assert(before.held_messages() == total(before.topics, count));
    assert(before.held_bytes() == total(before.topics, bytes));
    assert(before.ledger_at(at).balanced_with(rest_messages, rest_bytes));
    assert(after.balanced_with(rest_messages, rest_bytes));
    let stepped = before.with_ledger(at, after);
    assert(stepped.held_messages() == total(before.topics.update(at, after.topic), count));
    assert(stepped.held_bytes() == total(before.topics.update(at, after.topic), bytes));
}

/// A produce keeps a well-formed registry well-formed; with it, the buffer
/// stays balanced.
pub proof fn lemma_produced_keeps_wf(before: TopicManagerModel, name: Seq<char>, message: MessageModel)
    requires
        before.wf(),
        before.has_room(name),
    ensures
        before.produced(name, message).wf(),
{
    if before.provision_error(name) is None {
        let provided = before.provided(name);
        lemma_provided_is_wf(before, name);
        let at = provided.position_of(name);
        let start = provided.ledger_at(at);
        let after = start.appended(message);
        assert forall|m: nat, b: nat| start.balanced_with(m, b) implies after.balanced_with(
            m,
            b,
        ) by {
            lemma_topic_appended_keeps_balance(start, message, m, b);
        }
        lemma_manager_step_keeps_balance(provided, at, after);
        lemma_topic_appended_keeps_wf(start, message);
        lemma_appended_keeps_limits(
            Ledger { partition: start.topic.partitions[start.topic.next_index()], buffer: start.buffer },
            message,
        );
    }
}

/// Looking a topic up or creating it keeps a well-formed registry
/// well-formed, and leaves the topic, where there is no error, at a position
/// with room for an append.
pub proof fn lemma_provided_is_wf(before: TopicManagerModel, name: Seq<char>)
    requires
        before.wf(),
    ensures
        before.provided(name).wf(),
        before.provision_error(name) is None ==> before.provided(name).has_name_at(
            name,
            before.provided(name).position_of(name),
        ),
        before.provision_error(name) is None && before.has_room(name) ==> before.provided(
            name,
        ).has_room(name),
{
    let provided = before.provided(name);
    if !before.has_topic(name) && before.creation_error(name) is None {
        let last = before.topics.len() as int;
        lemma_fresh_topic(name);
        lemma_total_push(before.topics, |t: TopicModel| t.held_messages(), fresh_topic(name));
        lemma_total_push(before.topics, |t: TopicModel| t.held_bytes(), fresh_topic(name));
        assert forall|i: int, j: int| 0 <= i < j < provided.topics.len() implies (
        #[trigger] provided.topics[i]).name != (#[trigger] provided.topics[j]).name by {
            if j == last {
                assert(!before.has_name_at(name, i));
            }
        }
        assert(provided.has_name_at(name, last));
    }
}

/// An append keeps a well-formed topic well-formed.
pub proof fn lemma_topic_appended_keeps_wf(before: TopicLedger, message: MessageModel)
    requires
        before.topic.wf(),
        before.topic.has_room(),
    ensures
        before.appended(message).topic.wf(),
        before.appended(message).topic.name == before.topic.name,
{
    let at = before.topic.next_index();
    let start = Ledger { partition: before.topic.partitions[at], buffer: before.buffer };
    if before.buffer.admits(message.size()) {
        lemma_relieved_moves_forward(
            Ledger {
                partition: start.partition.with_tail(message),
                buffer: start.buffer.admitted(message.size()),
            },
        );
    }
}

/// A produce to an existing topic changes one partition of that topic, and
/// no other partition of any topic, whether or not a message was evicted.
pub proof fn lemma_produce_touches_one_partition(
    before: TopicManagerModel,
    name: Seq<char>,
    message: MessageModel,
)
    requires
        before.wf(),
        before.has_topic(name),
    ensures
        before.produced(name, message).topics.len() == before.topics.len(),
        forall|t: int|
            0 <= t < before.topics.len() && t != before.position_of(name)
                ==> #[trigger] before.produced(name, message).topics[t] == before.topics[t],
        forall|i: int|
            0 <= i < DEFAULT_PARTITIONS && i != before.topics[before.position_of(
                name,
            )].next_index() ==> #[trigger] before.produced(name, message).topics[before.position_of(
                name,
            )].partitions[i] == before.topics[before.position_of(name)].partitions[i],
{
}

/// A consume keeps a well-formed registry well-formed; with it, the buffer
/// stays balanced.
pub proof fn lemma_consumed_keeps_wf(before: TopicManagerModel, name: Seq<char>, id: Seq<char>)
    requires
        before.wf(),
    ensures
        before.consumed(name, id).wf(),
{
    if before.has_topic(name) {
        let at = before.position_of(name);
        let start = before.ledger_at(at);
        let after = start.consumed_by_id(id);
        assert forall|m: nat, b: nat| start.balanced_with(m, b) implies after.balanced_with(
            m,
            b,
        ) by {
            if start.topic.has_id(id) {
                lemma_topic_consumed_keeps_balance(start, start.topic.position_of(id), m, b);
            }
        }
        lemma_manager_step_keeps_balance(before, at, after);
        if start.topic.has_id(id) {
            lemma_consumed_keeps_limits(
                Ledger {
                    partition: start.topic.partitions[start.topic.position_of(id)],
                    buffer: start.buffer,
                },
            );
        }
    }
}

/// The registry of topics, which owns the one buffer that all partitions
/// share.
pub struct TopicManager {
    topics: Vec<Topic>,
    buffer_manager: BufferManager,
    max_topics: usize,
}

impl View for TopicManager {
    type V = TopicManagerModel;

    closed spec fn view(&self) -> TopicManagerModel {
        TopicManagerModel {
            topics: self.topics@.map_values(|t: Topic| t@),
            buffer: self.buffer_manager@,
            max_topics: self.max_topics as nat,
        }
    }
}

impl TopicManager {
    /// The registry is as [`TopicManagerModel::wf`] says.
    pub open spec fn wf(&self) -> bool {
        self@.wf()
    }

    /// An empty registry. The two buffer limits hold for the broker as a
    /// whole, not for each partition.
    pub fn new(
        max_topics: usize,
        max_messages_per_partition: usize,
        max_messages_size_bytes: usize,
    ) -> (manager: Self)
        ensures
            manager.wf(),
            manager@ == (TopicManagerModel {
                topics: Seq::empty(),
                buffer: BufferModel {
                    max_messages: max_messages_per_partition as nat,
                    max_bytes: max_messages_size_bytes as nat,
                    messages: 0,
                    bytes: 0,
                },
                max_topics: max_topics as nat,
            }),
    {
        let buffer_manager = BufferManager::new(max_messages_per_partition, max_messages_size_bytes);
        let manager = Self { topics: Vec::new(), buffer_manager, max_topics };
        assert(manager@.topics =~= Seq::empty());
        manager
    }

    /// The position of the topic with the given name, if there is one.
    fn find(&self, name: &str) -> (found: Option<usize>)
        requires
            self.wf(),
        ensures
            match found {
                Some(at) => self@.has_name_at(name@, at as int) && self@.position_of(name@) == at,
                None => !self@.has_topic(name@),
            },
    {
        let wanted = String::from_str(name);
        let mut i: usize = 0;
        while i < self.topics.len()
            invariant
                self.wf(),
                wanted@ == name@,
                i <= self.topics.len(),
                forall|j: int| 0 <= j < i ==> !self@.has_name_at(name@, j),
            decreases self.topics.len() - i,
        {
            if self.topics[i].name == wanted {
                assert(self@.has_name_at(name@, i as int));
                return Some(i);
            }
            i += 1;
        }
        None
    }

    /// Creates a topic, unless the cap is reached or the name is taken.
    pub fn create_topic(&mut self, name: String) -> (outcome: Result<&Topic, TesseractError>)
        requires
            old(self).wf(),
        ensures
            final(self).wf(),
            match outcome {
                Ok(topic) => old(self)@.creation_error(name@) is None && final(self)@ == old(
                    self,
                )@.with_new_topic(name@) && topic@ == fresh_topic(name@),
                Err(e) => old(self)@.creation_error(name@) == Some(e@) && final(self)@ == old(
                    self,
                )@,
            },
    {
        if self.topics.len() >= self.max_topics {
            let mut detail = String::from_str("Maximum topics limit reached: ");
            detail.append(usize_to_string(self.max_topics).as_str());
            return Err(TesseractError::Storage(detail));
        }
        if self.find(name.as_str()).is_some() {
            let mut detail = String::from_str("Topic already exists: ");
            detail.append(name.as_str());
            return Err(TesseractError::Storage(detail));
        }
        let ghost before = self@;
        let topic = Topic::new(name);
        self.topics.push(topic);
        proof {
            assert(self@.topics =~= before.topics.push(fresh_topic(name@)));
            lemma_fresh_topic(name@);
            lemma_total_push(before.topics, |t: TopicModel| t.held_messages(), fresh_topic(name@));
            lemma_total_push(before.topics, |t: TopicModel| t.held_bytes(), fresh_topic(name@));
            assert forall|i: int, j: int| 0 <= i < j < self@.topics.len() implies (
            #[trigger] self@.topics[i]).name != (#[trigger] self@.topics[j]).name by {
                if j == before.topics.len() {
                    assert(!before.has_name_at(name@, i));
                }
            }
        }
        let last = self.topics.len() - 1;
        Ok(&self.topics[last])
    }

    /// The topic with the given name, if there is one.
    pub fn get_topic(&self, name: &str) -> (found: Option<&Topic>)
        requires
            self.wf(),
        ensures
            match found {
                Some(topic) => topic.wf() && self@.topic(name@) == Some(topic@),
                None => self@.topic(name@) is None,
            },
    {
        match self.find(name) {
            Some(at) => Some(&self.topics[at]),
            None => None,
        }
    }

    /// The topic with the given name, created first where it is missing and
    /// the cap allows.
    pub fn get_or_create_topic(&mut self, name: String) -> (outcome: Result<&Topic, TesseractError>)
        requires
            old(self).wf(),
        ensures
            final(self).wf(),
            final(self)@ == old(self)@.provided(name@),
            match outcome {
                Ok(topic) => old(self)@.provision_error(name@) is None && final(self)@.topic(name@)
                    == Some(topic@),
                Err(e) => old(self)@.provision_error(name@) == Some(e@),
            },
    {
        match self.find(name.as_str()) {
            Some(at) => Ok(&self.topics[at]),
            None => {
                let ghost before = self@;
                let outcome = self.create_topic(name);
                proof {
                    if outcome is Ok {
                        let after = before.with_new_topic(name@);
                        let last = before.topics.len() as int;
                        assert(after.has_name_at(name@, last));
                    }
                }
                outcome
            },
        }
    }

    /// Whether an append to the topic of this name finds an offset to hand
    /// out.
    pub fn has_room(&self, name: &str) -> (room: bool)
        requires
            self.wf(),
        ensures
            room == self@.has_room(name@),
    {
        match self.find(name) {
            Some(at) => self.topics[at].has_room(),
            None => true,
        }
    }

    /// Produces a message to the topic of this name, which is created first
    /// where it is missing and the cap allows.
    pub fn add_message(&mut self, topic: String, msg: Message) -> (outcome: Result<
        (),
        TesseractError,
    >)
        requires
            old(self).wf(),
            old(self)@.has_room(topic@),
        ensures
            final(self).wf(),
            final(self)@ == old(self)@.produced(topic@, msg@),
            match outcome {
                Ok(()) => old(self)@.production_error(topic@, msg@) is None,
                Err(e) => old(self)@.production_error(topic@, msg@) == Some(e@),
            },
    {
        let ghost name = topic@;
        let found = self.find(topic.as_str());
        let at = match found {
            Some(at) => at,
            None => {
                match self.create_topic(topic) {
                    Ok(_) => {},
                    Err(e) => {
                        return Err(e);
                    },
                }
                self.topics.len() - 1
            },
        };
        let ghost provided = self@;
        proof {
            lemma_provided_is_wf(old(self)@, name);
            lemma_produced_keeps_wf(old(self)@, name, msg@);
        }
        let outcome = self.topics[at].add_message(&mut self.buffer_manager, msg);
        proof {
            let after = provided.ledger_at(at as int).appended(msg@);
            assert(self@.topics =~= provided.topics.update(at as int, after.topic));
        }
        outcome
    }

    /// Takes the head out of a partition and releases it from the buffer.
    /// Nothing changes where the topic or the partition does not exist, or the
    /// partition is empty.
    pub fn consume_message(&mut self, topic: &str, partition_id: &str) -> (taken: Option<Message>)
        requires
            old(self).wf(),
        ensures
            final(self).wf(),
            final(self)@ == old(self)@.consumed(topic@, partition_id@),
            match taken {
                Some(message) => old(self)@.head(topic@, partition_id@) == Some(message@),
                None => old(self)@.head(topic@, partition_id@) is None,
            },
    {
        match self.find(topic) {
            Some(at) => {
                let ghost before = self@;
                let taken = self.topics[at].consume_message(&mut self.buffer_manager, partition_id);
                proof {
                    let start = before.ledger_at(at as int);
                    let after = start.consumed_by_id(partition_id@);
                    assert(self@.topics =~= before.topics.update(at as int, after.topic));
                    assert forall|m: nat, b: nat| start.balanced_with(m, b) implies after.balanced_with(
                        m,
                        b,
                    ) by {
                        if start.topic.has_id(partition_id@) {
                            lemma_topic_consumed_keeps_balance(
                                start,
                                start.topic.position_of(partition_id@),
                                m,
                                b,
                            );
                        }
                    }
                    lemma_manager_step_keeps_balance(before, at as int, after);
                }
                taken
            },
            None => None,
        }
    }

    /// Deletes the topic of this name and releases from the buffer all that
    /// the topic held.
    pub fn delete_topic(&mut self, name: &str) -> (outcome: Result<(), TesseractError>)
        requires
            old(self).wf(),
        ensures
            final(self).wf(),
            match outcome {
                Ok(()) => old(self)@.has_topic(name@) && final(self)@ == old(self)@.without_topic(
                    name@,
                ),
                Err(e) => !old(self)@.has_topic(name@) && final(self)@ == old(self)@ && e@
                    == ErrorModel::TopicNotFound(name@),
            },
    {
        match self.find(name) {
            None => Err(TesseractError::TopicNotFound(String::from_str(name))),
            Some(at) => {
                let ghost before = self@;
                let mut topic = self.topics.remove(at);
                proof {
                    assert(self@.topics =~= before.topics.remove(at as int));
                    lemma_total_remove(before.topics, |t: TopicModel| t.held_messages(), at as int);
                    lemma_total_remove(before.topics, |t: TopicModel| t.held_bytes(), at as int);
                    assert((TopicLedger { topic: topic@, buffer: before.buffer }).balanced_with(
                        self@.held_messages(),
                        self@.held_bytes(),
                    ));
                }
                topic.release_all(&mut self.buffer_manager);
                Ok(())
            },
        }
    }

    /// The names of all topics, in the order of their creation.
    pub fn list_topics(&self) -> (names: Vec<String>)
        ensures
            names@.len() == self@.topics.len(),
            forall|i: int| 0 <= i < names@.len() ==> (#[trigger] names@[i])@ == self@.topics[i].name,
    {
        let mut names: Vec<String> = Vec::new();
        let mut i: usize = 0;
        while i < self.topics.len()
            invariant
                i <= self.topics.len(),
                names@.len() == i,
                forall|j: int| 0 <= j < i ==> (#[trigger] names@[j])@ == self@.topics[j].name,
            decreases self.topics.len() - i,
        {
            names.push(String::from_str(self.topics[i].name()));
            i += 1;
        }
        names
    }
}

} // verus!
