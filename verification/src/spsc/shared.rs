//! The state of a queue that its two sides share.

use super::buffer::{allocated_memory, padded_size_fits, Buffer};
use super::consumer::Consumer;
use super::ledger::{held, held_in, Ledger};
use super::model::{distance, empty_slots, readable, wrap, writable, MemoryModel, QueueModel};
use super::producer::Producer;
use core::marker::PhantomData;
use core::mem;
use vstd::prelude::*;

verus! {

/// The shared representation of a bounded, single-producer/single-consumer queue.
///
/// A value of this type can be handed from one thread to another. Each side of the queue, a
/// [`Producer`](super::Producer) and a [`Consumer`](super::Consumer), borrows it for the time of
/// one operation.
///
/// A queue that is dropped drops the values that it holds, oldest first, and nothing else that
/// lies in its slots. It frees a buffer that has been allocated upon construction, and leaves the
/// memory of one that it was built on alone. A queue that is ended with [`close`](#method.close)
/// hands the values out, and gives such a buffer back.
#[derive(Debug)]
pub struct Shared<T> {
    /// Keeps track of the next slot that is writable.
    pub(crate) head: usize,
    /// Keeps track of the first slot that is readable.
    pub(crate) tail: usize,
    /// The internal slot buffer.
    pub(crate) buffer: Buffer<T>,
    /// Flag that indicates if the buffer has been allocated upon construction.
    pub(crate) free_buffer: bool,
    /// What became of the values that ended in the queue.
    pub(crate) ledger: Ledger<T>,
}

impl<T> View for Shared<T> {
    type V = QueueModel<T>;

    open(crate) spec fn view(&self) -> QueueModel<T> {
        QueueModel {
            tail: self.tail as int,
            items: Seq::new(
                readable(self.size() as int, self.head as int, self.tail as int) as nat,
                |i: int| self.buffer.slot(wrap(self.tail + i, self.size() as int))->0,
            ),
            vacant: Seq::new(
                (1 + writable(self.size() as int, self.head as int, self.tail as int)) as nat,
                |i: int| self.buffer.slot(wrap(self.head + i, self.size() as int)),
            ),
            memory: MemoryModel {
                owned: self.free_buffer,
                before: self.buffer.before(),
                after: self.buffer.after(),
            },
        }
    }
}

impl<T> Shared<T> {
    /// The number of slots, one of which remains empty.
    pub open(crate) spec fn size(&self) -> nat {
        self.buffer.size as nat
    }

    /// The memory of the buffer holds no value, neither in its slots nor around them.
    pub open(crate) spec fn holds_nothing(&self) -> bool {
        forall|i: int|
            0 <= i < self.buffer.data@.len() ==> #[trigger] self.buffer.data@[i] is None
    }

    /// The length of the memory of the buffer that ends along with this value.
    pub open(crate) spec fn memory_len(&self) -> nat {
        self.buffer.data@.len()
    }

    /// The values that the queue has dropped, in order.
    pub open(crate) spec fn dropped(&self) -> Seq<T> {
        self.ledger.dropped()
    }

    /// The values that the queue has given up without dropping them, in order.
    pub open(crate) spec fn forgotten(&self) -> Seq<T> {
        self.ledger.forgotten()
    }

    /// The number of slots in the memory that the queue has given up without freeing it.
    pub open(crate) spec fn left_behind(&self) -> nat {
        self.ledger.left_behind()
    }

    /// The positions are those of slots, and every slot between them holds a value.
    pub open(crate) spec fn wf(&self) -> bool {
        &&& self.buffer.wf()
        &&& self.head < self.buffer.size
        &&& self.tail < self.buffer.size
        &&& forall|pos: int|
            0 <= pos < self.size() && distance(self.tail as int, pos, self.size() as int)
                < readable(self.size() as int, self.head as int, self.tail as int) ==> (
            #[trigger] self.buffer.slot(pos)) is Some
    }

    /// The head moved over slots that hold `values`.
    pub(crate) proof fn lemma_head_moved(before: Self, after: Self, values: Seq<T>)
        requires
            before.wf(),
            after.buffer.same_shape(before.buffer),
            after.free_buffer == before.free_buffer,
            after.tail == before.tail,
            values.len() <= before@.free(),
            after.head == wrap(before.head + values.len(), before.size() as int),
            forall|pos: int|
                0 <= pos < before.size() ==> #[trigger] after.buffer.slot(pos) == {
                    let i = distance(before.head as int, pos, before.size() as int);
                    if i < values.len() {
                        Some(values[i])
                    } else {
                        before.buffer.slot(pos)
                    }
                },
        ensures
            after.wf(),
            after@ == before@.append(values),
    {
        let size = before.size() as int;
        let (head, tail) = (before.head as int, before.tail as int);
        assert forall|pos: int|
            0 <= pos < size && distance(tail, pos, size) < readable(size, after.head as int, tail)
            implies (#[trigger] after.buffer.slot(pos)) is Some by {
            let i = distance(head, pos, size);
            if i >= values.len() {
                assert(before.buffer.slot(pos) is Some);
            }
        }
        assert(after@.items =~= before@.items + values);
        assert(after@.vacant =~= before@.vacant.skip(values.len() as int));
    }

    /// The tail moved over `count` slots that were then emptied.
    pub(crate) proof fn lemma_tail_moved(before: Self, after: Self, count: nat)
        requires
            before.wf(),
            after.buffer.same_shape(before.buffer),
            after.free_buffer == before.free_buffer,
            after.head == before.head,
            count <= before@.items.len(),
            after.tail == wrap(before.tail + count, before.size() as int),
            forall|pos: int|
                0 <= pos < before.size() ==> #[trigger] after.buffer.slot(pos) == {
                    let i = distance(before.tail as int, pos, before.size() as int);
                    if i < count {
                        None
                    } else {
                        before.buffer.slot(pos)
                    }
                },
        ensures
            after.wf(),
            after@ == before@.discard(count),
    {
        let size = before.size() as int;
        let (head, tail) = (before.head as int, before.tail as int);
        assert forall|pos: int|
            0 <= pos < size && distance(after.tail as int, pos, size) < readable(
                size,
                head,
                after.tail as int,
            ) implies (#[trigger] after.buffer.slot(pos)) is Some by {
            assert(distance(tail, pos, size) >= count);
            assert(before.buffer.slot(pos) is Some);
        }
        assert(after@.items =~= before@.items.skip(count as int));
        assert(after@.vacant =~= before@.vacant + empty_slots::<T>(count));
    }

    /// Slots ahead of the head were set to `slots`, and nothing else changed.
    pub(crate) proof fn lemma_staged(before: Self, after: Self, slots: Seq<Option<T>>)
        requires
            before.wf(),
            Self::staged(before, after, slots),
        ensures
            after.wf(),
            after@ == before@.stage(slots),
    {
        let size = before.size() as int;
        let tail = before.tail as int;
        assert forall|pos: int|
            0 <= pos < size && distance(tail, pos, size) < readable(size, before.head as int, tail)
            implies (#[trigger] after.buffer.slot(pos)) is Some by {
            assert(before.buffer.slot(pos) is Some);
        }
        assert(after@.items =~= before@.items);
        assert(after@.vacant =~= before@.stage(slots).vacant);
    }

    /// Slots ahead of the head were set to `slots`, and nothing else changed.
    pub(crate) open spec fn staged(before: Self, after: Self, slots: Seq<Option<T>>) -> bool {
        &&& after.buffer.same_shape(before.buffer)
        &&& after.free_buffer == before.free_buffer
        &&& after.head == before.head
        &&& after.tail == before.tail
        &&& slots.len() <= before@.free()
        &&& forall|pos: int|
            0 <= pos < before.size() ==> #[trigger] after.buffer.slot(pos) == {
                let i = distance(before.head as int, pos, before.size() as int);
                if i < slots.len() {
                    slots[i]
                } else {
                    before.buffer.slot(pos)
                }
            }
    }

    /// [`Self::lemma_staged`] for whatever is written.
    pub(crate) proof fn lemma_staged_any(before: Self)
        requires
            before.wf(),
        ensures
            forall|after: Self, slots: Seq<Option<T>>|
                #![trigger after.wf(), before@.stage(slots)]
                #![trigger after.view(), before@.stage(slots)]
                Self::staged(before, after, slots) ==> after.wf() && after@ == before@.stage(slots),
    {
        assert forall|after: Self, slots: Seq<Option<T>>|
            #![trigger after.wf(), before@.stage(slots)]
            #![trigger after.view(), before@.stage(slots)]
            Self::staged(before, after, slots) implies after.wf() && after@ == before@.stage(
            slots,
        ) by {
            Self::lemma_staged(before, after, slots);
        }
    }

    /// The position of the slot that is written next.
    pub(crate) proof fn lemma_head(self)
        requires
            self.wf(),
        ensures
            self@.head() == self.head,
    {
    }

    /// The first `count` slots ahead of the head, for writing, in two contiguous slices.
    pub(crate) fn vacant_slices(&mut self, count: usize) -> (slices: (
        &mut [Option<T>],
        &mut [Option<T>],
    ))
        requires
            old(self).wf(),
            count <= old(self)@.free(),
        ensures
            ({
                let (first, second) = slices;
                &&& first@ + second@ == old(self)@.vacant.take(count as int)
                &&& first@.len() == old(self)@.before_end(old(self)@.head(), count as nat)
                &&& first@.len() == 0 ==> second@.len() == 0
                &&& old(self)@.head() + first@.len() <= old(self)@.size()
                &&& second@.len() > 0 ==> old(self)@.head() + first@.len() == old(self)@.size()
                &&& final(self).ledger == old(self).ledger
                &&& final(first)@.len() == first@.len() && final(second)@.len() == second@.len()
                    ==> {
                    &&& final(self).wf()
                    &&& final(self).head == old(self).head
                    &&& final(self).tail == old(self).tail
                    &&& final(self).size() == old(self).size()
                    &&& final(self)@ == old(self)@.stage(final(first)@ + final(second)@)
                }
            }),
    {
        let (_, (n1, n2)) = self.skip(self.head, count);
        let pos: usize = self.head;
        let (first, second) = self.buffer.slices_mut(pos, n1, n2);
        proof {
            old(self).lemma_head();
            Self::lemma_staged_any(*old(self));
        }
        assert(first@ + second@ =~= old(self)@.vacant.take(count as int));
        (first, second)
    }

    /// An empty queue on the given buffer.
    pub(crate) fn on_buffer(buffer: Buffer<T>, free_buffer: bool) -> (queue: Self)
        requires
            buffer.wf(),
            buffer.size > 0,
        ensures
            queue.wf(),
            queue.dropped().len() == 0,
            queue.forgotten().len() == 0,
            queue.left_behind() == 0,
            queue@ == QueueModel::on_slots(
                buffer.slots(),
                MemoryModel {
                    owned: free_buffer,
                    before: buffer.before(),
                    after: buffer.after(),
                },
            ),
    {
        let queue = Shared { head: 0, tail: 0, buffer, free_buffer, ledger: Ledger::new() };
        assert(queue@.items =~= Seq::empty());
        assert(queue@.vacant =~= buffer.slots());
        queue
    }

    /// The capacity of the queue. One slot must remain empty between writer head and reader
    /// tail.
    pub fn capacity(&self) -> (capacity: usize)
        requires
            self.wf(),
        ensures
            capacity == self@.capacity(),
            capacity + 1 == self@.items.len() + self@.vacant.len(),
    {
        self.buffer.size - 1
    }

    /// The number of readable slots between a tail and a head.
    pub fn readable_capacity(&self, head: usize, tail: usize) -> (capacity: usize)
        requires
            self.wf(),
            head < self@.size(),
            tail < self@.size(),
        ensures
            capacity == readable(self@.size() as int, head as int, tail as int),
            capacity == (head + self@.size() - tail) % self@.size() as int,
            capacity <= self@.capacity(),
    {
        proof {
            lemma_distance_is_remainder(tail as int, head as int, self.size() as int);
        }
        if head >= tail {
            head - tail
        } else {
            self.buffer.size - (tail - head)
        }
    }

    /// The number of writable slots between a head and a tail.
    pub fn writable_capacity(&self, head: usize, tail: usize) -> (capacity: usize)
        requires
            self.wf(),
            head < self@.size(),
            tail < self@.size(),
        ensures
            capacity == writable(self@.size() as int, head as int, tail as int),
            capacity == (tail + (self@.size() - 1) - head) % self@.size() as int,
            capacity <= self@.capacity(),
    {
        proof {
            let size = self.size() as int;
            if tail > 0 {
                lemma_distance_is_remainder(head as int, tail - 1, size);
            } else {
                lemma_distance_is_remainder(head as int, size - 1, size);
                vstd::arithmetic::div_mod::lemma_mod_add_multiples_vanish(size - 1 - head, size);
            }
        }
        if tail > head {
            (tail - head) - 1
        } else {
            (self.buffer.size - 1) - (head - tail)
        }
    }

    /// The position `n` slots after `pos`, and how many of these slots lie before and how many
    /// after the end of the buffer.
    pub fn skip(&self, pos: usize, n: usize) -> (skipped: (usize, (usize, usize)))
        requires
            self.wf(),
            pos < self@.size(),
            n < self@.size(),
        ensures
            skipped.0 == wrap(pos + n, self@.size() as int),
            skipped.0 == (pos + n) % self@.size() as int,
            skipped.0 < self@.size(),
            skipped.1.0 == self@.before_end(pos as int, n as nat),
            skipped.1.1 == n - skipped.1.0,
            pos + skipped.1.0 <= self@.size(),
            skipped.1.1 > 0 ==> pos + skipped.1.0 == self@.size(),
            skipped.1.0 < self@.size(),
            skipped.1.1 < self@.size(),
            skipped.1.0 > 0 || skipped.1.1 == 0,
            skipped.0 >= skipped.1.0 || skipped.0 == skipped.1.1,
    {
        proof {
            lemma_wrap_is_remainder(pos + n, self.size() as int);
        }
        let tail_size: usize = self.buffer.size - pos;
        if n < tail_size {
            (pos + n, (n, 0))
        } else {
            (n - tail_size, (tail_size, n - tail_size))
        }
    }

    /// Splits the shared queue into producer/consumer sides.
    ///
    /// Returns the queue along with the two sides, both of which know its present state.
    pub fn split(self) -> (sides: (Shared<T>, Producer<T>, Consumer<T>))
        requires
            self.wf(),
        ensures
            sides.0 == self,
            sides.1.inv(self),
            sides.1.known_free(self) == self@.free(),
            sides.2.inv(self),
            sides.2.known_ready(self) == self@.items.len(),
    {
        let producer = Producer { cached_tail: self.tail, values: PhantomData };
        let consumer = Consumer { cached_head: self.head, values: PhantomData };
        (self, producer, consumer)
    }

    /// Drops the values that the queue holds, the one to be read next first.
    fn drop_items(&mut self)
        ensures
            old(self).wf() ==> {
                &&& final(self).wf()
                &&& final(self)@ == old(self)@.discard(old(self)@.items.len())
                &&& final(self).dropped() == old(self).dropped() + old(self)@.items
            },
            final(self).forgotten() == old(self).forgotten(),
            final(self).left_behind() == old(self).left_behind(),
            final(self).head == old(self).head,
            final(self).size() == old(self).size(),
            final(self).free_buffer == old(self).free_buffer,
            final(self).memory_len() == old(self).memory_len(),
        opens_invariants none
        no_unwind
    {
        let ghost count = self@.items.len();
        let ghost whole = self.wf();
        let mut tail: usize = self.tail;
        let mut dropped: usize = 0;
        // Loop over all slots that hold a value and drop them
        while tail != self.head && dropped < self.buffer.size
            invariant
                whole == old(self).wf(),
                count == old(self)@.items.len(),
                self.head == old(self).head,
                self.tail == old(self).tail,
                self.free_buffer == old(self).free_buffer,
                self.buffer.size == old(self).buffer.size,
                self.memory_len() == old(self).memory_len(),
                self.forgotten() == old(self).forgotten(),
                self.left_behind() == old(self).left_behind(),
                whole ==> {
                    &&& dropped <= count
                    &&& self.dropped() == old(self).dropped() + old(self)@.items.take(
                        dropped as int,
                    )
                    &&& tail == wrap(old(self).tail + dropped, old(self).size() as int)
                    &&& self.buffer.same_shape(old(self).buffer)
                    &&& forall|p: int|
                        0 <= p < old(self).size() ==> #[trigger] self.buffer.slot(p) == {
                            if distance(old(self).tail as int, p, old(self).size() as int)
                                < dropped {
                                None
                            } else {
                                old(self).buffer.slot(p)
                            }
                        }
                },
            decreases self.buffer.size - dropped,
        {
            proof {
                if whole {
                    let items = old(self)@.items;
                    assert(self.buffer.slot(tail as int) == Some(items[dropped as int]));
                    assert(items.take(dropped as int) + held(Some(items[dropped as int]))
                        =~= items.take(dropped + 1));
                    assert(old(self).dropped() + items.take(dropped as int) + held(
                        Some(items[dropped as int]),
                    ) =~= old(self).dropped() + (items.take(dropped as int) + held(
                        Some(items[dropped as int]),
                    )));
                }
            }
            self.buffer.drop_slot(tail, &mut self.ledger);
            tail = if tail >= self.buffer.size - 1 {
                0
            } else {
                tail + 1
            };
            dropped += 1;
        }
        self.tail = tail;
        proof {
            if whole {
                assert(dropped == count);
                assert(old(self)@.items.take(count as int) =~= old(self)@.items);
                Self::lemma_tail_moved(*old(self), *self, count);
            }
        }
    }

    /// A queue whose values have been taken out is left with its other slots as they were.
    proof fn lemma_emptied(before: Self, after: Self)
        requires
            before.wf(),
            after.head == before.head,
            after.size() == before.size(),
            after.wf(),
            after@ == before@.discard(before@.items.len()),
        ensures
            after.buffer.slots() == before@.emptied(),
    {
        let size = before.size() as int;
        assert forall|pos: int| 0 <= pos < size implies #[trigger] after.buffer.slot(pos)
            == before@.emptied()[pos] by {
            let i = distance(before.head as int, pos, size);
            assert(wrap(before.head + i, size) == pos);
            assert(after@.vacant[i] == after.buffer.slot(pos));
        }
        assert(after.buffer.slots() =~= before@.emptied());
    }

    /// The slots that a queue without its values is left with, by how far they lie from its head
    /// and its tail.
    proof fn lemma_emptied_slots(queue: QueueModel<T>)
        requires
            queue.wf(),
        ensures
            forall|i: int|
                0 <= i < queue.vacant.len() ==> #[trigger] queue.vacant[i] == queue.emptied()[(
                queue.tail + queue.items.len() + i) % queue.size() as int],
            forall|i: int|
                0 <= i < queue.items.len() ==> queue.emptied()[#[trigger] ((queue.tail + i)
                    % queue.size() as int)] is None,
    {
        let size = queue.size() as int;
        assert forall|i: int| 0 <= i < queue.vacant.len() implies #[trigger] queue.vacant[i]
            == queue.emptied()[(queue.tail + queue.items.len() + i) % size] by {
            lemma_wrap_is_remainder(queue.tail + queue.items.len() + i, size);
        }
        assert forall|i: int| 0 <= i < queue.items.len() implies queue.emptied()[#[trigger] ((
        queue.tail + i) % size)] is None by {
            lemma_wrap_is_remainder(queue.tail + i, size);
        }
    }

    /// Ends the queue.
    ///
    /// Returns the values that it still holds, the one to be read next first. A buffer that has
    /// been allocated upon construction is freed. A buffer that the queue was built on is
    /// returned, with the slots of these values empty and all others as they are. Only the
    /// returned values are left to be dropped.
    pub fn close(self) -> (ended: (Vec<T>, Option<Buffer<T>>))
        requires
            self.wf(),
        ensures
            ended.0@ == self@.items,
            ended.1 is None <==> self@.memory.owned,
            ended.1 matches Some(buffer) ==> {
                &&& buffer.wf()
                &&& buffer.size == self@.size()
                &&& buffer.slots() == self@.emptied()
                &&& buffer.before() == self@.memory.before
                &&& buffer.after() == self@.memory.after
                &&& forall|i: int|
                    0 <= i < self@.vacant.len() ==> #[trigger] self@.vacant[i] == buffer.slots()[(
                    self@.tail + self@.items.len() + i) % self@.size() as int]
                &&& forall|i: int|
                    0 <= i < self@.items.len() ==> buffer.slots()[#[trigger] ((self@.tail + i)
                        % self@.size() as int)] is None
            },
    {
        let (values, buffer, _) = self.end();
        (values, buffer)
    }

    /// Ends the queue as [`Self::close`] does, and also returns the record of what became of what
    /// is not handed out.
    pub(crate) fn end(self) -> (ended: (Vec<T>, Option<Buffer<T>>, Ledger<T>))
        requires
            self.wf(),
        ensures
            ended.0@ == self@.items,
            ended.1 is None <==> self@.memory.owned,
            ended.1 matches Some(buffer) ==> {
                &&& buffer.wf()
                &&& buffer.size == self@.size()
                &&& buffer.slots() == self@.emptied()
                &&& buffer.before() == self@.memory.before
                &&& buffer.after() == self@.memory.after
                &&& forall|i: int|
                    0 <= i < self@.vacant.len() ==> #[trigger] self@.vacant[i] == buffer.slots()[(
                    self@.tail + self@.items.len() + i) % self@.size() as int]
                &&& forall|i: int|
                    0 <= i < self@.items.len() ==> buffer.slots()[#[trigger] ((self@.tail + i)
                        % self@.size() as int)] is None
            },
            ended.2.dropped().len() == 0,
            ended.2.left_behind() == 0,
            ended.2.forgotten() == (if self@.memory.owned {
                held_in(self@.memory.before + self@.emptied() + self@.memory.after)
            } else {
                Seq::empty()
            }),
    {
        let mut queue = self;
        let mut values: Vec<T> = Vec::new();
        assert(self@.discard(0) =~= self@);
        // Loop over all slots that hold a value and take it
        while queue.tail != queue.head
            invariant
                queue.wf(),
                self.wf(),
                queue.head == self.head,
                queue.size() == self.size(),
                queue.free_buffer == self.free_buffer,
                values@.len() <= self@.items.len(),
                values@ == self@.items.take(values@.len() as int),
                queue@ == self@.discard(values@.len()),
            decreases queue@.items.len(),
        {
            let ghost before = queue;
            let pos: usize = queue.tail;
            let next: usize = queue.skip(pos, 1).0;
            let value: T = queue.buffer.take_slot(pos).unwrap();
            queue.tail = next;
            proof {
                Self::lemma_tail_moved(before, queue, 1);
                assert(before@.items[0] == self@.items[values@.len() as int]);
                assert(value == before@.items[0]);
                assert(queue@ =~= self@.discard(values@.len() + 1)) by {
                    assert(queue@.vacant =~= self@.discard(values@.len() + 1).vacant);
                    assert(queue@.items =~= self@.discard(values@.len() + 1).items);
                }
            }
            values.push(value);
            assert(values@ =~= self@.items.take(values@.len() as int));
        }
        proof {
            assert(queue@.items.len() == 0);
            assert(values@ =~= self@.items);
            Self::lemma_emptied(self, queue);
            Self::lemma_emptied_slots(self@);
        }
        // Leave nothing behind for the destructor
        let mut buffer: Buffer<T> = Buffer { size: 0, data: Vec::new(), offset: 0 };
        mem::swap(&mut buffer, &mut queue.buffer);
        // Finally, free the buffer if it has been allocated upon construction
        if queue.free_buffer {
            proof {
                buffer.lemma_held_in_parts();
            }
            let ledger: Ledger<T> = buffer.free();
            (values, None, ledger)
        } else {
            (values, Some(buffer), Ledger::new())
        }
    }
}

impl<T> Drop for Shared<T> {
    /// Drops the values that the queue still holds, the one to be read next first, and nothing
    /// else that lies in its slots.
    ///
    /// What is left in the memory when this function returns ends with the value: all of it, and
    /// empty, for a buffer that has been allocated upon construction, and none of it for one that
    /// the queue was built on, whose memory is left behind.
    fn drop(&mut self)
        ensures
            final(self).holds_nothing(),
            old(self)@.memory.owned ==> final(self).memory_len() == old(self).memory_len(),
            !old(self)@.memory.owned ==> final(self).memory_len() == 0,
            final(self).left_behind() == old(self).left_behind() + (if old(self)@.memory.owned {
                0
            } else {
                old(self).memory_len()
            }),
            old(self).wf() ==> final(self)@.tail == old(self)@.head(),
            old(self).wf() ==> final(self).dropped() == old(self).dropped() + old(self)@.items,
            old(self).wf() ==> final(self).forgotten() == old(self).forgotten() + held_in(
                old(self)@.memory.before + old(self)@.emptied() + old(self)@.memory.after,
            ),
        opens_invariants none
        no_unwind
    {
        self.drop_items();
        proof {
            if old(self).wf() {
                old(self).lemma_head();
                Self::lemma_emptied(*old(self), *self);
                self.buffer.lemma_held_in_parts();
            }
        }
        // Only a buffer that has been allocated upon construction is freed, along with the vector
        // that holds its memory
        if self.free_buffer {
            self.buffer.forget_all(&mut self.ledger);
        } else {
            self.buffer.leave(&mut self.ledger);
        }
    }
}

/// Constructs a bounded, single-producer/single-consumer queue with the specified capacity.
///
/// The queue will buffer up to `capacity` elements at once. The internal buffer required for this
/// capacity is allocated upon construction.
///
/// Returns the queue, and its producer and consumer side.
pub fn with_capacity<T>(capacity: usize) -> (sides: (Shared<T>, Producer<T>, Consumer<T>))
    requires
        capacity < usize::MAX,
        padded_size_fits::<T>((capacity + 1) as usize),
    ensures
        sides.0.wf(),
        sides.0@ == QueueModel::on_slots(
            empty_slots::<T>(capacity as nat + 1),
            allocated_memory::<T>(),
        ),
        sides.0@.capacity() == capacity,
        sides.0@.items.len() == 0,
        sides.0@.vacant.len() == capacity + 1,
        forall|i: int| 0 <= i <= capacity ==> #[trigger] sides.0@.vacant[i] is None,
        sides.0@.memory.owned,
        sides.0.dropped().len() == 0,
        sides.0.forgotten().len() == 0,
        sides.0.left_behind() == 0,
        sides.1.inv(sides.0),
        sides.1.known_free(sides.0) == capacity,
        sides.2.inv(sides.0),
        sides.2.known_ready(sides.0) == 0,
{
    let size: usize = capacity + 1;  // one free empty slot
    let buffer: Buffer<T> = Buffer::allocate(size);
    Shared::on_buffer(buffer, true).split()
}

/// Constructs a bounded, single-producer/single-consumer queue on the given buffer.
///
/// The buffer must not be empty. One slot of the buffer is needed as a separator between
/// occupied and free slots, i.e. the actual capacity will be `buffer.size - 1`.
///
/// What the slots of the buffer hold is not part of the queue, and is overwritten without being
/// dropped. The buffer stays the caller's: [`Shared::close`] gives it back.
///
/// Returns the queue, and its producer and consumer side.
pub fn new<T, D>(buffer: Buffer<T>) -> (sides: (Shared<T>, Producer<T>, Consumer<T>))
    requires
        buffer.wf(),
        buffer.size > 0,
    ensures
        sides.0.wf(),
        sides.0@ == QueueModel::on_slots(
            buffer.slots(),
            MemoryModel { owned: false, before: buffer.before(), after: buffer.after() },
        ),
        sides.0@.capacity() == buffer.size - 1,
        sides.0@.items.len() == 0,
        sides.0@.vacant == buffer.slots(),
        !sides.0@.memory.owned,
        sides.0.dropped().len() == 0,
        sides.0.forgotten().len() == 0,
        sides.0.left_behind() == 0,
        sides.1.inv(sides.0),
        sides.1.known_free(sides.0) == buffer.size - 1,
        sides.2.inv(sides.0),
        sides.2.known_ready(sides.0) == 0,
{
    Shared::on_buffer(buffer, false).split()
}

/// A distance on a ring is the remainder that its positions leave.
proof fn lemma_distance_is_remainder(from: int, to: int, size: int)
    requires
        0 <= from < size,
        0 <= to < size,
    ensures
        distance(from, to, size) == (to + size - from) % size,
{
    if to >= from {
        vstd::arithmetic::div_mod::lemma_mod_add_multiples_vanish(to - from, size);
        vstd::arithmetic::div_mod::lemma_small_mod((to - from) as nat, size as nat);
    } else {
        vstd::arithmetic::div_mod::lemma_small_mod((to + size - from) as nat, size as nat);
    }
}

/// A position that has gone round a ring at most once leaves the position it is brought back to
/// as its remainder.
pub(crate) proof fn lemma_wrap_is_remainder(pos: int, size: int)
    requires
        0 <= pos < 2 * size,
    ensures
        wrap(pos, size) == pos % size,
{
    if pos < size {
        vstd::arithmetic::div_mod::lemma_small_mod(pos as nat, size as nat);
    } else {
        vstd::arithmetic::div_mod::lemma_mod_add_multiples_vanish(pos - size, size);
        vstd::arithmetic::div_mod::lemma_small_mod((pos - size) as nat, size as nat);
    }
}

} // verus!
