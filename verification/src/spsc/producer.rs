//! The side of a queue that writes.

use super::error::TryPushError;
use super::ledger::held;
use super::model::{
    acquired, all_filled, distance, least, slots_of, values_of, wrap, writable, QueueModel,
};
use super::shared::{lemma_wrap_is_remainder, Shared};
use super::system::{
    consumers_kept, lemma_consumers_kept_twice, lemma_producer_took, producer_took, Step,
};
use core::marker::PhantomData;
use vstd::prelude::*;

verus! {

/// The producer side of a bounded, single-producer/single-consumer queue.
///
/// Writes to the head of the queue.
#[derive(Debug)]
pub struct Producer<T> {
    /// An exclusive copy of the shared tail for quick access.
    ///
    /// This value can become stale and then needs to be resynchronized with the shared tail that
    /// is updated by the consumer.
    pub(crate) cached_tail: usize,
    /// The type of the values that are written.
    pub(crate) values: PhantomData<T>,
}

impl<T> Producer<T> {
    /// The producer belongs to the queue: every slot that it knows to be free is free.
    pub open(crate) spec fn inv(self, queue: Shared<T>) -> bool {
        &&& queue.wf()
        &&& self.cached_tail < queue.size()
        &&& self.known_free(queue) <= queue@.free()
    }

    /// The number of free slots that the producer knows of.
    pub open(crate) spec fn known_free(self, queue: Shared<T>) -> nat {
        writable(queue.size() as int, queue.head as int, self.cached_tail as int) as nat
    }

    /// Refreshes the cached tail.
    fn refresh_tail(&mut self, queue: &Shared<T>) -> (tail: usize)
        requires
            queue.wf(),
        ensures
            tail == queue.tail,
            final(self).inv(*queue),
            final(self).known_free(*queue) == queue@.free(),
    {
        self.cached_tail = queue.tail;
        self.cached_tail
    }

    /// The write position, and how many slots from there on are available, given a minimum
    /// amount.
    pub fn acquire_writable(&mut self, queue: &Shared<T>, min_count: usize) -> (found: (
        usize,
        usize,
    ))
        requires
            old(self).inv(*queue),
        ensures
            found.0 == queue@.head(),
            found.0 == (queue@.tail + queue@.items.len()) % queue@.size() as int,
            found.0 < queue@.size(),
            found.1 == acquired(
                old(self).known_free(*queue),
                queue@.free(),
                min_count as nat,
            ),
            old(self).known_free(*queue) >= min_count ==> found.1 == old(self).known_free(*queue),
            old(self).known_free(*queue) < min_count ==> found.1 == queue@.free(),
            old(self).known_free(*queue) <= found.1 <= queue@.free(),
            found.1 < queue@.size(),
            found.1 < min_count ==> queue@.free() < min_count,
            final(self).inv(*queue),
            final(self).known_free(*queue) == found.1,
    {
        proof {
            queue.lemma_head();
            lemma_wrap_is_remainder(queue@.tail + queue@.items.len(), queue.size() as int);
        }
        let head: usize = queue.head;
        let mut writable: usize = queue.writable_capacity(head, self.cached_tail);
        if writable < min_count {
            let tail: usize = self.refresh_tail(queue);
            writable = queue.writable_capacity(head, tail);
        }
        (head, writable)
    }

    /// Returns the capacity of the queue.
    pub fn capacity(&self, queue: &Shared<T>) -> (capacity: usize)
        requires
            self.inv(*queue),
        ensures
            capacity == queue@.capacity(),
            capacity + 1 == queue@.items.len() + queue@.vacant.len(),
    {
        queue.capacity()
    }

    /// Returns how many slots are immediately available for writing.
    pub fn peek(&self, queue: &Shared<T>) -> (count: usize)
        requires
            self.inv(*queue),
        ensures
            count == self.known_free(*queue),
            count <= queue@.free(),
    {
        queue.writable_capacity(queue.head, self.cached_tail)
    }

    /// Returns how many slots are available for writing given a minimum amount.
    pub fn peek_min(&mut self, queue: &Shared<T>, min_count: usize) -> (count: usize)
        requires
            old(self).inv(*queue),
        ensures
            count == acquired(old(self).known_free(*queue), queue@.free(), min_count as nat),
            old(self).known_free(*queue) >= min_count ==> count == old(self).known_free(*queue),
            old(self).known_free(*queue) < min_count ==> count == queue@.free(),
            final(self).inv(*queue),
            final(self).known_free(*queue) == count,
    {
        self.acquire_writable(queue, min_count).1
    }

    /// Returns how many slots are actually available for writing.
    pub fn peek_max(&mut self, queue: &Shared<T>) -> (count: usize)
        requires
            old(self).inv(*queue),
        ensures
            count == queue@.free(),
            count + 1 == queue@.vacant.len(),
            final(self).inv(*queue),
            final(self).known_free(*queue) == count,
    {
        self.peek_min(queue, queue.buffer.size)
    }

    /// Attempts to push an element into the queue.
    ///
    /// If the queue is full, the element is returned back as an error.
    pub fn try_push(&mut self, queue: &mut Shared<T>, value: T) -> (result: Result<
        (),
        TryPushError<T>,
    >)
        requires
            old(self).inv(*old(queue)),
        ensures
            result == (if old(queue)@.free() == 0 {
                Err(TryPushError::Full(value))
            } else {
                Ok(())
            }),
            final(queue)@ == (if old(queue)@.free() == 0 {
                old(queue)@
            } else {
                old(queue)@.push(value)
            }),
            old(queue)@.free() > 0 ==> {
                &&& final(queue)@.items == old(queue)@.items.push(value)
                &&& final(queue)@.vacant == old(queue)@.vacant.skip(1)
                &&& final(queue)@.tail == old(queue)@.tail
                &&& final(queue)@.memory == old(queue)@.memory
            },
            final(queue).dropped() == old(queue).dropped(),
            final(queue).left_behind() == old(queue).left_behind(),
            final(queue).forgotten() == (if old(queue)@.free() == 0 {
                old(queue).forgotten()
            } else {
                old(queue).forgotten() + held(old(queue)@.vacant[0])
            }),
            old(self).known_free(*old(queue)) >= 1 ==> final(self).known_free(*final(queue))
                == old(self).known_free(*old(queue)) - 1,
            old(self).known_free(*old(queue)) == 0 && old(queue)@.free() > 0 ==>
                final(self).known_free(*final(queue)) == old(queue)@.free() - 1,
            final(self).inv(*final(queue)),
            final(self).known_free(*final(queue)) == (if old(queue)@.free() == 0 {
                0
            } else {
                acquired(old(self).known_free(*old(queue)), old(queue)@.free(), 1) - 1
            }),
            consumers_kept(*old(queue), *final(queue)),
            producer_took(
                (*old(queue), *old(self)),
                Step::Push(value),
                (*final(queue), *final(self)),
            ),
    {
        let (head, writable) = self.acquire_writable(queue, 1);
        if writable == 0 {
            proof {
                assert(queue@.append(Seq::empty()) =~= queue@);
                lemma_producer_took(
                    (*old(queue), *old(self)),
                    Step::Push(value),
                    (*queue, *self),
                );
            }
            return Err(TryPushError::Full(value));
        }
        proof {
            queue.lemma_head();
        }
        let next: usize = queue.skip(head, 1).0;
        // Write the value into the head slot
        queue.buffer.write_slot(head, value, &mut queue.ledger);
        // Move the head one slot forward
        queue.head = next;
        proof {
            Shared::lemma_head_moved(*old(queue), *queue, seq![value]);
            lemma_producer_took((*old(queue), *old(self)), Step::Push(value), (*queue, *self));
        }
        Ok(())
    }

    /// Obtains two contiguous slices for writing.
    ///
    /// Returns a pair of two contiguous slices with slots for writing. The two (possibly empty)
    /// slices represent all free slots that are immediately available for writing. The first
    /// slice has to be filled before starting to write into the second slice.
    ///
    /// The parameter `min_count` is a hint for the desired number of free slots. It affects if
    /// coordination with the consumer is required. For `min_count = 0` only the free slots
    /// currently known to the producer are returned, not taking into account any slots that have
    /// been freed by the consumer in the meanwhile.
    ///
    /// Either the second or both slices might be empty. If the first slice is empty then the
    /// queue is full, as far as the producer has looked.
    ///
    /// What is written into the slices is outside the queue until the write position is advanced
    /// over it, see [`skip_writable`](#method.skip_writable). A slice keeps its length whatever is
    /// written into it.
    pub fn writable_slices_raw<'a>(
        &mut self,
        queue: &'a mut Shared<T>,
        min_count: usize,
    ) -> (slices: (&'a mut [Option<T>], &'a mut [Option<T>]))
        requires
            old(self).inv(*old(queue)),
        ensures
            ({
                let found = acquired(
                    old(self).known_free(*old(queue)),
                    old(queue)@.free(),
                    min_count as nat,
                );
                let (first, second) = slices;
                let written = final(first)@ + final(second)@;
                &&& first@ + second@ == old(queue)@.vacant.take(found as int)
                &&& first@.len() == old(queue)@.before_end(old(queue)@.head(), found)
                &&& first@.len() == 0 ==> second@.len() == 0
                &&& final(first)@.len() == first@.len() && final(second)@.len() == second@.len()
                    ==> {
                    &&& final(queue)@ == old(queue)@.stage(written)
                    &&& final(self).inv(*final(queue))
                    &&& final(self).known_free(*final(queue)) == found
                    &&& consumers_kept(*old(queue), *final(queue))
                }
            }),
            ({
                let known = old(self).known_free(*old(queue));
                let (first, second) = slices;
                let shown = first@.len() + second@.len();
                let written = final(first)@ + final(second)@;
                &&& known >= min_count ==> shown == known
                &&& known < min_count ==> shown == old(queue)@.free()
                &&& forall|i: int|
                    0 <= i < first@.len() ==> #[trigger] first@[i] == old(queue)@.vacant[i]
                &&& forall|i: int|
                    0 <= i < second@.len() ==> #[trigger] second@[i]
                        == old(queue)@.vacant[first@.len() + i]
                &&& old(queue)@.head() + first@.len() <= old(queue)@.size()
                &&& second@.len() > 0 ==> old(queue)@.head() + first@.len() == old(queue)@.size()
                &&& final(first)@.len() == first@.len() && final(second)@.len() == second@.len()
                    ==> {
                    &&& final(self).known_free(*final(queue)) == shown
                    &&& final(queue)@.items == old(queue)@.items
                    &&& final(queue)@.vacant == written + old(queue)@.vacant.skip(shown as int)
                    &&& final(queue)@.tail == old(queue)@.tail
                    &&& final(queue)@.memory == old(queue)@.memory
                }
            }),
            final(queue).dropped() == old(queue).dropped(),
            final(queue).left_behind() == old(queue).left_behind(),
            final(queue).forgotten() == old(queue).forgotten(),
    {
        let (_, writable) = self.acquire_writable(queue, min_count);
        let ghost vacant = queue@.vacant;
        let (first, second) = queue.vacant_slices(writable);
        proof {
            let shown = first@ + second@;
            assert(shown == vacant.take(writable as int));
            assert forall|i: int| 0 <= i < first@.len() implies #[trigger] first@[i]
                == vacant[i] by {
                assert(shown[i] == first@[i]);
            }
            assert forall|i: int| 0 <= i < second@.len() implies #[trigger] second@[i]
                == vacant[first@.len() + i] by {
                assert(shown[first@.len() + i] == second@[i]);
            }
        }
        (first, second)
    }

    /// Advances the write position.
    ///
    /// The caller is responsible that the corresponding slots have been filled upon writing.
    pub fn skip_writable(&mut self, queue: &mut Shared<T>, count_write: usize)
        requires
            old(self).inv(*old(queue)),
            count_write <= old(self).known_free(*old(queue)),
            all_filled(old(queue)@.vacant.take(count_write as int)),
        ensures
            final(queue)@ == old(queue)@.commit(count_write as nat),
            final(queue)@.items.len() == old(queue)@.items.len() + count_write,
            final(queue)@.items.take(old(queue)@.items.len() as int) == old(queue)@.items,
            forall|i: int|
                0 <= i < count_write ==> #[trigger] old(queue)@.vacant[i] == Some(
                    final(queue)@.items[old(queue)@.items.len() + i],
                ),
            final(queue)@.vacant == old(queue)@.vacant.skip(count_write as int),
            final(queue)@.tail == old(queue)@.tail,
            final(queue)@.memory == old(queue)@.memory,
            final(queue).dropped() == old(queue).dropped(),
            final(queue).left_behind() == old(queue).left_behind(),
            final(queue).forgotten() == old(queue).forgotten(),
            final(self).inv(*final(queue)),
            final(self).known_free(*final(queue)) == old(self).known_free(*old(queue))
                - count_write,
            consumers_kept(*old(queue), *final(queue)),
            producer_took(
                (*old(queue), *old(self)),
                Step::Commit(count_write as nat),
                (*final(queue), *final(self)),
            ),
    {
        let head: usize = queue.skip(queue.head, count_write).0;
        queue.head = head;
        proof {
            let before = *old(queue);
            let taken = before@.vacant.take(count_write as int);
            let values = values_of(taken);
            assert forall|pos: int| 0 <= pos < before.size() implies #[trigger] queue.buffer.slot(
                pos,
            ) == {
                let i = distance(before.head as int, pos, before.size() as int);
                if i < values.len() {
                    Some(values[i])
                } else {
                    before.buffer.slot(pos)
                }
            } by {
                let i = distance(before.head as int, pos, before.size() as int);
                if i < values.len() {
                    assert(taken[i] is Some);
                    assert(wrap(before.head + i, before.size() as int) == pos);
                }
            }
            Shared::lemma_head_moved(before, *queue, values);
            lemma_producer_took(
                (*old(queue), *old(self)),
                Step::Commit(count_write as nat),
                (*queue, *self),
            );
            assert(queue@.items.take(before@.items.len() as int) =~= before@.items);
            assert forall|i: int| 0 <= i < count_write implies #[trigger] before@.vacant[i] == Some(
                queue@.items[before@.items.len() + i],
            ) by {
                assert(taken[i] is Some);
            }
        }
    }
}

/// Copies values, the first of which is `src[from]`, into all slots of `dst`.
fn fill_slots<T: Copy>(dst: &mut [Option<T>], src: &[T], from: usize)
    requires
        from + old(dst)@.len() <= src.len(),
    ensures
        final(dst)@ == slots_of(src@.subrange(from as int, from + old(dst)@.len())),
{
    let mut i: usize = 0;
    while i < dst.len()
        invariant
            i <= dst@.len(),
            dst@.len() == old(dst)@.len(),
            from + dst@.len() <= src.len(),
            forall|j: int| 0 <= j < i ==> #[trigger] dst@[j] == Some(src@[from + j]),
        decreases dst@.len() - i,
    {
        dst[i] = Some(src[from + i]);
        i += 1;
    }
    assert(dst@ =~= slots_of(src@.subrange(from as int, from + old(dst)@.len())));
}

/// To write values into the first vacant slots of a queue and to commit them is to append them.
proof fn lemma_stage_and_commit<T>(queue: QueueModel<T>, values: Seq<T>)
    requires
        values.len() <= queue.vacant.len(),
    ensures
        all_filled(queue.stage(slots_of(values)).vacant.take(values.len() as int)),
        queue.stage(slots_of(values)).commit(values.len()) == queue.append(values),
{
    let staged = queue.stage(slots_of(values));
    let count = values.len() as int;
    assert(staged.vacant.take(count) =~= slots_of(values));
    assert(values_of(slots_of(values)) =~= values);
    assert(staged.vacant.skip(count) =~= queue.vacant.skip(count));
}

/// To write what there is room for of `src` and to commit it is to append it.
proof fn lemma_copied<T>(
    before: (Shared<T>, Producer<T>),
    staged: Shared<T>,
    after: (Shared<T>, Producer<T>),
    src: Seq<T>,
)
    requires
        consumers_kept(before.0, staged),
        consumers_kept(staged, after.0),
        ({
            let count = least(src.len(), before.0@.free());
            let known = before.1.known_free(before.0);
            &&& after.0@ == before.0@.append(src.take(count as int))
            &&& after.1.known_free(after.0) == acquired(known, before.0@.free(), src.len())
                - count
        }),
    ensures
        consumers_kept(before.0, after.0),
        producer_took(before, Step::Append(src), after),
{
    lemma_consumers_kept_twice(before.0, staged, after.0);
    lemma_producer_took(before, Step::Append(src), after);
}

impl<T: Copy + Default> Producer<T> {
    /// Obtains two contiguous slices for writing.
    ///
    /// See also: [`writable_slices_raw`](#method.writable_slices_raw)
    pub fn writable_slices<'a>(
        &mut self,
        queue: &'a mut Shared<T>,
        min_count: usize,
    ) -> (slices: (&'a mut [Option<T>], &'a mut [Option<T>]))
        requires
            old(self).inv(*old(queue)),
        ensures
            ({
                let found = acquired(
                    old(self).known_free(*old(queue)),
                    old(queue)@.free(),
                    min_count as nat,
                );
                let (first, second) = slices;
                let written = final(first)@ + final(second)@;
                &&& first@ + second@ == old(queue)@.vacant.take(found as int)
                &&& first@.len() == old(queue)@.before_end(old(queue)@.head(), found)
                &&& first@.len() == 0 ==> second@.len() == 0
                &&& final(first)@.len() == first@.len() && final(second)@.len() == second@.len()
                    ==> {
                    &&& final(queue)@ == old(queue)@.stage(written)
                    &&& final(self).inv(*final(queue))
                    &&& final(self).known_free(*final(queue)) == found
                    &&& consumers_kept(*old(queue), *final(queue))
                }
            }),
            ({
                let known = old(self).known_free(*old(queue));
                let (first, second) = slices;
                let shown = first@.len() + second@.len();
                let written = final(first)@ + final(second)@;
                &&& known >= min_count ==> shown == known
                &&& known < min_count ==> shown == old(queue)@.free()
                &&& forall|i: int|
                    0 <= i < first@.len() ==> #[trigger] first@[i] == old(queue)@.vacant[i]
                &&& forall|i: int|
                    0 <= i < second@.len() ==> #[trigger] second@[i]
                        == old(queue)@.vacant[first@.len() + i]
                &&& old(queue)@.head() + first@.len() <= old(queue)@.size()
                &&& second@.len() > 0 ==> old(queue)@.head() + first@.len() == old(queue)@.size()
                &&& final(first)@.len() == first@.len() && final(second)@.len() == second@.len()
                    ==> {
                    &&& final(self).known_free(*final(queue)) == shown
                    &&& final(queue)@.items == old(queue)@.items
                    &&& final(queue)@.vacant == written + old(queue)@.vacant.skip(shown as int)
                    &&& final(queue)@.tail == old(queue)@.tail
                    &&& final(queue)@.memory == old(queue)@.memory
                }
            }),
            final(queue).dropped() == old(queue).dropped(),
            final(queue).left_behind() == old(queue).left_behind(),
            final(queue).forgotten() == old(queue).forgotten(),
    {
        self.writable_slices_raw(queue, min_count)
    }

    /// Copies from a slice into the queue.
    ///
    /// Copy as many elements as possible from the given slice into the queue.
    ///
    /// Returns how many elements have actually been copied, i.e. the contents of the slice may
    /// have only been copied partially.
    pub fn copy_from_slice(&mut self, queue: &mut Shared<T>, src: &[T]) -> (count: usize)
        requires
            old(self).inv(*old(queue)),
        ensures
            count == least(src@.len(), old(queue)@.free()),
            count <= src@.len() && count <= old(queue)@.free(),
            count == src@.len() || count == old(queue)@.free(),
            final(queue)@ == old(queue)@.append(src@.take(count as int)),
            final(queue)@.items == old(queue)@.items + src@.take(count as int),
            final(queue)@.vacant == old(queue)@.vacant.skip(count as int),
            final(queue)@.tail == old(queue)@.tail,
            final(queue)@.memory == old(queue)@.memory,
            final(queue).dropped() == old(queue).dropped(),
            final(queue).left_behind() == old(queue).left_behind(),
            final(queue).forgotten() == old(queue).forgotten(),
            old(self).known_free(*old(queue)) >= src@.len() ==> final(self).known_free(
                *final(queue),
            ) == old(self).known_free(*old(queue)) - count,
            old(self).known_free(*old(queue)) < src@.len() ==> final(self).known_free(
                *final(queue),
            ) == final(queue)@.free(),
            final(self).inv(*final(queue)),
            final(self).known_free(*final(queue)) == acquired(
                old(self).known_free(*old(queue)),
                old(queue)@.free(),
                src@.len(),
            ) - count,
            consumers_kept(*old(queue), *final(queue)),
            producer_took(
                (*old(queue), *old(self)),
                Step::Append(src@),
                (*final(queue), *final(self)),
            ),
    {
        let (_, writable) = self.acquire_writable(queue, src.len());
        let len: usize = if writable < src.len() {
            writable
        } else {
            src.len()
        };
        let (dst1, dst2) = queue.vacant_slices(len);
        let ghost (len1, len2) = (dst1@.len(), dst2@.len());
        assert(len1 + len2 == (dst1@ + dst2@).len());
        let from: usize = dst1.len();
        fill_slots(dst1, src, 0);
        fill_slots(dst2, src, from);
        proof {
            assert(slots_of(src@.subrange(0, len1 as int)) + slots_of(
                src@.subrange(len1 as int, (len1 + len2) as int),
            ) =~= slots_of(src@.take(len as int)));
            lemma_stage_and_commit(old(queue)@, src@.take(len as int));
        }
        let ghost staged = *queue;
        self.skip_writable(queue, len);
        proof {
            lemma_copied((*old(queue), *old(self)), staged, (*queue, *self), src@);
        }
        len
    }

    /// Copies from a slice into the queue (blocking): one round.
    ///
    /// To copy all elements from the given slice into the queue, start with `written == 0`, and
    /// call this function with what it returned until it returns the length of the slice. Give
    /// up the queue between two rounds, so that the consumer can make room.
    ///
    /// `written` elements have been copied already. Returns how many have been copied with this
    /// round, which is all of them unless the queue is full.
    pub fn copy_from_slice_blocking(
        &mut self,
        queue: &mut Shared<T>,
        src: &[T],
        written: usize,
    ) -> (done: usize)
        requires
            old(self).inv(*old(queue)),
            written <= src@.len(),
        ensures
            done == written + least((src@.len() - written) as nat, old(queue)@.free()),
            done == src@.len() || final(queue)@.free() == 0,
            written < src@.len() && old(queue)@.free() > 0 ==> written < done,
            written <= done <= src@.len(),
            final(queue)@ == old(queue)@.append(src@.subrange(written as int, done as int)),
            final(queue)@.items == old(queue)@.items + src@.subrange(written as int, done as int),
            final(queue)@.vacant == old(queue)@.vacant.skip(done - written),
            final(queue)@.tail == old(queue)@.tail,
            final(queue)@.memory == old(queue)@.memory,
            final(queue).dropped() == old(queue).dropped(),
            final(queue).left_behind() == old(queue).left_behind(),
            final(queue).forgotten() == old(queue).forgotten(),
            old(self).known_free(*old(queue)) >= src@.len() - written ==> final(self).known_free(
                *final(queue),
            ) == old(self).known_free(*old(queue)) - (done - written),
            old(self).known_free(*old(queue)) < src@.len() - written ==> final(self).known_free(
                *final(queue),
            ) == final(queue)@.free(),
            written == src@.len() ==> final(queue)@ == old(queue)@,
            final(self).inv(*final(queue)),
            final(self).known_free(*final(queue)) == acquired(
                old(self).known_free(*old(queue)),
                old(queue)@.free(),
                (src@.len() - written) as nat,
            ) - (done - written),
            consumers_kept(*old(queue), *final(queue)),
            producer_took(
                (*old(queue), *old(self)),
                Step::Append(src@.skip(written as int)),
                (*final(queue), *final(self)),
            ),
    {
        let rest = vstd::slice::slice_subrange(src, written, src.len());
        let count: usize = self.copy_from_slice(queue, rest);
        let done: usize = written + count;
        proof {
            assert(rest@ =~= src@.skip(written as int));
            assert(rest@.take(count as int) =~= src@.subrange(written as int, done as int));
            assert(old(queue)@.append(Seq::empty()) =~= old(queue)@);
            assert(written == src@.len() ==> rest@.take(count as int) =~= Seq::empty());
        }
        done
    }
}

} // verus!
