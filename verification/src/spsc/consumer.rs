//! The side of a queue that reads.

use super::error::TryPopError;
use super::ledger::held;
use super::model::{acquired, distance, least, readable, slots_of, wrap};
use super::shared::Shared;
use super::system::{consumer_took, lemma_consumer_took, producers_kept, Step};
use core::marker::PhantomData;
use vstd::prelude::*;

verus! {

/// The consumer side of a bounded, single-producer/single-consumer queue.
///
/// Reads from the tail of the queue.
#[derive(Debug)]
pub struct Consumer<T> {
    /// An exclusive copy of the shared head for quick access.
    ///
    /// This value can become stale and then needs to be resynchronized with the shared head that
    /// is updated by the producer.
    pub(crate) cached_head: usize,
    /// The type of the values that are read.
    pub(crate) values: PhantomData<T>,
}

impl<T> Consumer<T> {
    /// The consumer belongs to the queue: every value that it knows to be in it is in it.
    pub open(crate) spec fn inv(self, queue: Shared<T>) -> bool {
        &&& queue.wf()
        &&& self.cached_head < queue.size()
        &&& self.known_ready(queue) <= queue@.items.len()
    }

    /// The number of readable slots that the consumer knows of.
    pub open(crate) spec fn known_ready(self, queue: Shared<T>) -> nat {
        readable(queue.size() as int, self.cached_head as int, queue.tail as int) as nat
    }

    /// Refreshes the cached head.
    fn refresh_head(&mut self, queue: &Shared<T>) -> (head: usize)
        requires
            queue.wf(),
        ensures
            head == queue.head,
            final(self).inv(*queue),
            final(self).known_ready(*queue) == queue@.items.len(),
    {
        self.cached_head = queue.head;
        self.cached_head
    }

    /// The read position, and how many slots from there on are available, given a minimum
    /// amount.
    pub fn acquire_readable(&mut self, queue: &Shared<T>, min_count: usize) -> (found: (
        usize,
        usize,
    ))
        requires
            old(self).inv(*queue),
        ensures
            found.0 == queue@.tail,
            found.0 < queue@.size(),
            found.1 == acquired(
                old(self).known_ready(*queue),
                queue@.items.len(),
                min_count as nat,
            ),
            old(self).known_ready(*queue) >= min_count ==> found.1 == old(self).known_ready(*queue),
            old(self).known_ready(*queue) < min_count ==> found.1 == queue@.items.len(),
            old(self).known_ready(*queue) <= found.1 <= queue@.items.len(),
            found.1 < queue@.size(),
            found.1 < min_count ==> queue@.items.len() < min_count,
            final(self).inv(*queue),
            final(self).known_ready(*queue) == found.1,
    {
        let tail: usize = queue.tail;
        let mut readable: usize = queue.readable_capacity(self.cached_head, tail);
        if readable < min_count {
            let head: usize = self.refresh_head(queue);
            readable = queue.readable_capacity(head, tail);
        }
        (tail, readable)
    }

    /// Returns the capacity of the queue.
    pub fn capacity(&self, queue: &Shared<T>) -> (capacity: usize)
        requires
            self.inv(*queue),
        ensures
            capacity == queue@.capacity(),
            capacity + 1 == queue@.items.len() + queue@.vacant.len(),
    {
        queue.capacity()
    }

    /// Returns how many slots are immediately available for reading.
    pub fn peek(&self, queue: &Shared<T>) -> (count: usize)
        requires
            self.inv(*queue),
        ensures
            count == self.known_ready(*queue),
            count <= queue@.items.len(),
    {
        queue.readable_capacity(self.cached_head, queue.tail)
    }

    /// Returns how many slots are available for reading given a minimum amount.
    pub fn peek_min(&mut self, queue: &Shared<T>, min_count: usize) -> (count: usize)
        requires
            old(self).inv(*queue),
        ensures
            count == acquired(
                old(self).known_ready(*queue),
                queue@.items.len(),
                min_count as nat,
            ),
            old(self).known_ready(*queue) >= min_count ==> count == old(self).known_ready(*queue),
            old(self).known_ready(*queue) < min_count ==> count == queue@.items.len(),
            final(self).inv(*queue),
            final(self).known_ready(*queue) == count,
    {
        self.acquire_readable(queue, min_count).1
    }

    /// Returns how many slots are actually available for reading.
    pub fn peek_max(&mut self, queue: &Shared<T>) -> (count: usize)
        requires
            old(self).inv(*queue),
        ensures
            count == queue@.items.len(),
            final(self).inv(*queue),
            final(self).known_ready(*queue) == count,
    {
        self.peek_min(queue, queue.buffer.size)
    }

    /// Attempts to pop an element from the queue.
    ///
    /// If the queue is empty, an error is returned.
    pub fn try_pop(&mut self, queue: &mut Shared<T>) -> (result: Result<T, TryPopError>)
        requires
            old(self).inv(*old(queue)),
        ensures
            result == (if old(queue)@.items.len() == 0 {
                Err(TryPopError::Empty)
            } else {
                Ok(old(queue)@.items[0])
            }),
            final(queue)@ == (if old(queue)@.items.len() == 0 {
                old(queue)@
            } else {
                old(queue)@.pop()
            }),
            old(queue)@.items.len() > 0 ==> {
                &&& final(queue)@.items == old(queue)@.items.skip(1)
                &&& final(queue)@.free() == old(queue)@.free() + 1
                &&& final(queue)@.memory == old(queue)@.memory
            },
            final(queue).dropped() == old(queue).dropped(),
            final(queue).left_behind() == old(queue).left_behind(),
            final(queue).forgotten() == old(queue).forgotten(),
            old(self).known_ready(*old(queue)) >= 1 ==> final(self).known_ready(*final(queue))
                == old(self).known_ready(*old(queue)) - 1,
            old(self).known_ready(*old(queue)) == 0 && old(queue)@.items.len() > 0 ==>
                final(self).known_ready(*final(queue)) == old(queue)@.items.len() - 1,
            final(self).inv(*final(queue)),
            final(self).known_ready(*final(queue)) == (if old(queue)@.items.len() == 0 {
                0
            } else {
                acquired(old(self).known_ready(*old(queue)), old(queue)@.items.len(), 1) - 1
            }),
            producers_kept(*old(queue), *final(queue)),
            consumer_took(
                (*old(queue), *old(self)),
                Step::Pop,
                (*final(queue), *final(self)),
            ),
    {
        let (tail, readable) = self.acquire_readable(queue, 1);
        if readable == 0 {
            proof {
                assert(queue@.discard(0) =~= queue@);
                lemma_consumer_took((*old(queue), *old(self)), Step::Pop, (*queue, *self));
            }
            return Err(TryPopError::Empty);
        }
        let next: usize = queue.skip(tail, 1).0;
        // Read the value from the tail slot
        let value: T = queue.buffer.take_slot(tail).unwrap();
        // Move the tail one slot forward
        queue.tail = next;
        proof {
            Shared::lemma_tail_moved(*old(queue), *queue, 1);
            lemma_consumer_took((*old(queue), *old(self)), Step::Pop, (*queue, *self));
        }
        Ok(value)
    }

    /// Obtains two contiguous slices for reading raw elements.
    ///
    /// The two (possibly empty) slices represent all occupied slots that are immediately
    /// available for reading. The first slice has to be read before starting to read from the
    /// second slice. If the first slice is empty then the queue is empty, as far as the consumer
    /// has looked.
    ///
    /// The parameter `min_count` is a hint for the desired number of occupied slots. It affects
    /// if coordination with the producer is required. For `min_count = 0` only the occupied slots
    /// currently known to the consumer are returned, not taking into account any slots that have
    /// been written by the producer meanwhile.
    pub fn readable_slices_raw<'a>(
        &mut self,
        queue: &'a Shared<T>,
        min_count: usize,
    ) -> (slices: (&'a [Option<T>], &'a [Option<T>]))
        requires
            old(self).inv(*queue),
        ensures
            ({
                let found = acquired(
                    old(self).known_ready(*queue),
                    queue@.items.len(),
                    min_count as nat,
                );
                let (first, second) = slices;
                &&& first@ + second@ == slots_of(queue@.items.take(found as int))
                &&& first@.len() == queue@.before_end(queue@.tail, found)
                &&& first@.len() == 0 ==> second@.len() == 0
                &&& final(self).inv(*queue)
                &&& final(self).known_ready(*queue) == found
            }),
            ({
                let known = old(self).known_ready(*queue);
                let (first, second) = slices;
                let shown = first@.len() + second@.len();
                &&& known >= min_count ==> shown == known
                &&& known < min_count ==> shown == queue@.items.len()
                &&& final(self).known_ready(*queue) == shown
                &&& forall|i: int|
                    0 <= i < first@.len() ==> #[trigger] first@[i] == Some(queue@.items[i])
                &&& forall|i: int|
                    0 <= i < second@.len() ==> #[trigger] second@[i] == Some(
                        queue@.items[first@.len() + i],
                    )
                &&& queue@.tail + first@.len() <= queue@.size()
                &&& second@.len() > 0 ==> queue@.tail + first@.len() == queue@.size()
            }),
    {
        let (tail, readable) = self.acquire_readable(queue, min_count);
        let (_, (n1, n2)) = queue.skip(tail, readable);
        let (first, second) = queue.buffer.slices(tail, n1, n2);
        proof {
            let items = queue@.items.take(readable as int);
            assert forall|i: int| 0 <= i < readable implies (first@ + second@)[i] == slots_of(
                items,
            )[i] by {
                let pos = wrap(tail + i, queue.size() as int);
                assert(queue.buffer.slot(pos) is Some);
            }
            let shown = first@ + second@;
            assert(shown =~= slots_of(items));
            assert forall|i: int| 0 <= i < first@.len() implies #[trigger] first@[i] == Some(
                queue@.items[i],
            ) by {
                assert(shown[i] == first@[i]);
            }
            assert forall|i: int| 0 <= i < second@.len() implies #[trigger] second@[i] == Some(
                queue@.items[first@.len() + i],
            ) by {
                assert(shown[first@.len() + i] == second@[i]);
            }
        }
        (first, second)
    }

    /// Advances the read position.
    ///
    /// Skips the given number of readable slots without dropping the contained values.
    pub fn skip_readable(&mut self, queue: &mut Shared<T>, read_count: usize)
        requires
            old(self).inv(*old(queue)),
            read_count <= old(self).known_ready(*old(queue)),
        ensures
            final(queue)@ == old(queue)@.discard(read_count as nat),
            final(queue)@.items == old(queue)@.items.skip(read_count as int),
            final(queue)@.free() == old(queue)@.free() + read_count,
            final(queue)@.memory == old(queue)@.memory,
            final(queue).dropped() == old(queue).dropped(),
            final(queue).left_behind() == old(queue).left_behind(),
            final(queue).forgotten() == old(queue).forgotten() + old(queue)@.items.take(
                read_count as int,
            ),
            final(self).inv(*final(queue)),
            final(self).known_ready(*final(queue)) == old(self).known_ready(*old(queue))
                - read_count,
            producers_kept(*old(queue), *final(queue)),
            consumer_took(
                (*old(queue), *old(self)),
                Step::Discard(read_count as nat),
                (*final(queue), *final(self)),
            ),
    {
        let tail: usize = queue.skip(queue.tail, read_count).0;
        let mut pos: usize = queue.tail;
        let mut i: usize = 0;
        while i < read_count
            invariant
                i <= read_count < old(queue).size(),
                read_count <= old(queue)@.items.len(),
                queue.dropped() == old(queue).dropped(),
                queue.left_behind() == old(queue).left_behind(),
                queue.forgotten() == old(queue).forgotten() + old(queue)@.items.take(i as int),
                old(queue).wf(),
                queue.buffer.same_shape(old(queue).buffer),
                queue.head == old(queue).head,
                queue.tail == old(queue).tail,
                queue.free_buffer == old(queue).free_buffer,
                pos == wrap(old(queue).tail + i, old(queue).size() as int),
                forall|p: int|
                    0 <= p < old(queue).size() ==> #[trigger] queue.buffer.slot(p) == {
                        if distance(old(queue).tail as int, p, old(queue).size() as int) < i {
                            None
                        } else {
                            old(queue).buffer.slot(p)
                        }
                    },
            decreases read_count - i,
        {
            let slot: Option<T> = queue.buffer.take_slot(pos);
            proof {
                let items = old(queue)@.items;
                assert(slot == Some(items[i as int]));
                assert(items.take(i as int) + held(slot) =~= items.take(i + 1));
                assert(old(queue).forgotten() + items.take(i as int) + held(slot)
                    =~= old(queue).forgotten() + (items.take(i as int) + held(slot)));
            }
            queue.ledger.forget_held(slot);
            pos = if pos + 1 == queue.buffer.size {
                0
            } else {
                pos + 1
            };
            i += 1;
        }
        queue.tail = tail;
        proof {
            Shared::lemma_tail_moved(*old(queue), *queue, read_count as nat);
            lemma_consumer_took(
                (*old(queue), *old(self)),
                Step::Discard(read_count as nat),
                (*queue, *self),
            );
        }
    }
}

/// Copies the values in the first `count` slots of `src` into `dst`, the first of them to
/// `dst[to]`.
fn read_slots<T: Copy>(src: &[Option<T>], dst: &mut [T], to: usize, count: usize)
    requires
        count <= src@.len(),
        to + count <= old(dst).len(),
        forall|i: int| 0 <= i < count ==> #[trigger] src@[i] is Some,
    ensures
        final(dst)@.len() == old(dst)@.len(),
        forall|i: int|
            0 <= i < old(dst)@.len() ==> #[trigger] final(dst)@[i] == (if to <= i < to + count {
                src@[i - to]->0
            } else {
                old(dst)@[i]
            }),
{
    let mut i: usize = 0;
    while i < count
        invariant
            i <= count <= src@.len(),
            to + count <= dst.len(),
            dst@.len() == old(dst)@.len(),
            forall|j: int| 0 <= j < count ==> #[trigger] src@[j] is Some,
            forall|j: int|
                0 <= j < old(dst)@.len() ==> #[trigger] dst@[j] == (if to <= j < to + i {
                    src@[j - to]->0
                } else {
                    old(dst)@[j]
                }),
        decreases count - i,
    {
        let value: T = src[i].unwrap();
        dst[to + i] = value;
        i += 1;
    }
}

impl<T: Copy> Consumer<T> {
    /// Obtains two contiguous slices for reading.
    ///
    /// See also: [`readable_slices_raw`](#method.readable_slices_raw)
    pub fn readable_slices<'a>(
        &mut self,
        queue: &'a Shared<T>,
        min_count: usize,
    ) -> (slices: (&'a [Option<T>], &'a [Option<T>]))
        requires
            old(self).inv(*queue),
        ensures
            ({
                let found = acquired(
                    old(self).known_ready(*queue),
                    queue@.items.len(),
                    min_count as nat,
                );
                let (first, second) = slices;
                &&& first@ + second@ == slots_of(queue@.items.take(found as int))
                &&& first@.len() == queue@.before_end(queue@.tail, found)
                &&& first@.len() == 0 ==> second@.len() == 0
                &&& final(self).inv(*queue)
                &&& final(self).known_ready(*queue) == found
            }),
            ({
                let known = old(self).known_ready(*queue);
                let (first, second) = slices;
                let shown = first@.len() + second@.len();
                &&& known >= min_count ==> shown == known
                &&& known < min_count ==> shown == queue@.items.len()
                &&& final(self).known_ready(*queue) == shown
                &&& forall|i: int|
                    0 <= i < first@.len() ==> #[trigger] first@[i] == Some(queue@.items[i])
                &&& forall|i: int|
                    0 <= i < second@.len() ==> #[trigger] second@[i] == Some(
                        queue@.items[first@.len() + i],
                    )
                &&& queue@.tail + first@.len() <= queue@.size()
                &&& second@.len() > 0 ==> queue@.tail + first@.len() == queue@.size()
            }),
    {
        self.readable_slices_raw(queue, min_count)
    }

    /// Copies from the queue into a slice.
    ///
    /// Copy available elements from the queue into the given slice.
    ///
    /// Returns how many elements have actually been copied, i.e. the slice may only be filled
    /// partially.
    pub fn copy_into_slice(&mut self, queue: &mut Shared<T>, dst: &mut [T]) -> (count: usize)
        requires
            old(self).inv(*old(queue)),
        ensures
            count == least(old(dst)@.len(), old(queue)@.items.len()),
            count <= old(dst)@.len() && count <= old(queue)@.items.len(),
            count == old(dst)@.len() || count == old(queue)@.items.len(),
            final(dst)@ == old(queue)@.items.take(count as int) + old(dst)@.skip(count as int),
            final(queue)@ == old(queue)@.discard(count as nat),
            final(queue)@.items == old(queue)@.items.skip(count as int),
            final(queue)@.free() == old(queue)@.free() + count,
            final(queue)@.memory == old(queue)@.memory,
            final(queue).dropped() == old(queue).dropped(),
            final(queue).left_behind() == old(queue).left_behind(),
            final(queue).forgotten() == old(queue).forgotten() + old(queue)@.items.take(
                count as int,
            ),
            old(self).known_ready(*old(queue)) >= old(dst)@.len() ==> final(self).known_ready(
                *final(queue),
            ) == old(self).known_ready(*old(queue)) - count,
            old(self).known_ready(*old(queue)) < old(dst)@.len() ==> final(self).known_ready(
                *final(queue),
            ) == final(queue)@.items.len(),
            final(self).inv(*final(queue)),
            final(self).known_ready(*final(queue)) == acquired(
                old(self).known_ready(*old(queue)),
                old(queue)@.items.len(),
                old(dst)@.len(),
            ) - count,
            producers_kept(*old(queue), *final(queue)),
            consumer_took(
                (*old(queue), *old(self)),
                Step::Take(old(dst)@.len()),
                (*final(queue), *final(self)),
            ),
    {
        let (src1, src2) = self.readable_slices(queue, dst.len());
        let ghost found = src1@ + src2@;
        assert(found.len() == src1@.len() + src2@.len());
        let len1: usize = if src1.len() < dst.len() {
            src1.len()
        } else {
            dst.len()
        };
        let len2: usize = if src2.len() < dst.len() - len1 {
            src2.len()
        } else {
            dst.len() - len1
        };
        let len: usize = len1 + len2;
        assert forall|i: int| 0 <= i < len1 implies #[trigger] src1@[i] is Some by {
            assert(found[i] is Some);
        }
        assert forall|i: int| 0 <= i < len2 implies #[trigger] src2@[i] is Some by {
            assert(found[src1@.len() + i] is Some);
        }
        read_slots(src1, dst, 0, len1);
        read_slots(src2, dst, len1, len2);
        proof {
            assert forall|i: int| 0 <= i < len implies dst@[i] == queue@.items[i] by {
                assert(found[i] == Some(queue@.items[i]));
            }
            assert(dst@ =~= queue@.items.take(len as int) + old(dst)@.skip(len as int));
        }
        self.skip_readable(queue, len);
        proof {
            lemma_consumer_took(
                (*old(queue), *old(self)),
                Step::Take(old(dst)@.len()),
                (*queue, *self),
            );
        }
        len
    }

    /// Copies from the queue into a slice (blocking): one round.
    ///
    /// To fill the whole slice with elements from the queue, start with `read == 0`, and call
    /// this function with what it returned until it returns the length of the slice. Give up the
    /// queue between two rounds, so that the producer can add elements.
    ///
    /// `read` elements have been copied already. Returns how many have been copied with this
    /// round, which is all of them unless the queue is empty.
    pub fn copy_into_slice_blocking(
        &mut self,
        queue: &mut Shared<T>,
        dst: &mut [T],
        read: usize,
    ) -> (done: usize)
        requires
            old(self).inv(*old(queue)),
            read <= old(dst).len(),
        ensures
            done == read + least((old(dst)@.len() - read) as nat, old(queue)@.items.len()),
            done == old(dst)@.len() || final(queue)@.items.len() == 0,
            read < old(dst)@.len() && old(queue)@.items.len() > 0 ==> read < done,
            final(dst)@ == old(dst)@.take(read as int) + old(queue)@.items.take(done - read)
                + old(dst)@.skip(done as int),
            read <= done <= old(dst)@.len(),
            final(queue)@ == old(queue)@.discard((done - read) as nat),
            final(queue)@.items == old(queue)@.items.skip(done - read),
            final(queue)@.free() == old(queue)@.free() + (done - read),
            final(queue)@.memory == old(queue)@.memory,
            final(queue).dropped() == old(queue).dropped(),
            final(queue).left_behind() == old(queue).left_behind(),
            final(queue).forgotten() == old(queue).forgotten() + old(queue)@.items.take(
                done - read,
            ),
            old(self).known_ready(*old(queue)) >= old(dst)@.len() - read ==>
                final(self).known_ready(*final(queue)) == old(self).known_ready(*old(queue)) - (done
                - read),
            old(self).known_ready(*old(queue)) < old(dst)@.len() - read ==>
                final(self).known_ready(*final(queue)) == final(queue)@.items.len(),
            read == old(dst)@.len() ==> final(queue)@ == old(queue)@,
            final(self).inv(*final(queue)),
            final(self).known_ready(*final(queue)) == acquired(
                old(self).known_ready(*old(queue)),
                old(queue)@.items.len(),
                (old(dst)@.len() - read) as nat,
            ) - (done - read),
            producers_kept(*old(queue), *final(queue)),
            consumer_took(
                (*old(queue), *old(self)),
                Step::Take((old(dst)@.len() - read) as nat),
                (*final(queue), *final(self)),
            ),
    {
        let (_, rest) = dst.split_at_mut(read);
        let count: usize = self.copy_into_slice(queue, rest);
        let done: usize = read + count;
        proof {
            assert(dst@ =~= old(dst)@.take(read as int) + old(queue)@.items.take(done - read)
                + old(dst)@.skip(done as int));
            assert(old(queue)@.discard(0) =~= old(queue)@);
        }
        done
    }

    /// Clears the queue.
    ///
    /// Discard all buffered elements.
    ///
    /// Returns the number of dropped elements.
    pub fn clear(&mut self, queue: &mut Shared<T>) -> (drop_count: usize)
        requires
            old(self).inv(*old(queue)),
        ensures
            drop_count == old(queue)@.items.len(),
            final(queue)@ == old(queue)@.discard(drop_count as nat),
            final(queue)@.items.len() == 0,
            final(queue)@.free() == old(queue)@.free() + drop_count,
            final(queue)@.memory == old(queue)@.memory,
            final(queue).dropped() == old(queue).dropped(),
            final(queue).left_behind() == old(queue).left_behind(),
            final(queue).forgotten() == old(queue).forgotten() + old(queue)@.items,
            final(self).inv(*final(queue)),
            final(self).known_ready(*final(queue)) == 0,
            producers_kept(*old(queue), *final(queue)),
            consumer_took(
                (*old(queue), *old(self)),
                Step::Clear,
                (*final(queue), *final(self)),
            ),
    {
        let drop_count: usize = self.peek_max(queue);
        self.skip_readable(queue, drop_count);
        proof {
            assert(old(queue)@.items.take(drop_count as int) =~= old(queue)@.items);
            lemma_consumer_took((*old(queue), *old(self)), Step::Clear, (*queue, *self));
        }
        drop_count
    }
}

} // verus!
