//! What holds of the calls of a queue, one by one and one after the other.
//!
//! Each law speaks of whatever a call returned and of whatever it left behind.

use super::buffer::Buffer;
use super::consumer::Consumer;
use super::error::{TryPopError, TryPushError};
use super::ledger::{held, held_in, Ledger};
use super::producer::Producer;
use super::shared::{lemma_wrap_is_remainder, Shared};
use vstd::prelude::*;

verus! {

/// A producer that asks for no more slots than it knows of finds those, and knows no more than
/// before. One that asks for more finds all the slots that can be written, and knows of them all.
pub proof fn law_producer_looks_only_if_it_must<T>(
    producer: &mut Producer<T>,
    queue: &Shared<T>,
    min_count: usize,
    count: usize,
)
    requires
        old(producer).inv(*queue),
        call_ensures(Producer::<T>::peek_min, (producer, queue, min_count), count),
    ensures
        min_count <= old(producer).known_free(*queue) ==> count == old(producer).known_free(*queue),
        min_count > old(producer).known_free(*queue) ==> count == queue@.vacant.len() - 1,
        final(producer).known_free(*queue) == count,
{
}

/// A consumer that asks for no more values than it knows of finds those, and knows no more than
/// before. One that asks for more finds all the values in the queue, and knows of them all.
pub proof fn law_consumer_looks_only_if_it_must<T>(
    consumer: &mut Consumer<T>,
    queue: &Shared<T>,
    min_count: usize,
    count: usize,
)
    requires
        old(consumer).inv(*queue),
        call_ensures(Consumer::<T>::peek_min, (consumer, queue, min_count), count),
    ensures
        min_count <= old(consumer).known_ready(*queue) ==> count == old(consumer).known_ready(
            *queue,
        ),
        min_count > old(consumer).known_ready(*queue) ==> count == queue@.items.len(),
        final(consumer).known_ready(*queue) == count,
{
}

/// What a side is given to write or to read with starts where the queue says, and is as much as
/// a look for the same amount finds.
pub proof fn law_acquired_is_what_a_look_finds<T>(
    producer: &mut Producer<T>,
    consumer: &mut Consumer<T>,
    queue: &Shared<T>,
    min_count: usize,
    writable: (usize, usize),
    readable: (usize, usize),
)
    requires
        old(producer).inv(*queue),
        old(consumer).inv(*queue),
        call_ensures(Producer::<T>::acquire_writable, (producer, queue, min_count), writable),
        call_ensures(Consumer::<T>::acquire_readable, (consumer, queue, min_count), readable),
    ensures
        writable.0 == (queue@.tail + queue@.items.len()) % (queue@.items.len()
            + queue@.vacant.len()) as int,
        readable.0 == queue@.tail,
        ({
            let (known, found) = (old(producer).known_free(*queue), writable.1);
            &&& min_count <= known ==> found == known
            &&& min_count > known ==> found == queue@.vacant.len() - 1
            &&& final(producer).known_free(*queue) == found
        }),
        ({
            let (known, found) = (old(consumer).known_ready(*queue), readable.1);
            &&& min_count <= known ==> found == known
            &&& min_count > known ==> found == queue@.items.len()
            &&& final(consumer).known_ready(*queue) == found
        }),
{
}

/// To look again finds no less. It finds the same if the first look already found what is asked
/// for, or fell short of what it asked for, and all there is otherwise.
pub proof fn law_producer_looks_again<T>(
    first: &mut Producer<T>,
    again: &mut Producer<T>,
    queue: &Shared<T>,
    min_counts: (usize, usize),
    counts: (usize, usize),
)
    requires
        old(first).inv(*queue),
        call_ensures(Producer::<T>::peek_min, (first, queue, min_counts.0), counts.0),
        *old(again) == *final(first),
        call_ensures(Producer::<T>::peek_min, (again, queue, min_counts.1), counts.1),
    ensures
        counts.0 <= counts.1,
        min_counts.1 <= counts.0 || counts.0 < min_counts.0 ==> counts.1 == counts.0,
        min_counts.1 > counts.0 ==> counts.1 == queue@.vacant.len() - 1,
{
}

/// To look again finds no less. It finds the same if the first look already found what is asked
/// for, or fell short of what it asked for, and all there is otherwise.
pub proof fn law_consumer_looks_again<T>(
    first: &mut Consumer<T>,
    again: &mut Consumer<T>,
    queue: &Shared<T>,
    min_counts: (usize, usize),
    counts: (usize, usize),
)
    requires
        old(first).inv(*queue),
        call_ensures(Consumer::<T>::peek_min, (first, queue, min_counts.0), counts.0),
        *old(again) == *final(first),
        call_ensures(Consumer::<T>::peek_min, (again, queue, min_counts.1), counts.1),
    ensures
        counts.0 <= counts.1,
        min_counts.1 <= counts.0 || counts.0 < min_counts.0 ==> counts.1 == counts.0,
        min_counts.1 > counts.0 ==> counts.1 == queue@.items.len(),
{
}

/// The three ways to look agree: one that must be enough for any amount finds all there is, one
/// that asks for nothing finds what is known, and what both sides find at most adds up to the
/// capacity.
pub proof fn law_looks_agree<T>(
    producer: &mut Producer<T>,
    consumer: &mut Consumer<T>,
    queue: &Shared<T>,
    known: (usize, usize),
    found: (usize, usize),
    capacity: usize,
)
    requires
        old(producer).inv(*queue),
        old(consumer).inv(*queue),
        call_ensures(Producer::<T>::peek, (&*old(producer), queue), known.0),
        call_ensures(Consumer::<T>::peek, (&*old(consumer), queue), known.1),
        call_ensures(Producer::<T>::peek_max, (producer, queue), found.0),
        call_ensures(Consumer::<T>::peek_max, (consumer, queue), found.1),
        call_ensures(Shared::<T>::capacity, (queue,), capacity),
    ensures
        known.0 == old(producer).known_free(*queue),
        known.1 == old(consumer).known_ready(*queue),
        known.0 <= found.0,
        known.1 <= found.1,
        found.0 + found.1 == capacity,
        found.0 == queue@.vacant.len() - 1,
        found.1 == queue@.items.len(),
        final(producer).known_free(*queue) == found.0,
        final(consumer).known_ready(*queue) == found.1,
{
}

/// The slices that are read show the values that are read next, in order, and all that a look for
/// the same amount finds. They part only at the end of the ring.
pub proof fn law_slices_show_what_a_look_finds<T>(
    consumer: &mut Consumer<T>,
    queue: &Shared<T>,
    min_count: usize,
    slices: (&[Option<T>], &[Option<T>]),
)
    requires
        old(consumer).inv(*queue),
        call_ensures(Consumer::<T>::readable_slices_raw, (consumer, queue, min_count), slices),
    ensures
        ({
            let known = old(consumer).known_ready(*queue);
            let (first, second) = (slices.0@, slices.1@);
            let shown = first.len() + second.len();
            &&& min_count <= known ==> shown == known
            &&& min_count > known ==> shown == queue@.items.len()
            &&& final(consumer).known_ready(*queue) == shown
            &&& forall|i: int| 0 <= i < first.len() ==> #[trigger] first[i] == Some(queue@.items[i])
            &&& forall|i: int|
                0 <= i < second.len() ==> #[trigger] second[i] == Some(
                    queue@.items[first.len() + i],
                )
            &&& queue@.tail + first.len() <= queue@.items.len() + queue@.vacant.len()
            &&& second.len() > 0 ==> queue@.tail + first.len() == queue@.items.len()
                + queue@.vacant.len()
        }),
{
}

/// The slices that are written offer the slots that are written next, in order, and all that a
/// look for the same amount finds. They part only at the end of the ring. What is written into
/// them is what these slots then hold, and nothing else changes.
pub proof fn law_slices_offer_what_a_look_finds<T>(
    producer: &mut Producer<T>,
    queue: &mut Shared<T>,
    min_count: usize,
    slices: (&mut [Option<T>], &mut [Option<T>]),
)
    requires
        old(producer).inv(*old(queue)),
        call_ensures(Producer::<T>::writable_slices_raw, (producer, queue, min_count), slices),
    ensures
        ({
            let known = old(producer).known_free(*old(queue));
            let (items, vacant) = (old(queue)@.items, old(queue)@.vacant);
            let (first, second) = slices;
            let shown = first@.len() + second@.len();
            let size = items.len() + vacant.len();
            let head = (old(queue)@.tail + items.len()) % size as int;
            &&& min_count <= known ==> shown == known
            &&& min_count > known ==> shown == vacant.len() - 1
            &&& first@ + second@ == vacant.take(shown as int)
            &&& head + first@.len() <= size
            &&& second@.len() > 0 ==> head + first@.len() == size
            &&& final(queue).dropped() == old(queue).dropped()
            &&& final(queue).forgotten() == old(queue).forgotten()
            &&& final(first)@.len() == first@.len() && final(second)@.len() == second@.len() ==> {
                &&& final(queue)@.items == items
                &&& final(queue)@.vacant == final(first)@ + final(second)@ + vacant.skip(
                    shown as int,
                )
                &&& final(producer).known_free(*final(queue)) == shown
            }
        }),
{
    lemma_wrap_is_remainder(old(queue)@.tail + old(queue)@.items.len(), old(queue)@.size() as int);
}

/// To move the write position makes the values in the slots that it passes the last that are read,
/// in the order of the slots, and runs no destructor.
pub proof fn law_moving_the_head_adds_what_was_written<T>(
    producer: &mut Producer<T>,
    queue: &mut Shared<T>,
    count_write: usize,
)
    requires
        old(producer).inv(*old(queue)),
        count_write <= old(producer).known_free(*old(queue)),
        forall|i: int| 0 <= i < count_write ==> #[trigger] old(queue)@.vacant[i] is Some,
        call_ensures(Producer::<T>::skip_writable, (producer, queue, count_write), ()),
    ensures
        final(queue)@.items.len() == old(queue)@.items.len() + count_write,
        forall|i: int|
            0 <= i < old(queue)@.items.len() ==> #[trigger] final(queue)@.items[i]
                == old(queue)@.items[i],
        forall|i: int|
            0 <= i < count_write ==> #[trigger] old(queue)@.vacant[i] == Some(
                final(queue)@.items[old(queue)@.items.len() + i],
            ),
        final(queue)@.vacant == old(queue)@.vacant.skip(count_write as int),
        final(producer).known_free(*final(queue)) == old(producer).known_free(*old(queue))
            - count_write,
        final(queue).dropped() == old(queue).dropped(),
        final(queue).forgotten() == old(queue).forgotten(),
{
    assert forall|i: int| 0 <= i < old(queue)@.items.len() implies
        #[trigger] final(queue)@.items[i] == old(queue)@.items[i] by {
        assert(final(queue)@.items.take(old(queue)@.items.len() as int)[i] == old(queue)@.items[i]);
    }
}

/// A push is refused if and only if the queue is full, and then gives the value back and changes
/// nothing. Otherwise the value becomes the last that is read.
pub proof fn law_push_adds_or_gives_back<T>(
    producer: &mut Producer<T>,
    queue: &mut Shared<T>,
    value: T,
    result: Result<(), TryPushError<T>>,
)
    requires
        old(producer).inv(*old(queue)),
        call_ensures(Producer::<T>::try_push, (producer, queue, value), result),
    ensures
        result is Err <==> old(queue)@.vacant.len() == 1,
        result is Err ==> result == Err::<(), TryPushError<T>>(TryPushError::Full(value)),
        result is Err ==> final(queue)@ == old(queue)@,
        result is Ok ==> final(queue)@.items == old(queue)@.items.push(value),
        result is Ok ==> final(queue)@.vacant.len() == old(queue)@.vacant.len() - 1,
{
}

/// A pop finds nothing if and only if the queue is empty, and then changes nothing. Otherwise it
/// gives out the value that has been in the queue for longest, and leaves the others in their
/// order.
pub proof fn law_pop_gives_out_the_oldest<T>(
    consumer: &mut Consumer<T>,
    queue: &mut Shared<T>,
    result: Result<T, TryPopError>,
)
    requires
        old(consumer).inv(*old(queue)),
        call_ensures(Consumer::<T>::try_pop, (consumer, queue), result),
    ensures
        result is Err <==> old(queue)@.items.len() == 0,
        result is Err ==> final(queue)@ == old(queue)@,
        result matches Ok(value) ==> old(queue)@.items == seq![value] + final(queue)@.items,
        result is Ok ==> final(queue)@.vacant.len() == old(queue)@.vacant.len() + 1,
{
}

/// What is pushed into an empty queue is what is popped next, and the queue is then empty again.
pub proof fn law_pop_gives_back_push<T>(
    producer: &mut Producer<T>,
    consumer: &mut Consumer<T>,
    pushed: &mut Shared<T>,
    popped: &mut Shared<T>,
    value: T,
    results: (Result<(), TryPushError<T>>, Result<T, TryPopError>),
)
    requires
        old(producer).inv(*old(pushed)),
        old(consumer).inv(*old(pushed)),
        old(pushed)@.items.len() == 0,
        old(pushed)@.vacant.len() > 1,
        call_ensures(Producer::<T>::try_push, (producer, pushed, value), results.0),
        *old(popped) == *final(pushed),
        call_ensures(Consumer::<T>::try_pop, (consumer, popped), results.1),
    ensures
        results.0 is Ok,
        results.1 == Ok::<T, TryPopError>(value),
        final(popped)@.items.len() == 0,
        final(popped)@.vacant.len() == old(pushed)@.vacant.len(),
        final(popped).dropped() == old(pushed).dropped(),
{
}

/// What is copied into an empty queue is what is copied out next, as far as both slices go.
pub proof fn law_copy_out_gives_back_copy_in<T: Copy + Default>(
    producer: &mut Producer<T>,
    consumer: &mut Consumer<T>,
    written: &mut Shared<T>,
    read: &mut Shared<T>,
    src: &[T],
    dst: &mut [T],
    counts: (usize, usize),
)
    requires
        old(producer).inv(*old(written)),
        old(consumer).inv(*old(written)),
        old(written)@.items.len() == 0,
        call_ensures(Producer::<T>::copy_from_slice, (producer, written, src), counts.0),
        *old(read) == *final(written),
        call_ensures(Consumer::<T>::copy_into_slice, (consumer, read, dst), counts.1),
    ensures
        counts.0 == src@.len() || counts.0 == old(written)@.vacant.len() - 1,
        counts.0 <= src@.len() && counts.0 < old(written)@.vacant.len(),
        counts.1 == old(dst)@.len() || counts.1 == counts.0,
        counts.1 <= old(dst)@.len() && counts.1 <= counts.0,
        final(dst)@.len() == old(dst)@.len(),
        forall|i: int| 0 <= i < counts.1 ==> #[trigger] final(dst)@[i] == src@[i],
        forall|i: int|
            counts.1 <= i < old(dst)@.len() ==> #[trigger] final(dst)@[i] == old(dst)@[i],
        final(read)@.items == src@.subrange(counts.1 as int, counts.0 as int),
{
    assert(old(written)@.items + src@.take(counts.0 as int) =~= src@.take(counts.0 as int));
}

/// To skip values runs no destructor: the values are forgotten, in order, and the ones behind them
/// stay.
pub proof fn law_skip_runs_no_destructor<T>(
    consumer: &mut Consumer<T>,
    queue: &mut Shared<T>,
    read_count: usize,
)
    requires
        old(consumer).inv(*old(queue)),
        read_count <= old(consumer).known_ready(*old(queue)),
        call_ensures(Consumer::<T>::skip_readable, (consumer, queue, read_count), ()),
    ensures
        final(queue).dropped() == old(queue).dropped(),
        final(queue).forgotten().len() == old(queue).forgotten().len() + read_count,
        final(queue).forgotten() + final(queue)@.items == old(queue).forgotten()
            + old(queue)@.items,
{
    let items = old(queue)@.items;
    let count = read_count as int;
    assert(old(queue).forgotten() + items.take(count) + items.skip(count)
        =~= old(queue).forgotten() + items);
}

/// Neither a push nor a pop runs a destructor. A push forgets what its slot held before, and a pop
/// forgets nothing.
pub proof fn law_push_and_pop_run_no_destructor<T>(
    producer: &mut Producer<T>,
    consumer: &mut Consumer<T>,
    pushed: &mut Shared<T>,
    popped: &mut Shared<T>,
    value: T,
    results: (Result<(), TryPushError<T>>, Result<T, TryPopError>),
)
    requires
        old(producer).inv(*old(pushed)),
        old(consumer).inv(*old(popped)),
        call_ensures(Producer::<T>::try_push, (producer, pushed, value), results.0),
        call_ensures(Consumer::<T>::try_pop, (consumer, popped), results.1),
    ensures
        final(pushed).dropped() == old(pushed).dropped(),
        final(popped).dropped() == old(popped).dropped(),
        results.0 is Ok ==> final(pushed).forgotten() == old(pushed).forgotten() + held(
            old(pushed)@.vacant[0],
        ),
        results.0 is Err ==> final(pushed).forgotten() == old(pushed).forgotten(),
        final(popped).forgotten() == old(popped).forgotten(),
{
}

/// One round of a copy in goes on where the last one stopped. It stops at the end of the slice or
/// when the queue is full, and adds what it passed over.
pub proof fn law_copy_in_goes_on<T: Copy + Default>(
    producer: &mut Producer<T>,
    queue: &mut Shared<T>,
    src: &[T],
    written: usize,
    done: usize,
)
    requires
        old(producer).inv(*old(queue)),
        written <= src@.len(),
        call_ensures(
            Producer::<T>::copy_from_slice_blocking,
            (producer, queue, src, written),
            done,
        ),
    ensures
        written <= done <= src@.len(),
        done == src@.len() || final(queue)@.vacant.len() == 1,
        final(queue)@.items == old(queue)@.items + src@.subrange(written as int, done as int),
        final(queue)@.vacant.len() + (done - written) == old(queue)@.vacant.len(),
        final(queue).dropped() == old(queue).dropped(),
{
}

/// One round of a copy out goes on where the last one stopped. It stops at the end of the slice or
/// when the queue is empty, and takes out what it passed over.
pub proof fn law_copy_out_goes_on<T: Copy>(
    consumer: &mut Consumer<T>,
    queue: &mut Shared<T>,
    dst: &mut [T],
    read: usize,
    done: usize,
)
    requires
        old(consumer).inv(*old(queue)),
        read <= old(dst)@.len(),
        call_ensures(
            Consumer::<T>::copy_into_slice_blocking,
            (consumer, queue, dst, read),
            done,
        ),
    ensures
        read <= done <= old(dst)@.len(),
        done == old(dst)@.len() || final(queue)@.items.len() == 0,
        final(dst)@.subrange(read as int, done as int) + final(queue)@.items == old(queue)@.items,
        final(dst)@.take(read as int) == old(dst)@.take(read as int),
        final(dst)@.skip(done as int) == old(dst)@.skip(done as int),
        final(queue).dropped() == old(queue).dropped(),
{
    let items = old(queue)@.items;
    assert(final(dst)@.subrange(read as int, done as int) =~= items.take(done - read));
    assert(items.take(done - read) + items.skip(done - read) =~= items);
}

/// To clear a queue leaves it empty, counts what it held, and runs no destructor.
pub proof fn law_clear_leaves_nothing<T: Copy>(
    consumer: &mut Consumer<T>,
    queue: &mut Shared<T>,
    drop_count: usize,
)
    requires
        old(consumer).inv(*old(queue)),
        call_ensures(Consumer::<T>::clear, (consumer, queue), drop_count),
    ensures
        drop_count == old(queue)@.items.len(),
        final(queue)@.items.len() == 0,
        final(queue)@.vacant.len() == old(queue)@.vacant.len() + drop_count,
        final(queue).dropped() == old(queue).dropped(),
{
}

/// To free a buffer runs no destructor: all that its memory holds is forgotten. The memory itself
/// is not left behind.
pub proof fn law_free_runs_no_destructor<T>(buffer: &mut Buffer<T>, ledger: Ledger<T>)
    requires
        old(buffer).size > 0,
        call_ensures(Buffer::<T>::free, (buffer,), ledger),
    ensures
        ledger.dropped() == Seq::<T>::empty(),
        ledger.forgotten() == held_in(old(buffer).data@),
        ledger.left_behind() == 0,
        final(buffer).data@.len() == 0,
{
}

/// A queue that is ended by name hands out the values that pops would have, in the same order.
pub proof fn law_close_hands_out_the_rest<T>(
    consumer: &mut Consumer<T>,
    popped: &mut Shared<T>,
    value: T,
    whole: (Vec<T>, Option<Buffer<T>>),
    rest: (Vec<T>, Option<Buffer<T>>),
)
    requires
        old(consumer).inv(*old(popped)),
        call_ensures(Shared::<T>::close, (*old(popped),), whole),
        call_ensures(Consumer::<T>::try_pop, (consumer, popped), Ok(value)),
        call_ensures(Shared::<T>::close, (*final(popped),), rest),
    ensures
        whole.0@ == old(popped)@.items,
        whole.0@ == seq![value] + rest.0@,
        whole.1 is Some <==> rest.1 is Some,
{
}

} // verus!
