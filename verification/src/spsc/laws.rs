//! What holds of a queue over many operations of its two sides.
//!
//! The laws speak of every order in which the steps of the two sides can come.

use super::consumer::Consumer;
use super::model::{
    distance, least, readable, slots_of, values_of, wrap, writable, QueueModel,
};
use super::producer::Producer;
use super::shared::{lemma_wrap_is_remainder, Shared};
use super::system::{system_of, Step, SystemModel};
use vstd::prelude::*;

verus! {

/// No step makes a side believe in slots that there are not, or changes the capacity.
proof fn lemma_step_keeps<T>(system: SystemModel<T>, step: Step<T>)
    requires
        system.wf(),
        system.allows(step),
    ensures
        system.after(step).wf(),
        system.after(step).queue.capacity() == system.queue.capacity(),
        system.queue.items + system.entering(step) == system.queue.items.take(
            system.leaving(step) as int,
        ) + system.after(step).queue.items,
{
    let items = system.queue.items;
    let leaving = system.leaving(step) as int;
    assert(items.take(leaving) + items.skip(leaving) =~= items);
    assert(items + system.entering(step) =~= items.take(leaving) + system.after(step).queue.items);
}

/// A queue never holds more values than its capacity, its capacity never changes, and neither
/// side ever knows of more slots than there are, in whatever order the two sides take their
/// steps.
pub proof fn law_bounded<T>(system: SystemModel<T>, steps: Seq<Step<T>>)
    requires
        system.wf(),
        system.allows_all(steps),
    ensures
        system.run(steps).wf(),
        system.run(steps).queue.capacity() == system.queue.capacity(),
        system.run(steps).queue.items.len() <= system.queue.capacity(),
    decreases steps.len(),
{
    if steps.len() > 0 {
        law_bounded(system, steps.drop_last());
        lemma_step_keeps(system.run(steps.drop_last()), steps.last());
    }
}

/// Values leave a queue in the order in which they entered it, none is lost and none leaves
/// twice, in whatever order the two sides take their steps.
pub proof fn law_first_in_first_out<T>(system: SystemModel<T>, steps: Seq<Step<T>>)
    requires
        system.wf(),
        system.allows_all(steps),
    ensures
        system.queue.items + system.entered(steps) == system.left(steps) + system.run(
            steps,
        ).queue.items,
    decreases steps.len(),
{
    if steps.len() == 0 {
        assert(system.queue.items + system.entered(steps) =~= system.left(steps) + system.run(
            steps,
        ).queue.items);
    } else {
        let before = system.run(steps.drop_last());
        let step = steps.last();
        law_bounded(system, steps.drop_last());
        law_first_in_first_out(system, steps.drop_last());
        lemma_step_keeps(before, step);
        let entered = system.entered(steps.drop_last());
        let left = system.left(steps.drop_last());
        let leaving = before.queue.items.take(before.leaving(step) as int);
        assert(system.queue.items + (entered + before.entering(step)) =~= (system.queue.items
            + entered) + before.entering(step));
        assert((left + before.queue.items) + before.entering(step) =~= left + (before.queue.items
            + before.entering(step)));
        assert(left + (leaving + before.after(step).queue.items) =~= (left + leaving)
            + before.after(step).queue.items);
    }
}

/// What has left a queue that started empty is the beginning of what has entered it, and what it
/// holds is the rest.
pub proof fn law_left_is_the_beginning<T>(system: SystemModel<T>, steps: Seq<Step<T>>)
    requires
        system.wf(),
        system.allows_all(steps),
        system.queue.items.len() == 0,
    ensures
        ({
            let (entered, left) = (system.entered(steps), system.left(steps));
            &&& left.len() <= entered.len()
            &&& left == entered.take(left.len() as int)
            &&& system.run(steps).queue.items == entered.skip(left.len() as int)
        }),
{
    law_first_in_first_out(system, steps);
    let (entered, left) = (system.entered(steps), system.left(steps));
    let items = system.run(steps).queue.items;
    assert(system.queue.items + entered =~= entered);
    assert(left =~= (left + items).take(left.len() as int));
    assert(items =~= (left + items).skip(left.len() as int));
}

/// What the consumer does leaves alone what the producer is writing: the free slots that the
/// producer knows of stay free and keep what is in them, and their number stays the same.
pub proof fn law_consumer_spares_producer<T>(system: SystemModel<T>, steps: Seq<Step<T>>)
    requires
        system.wf(),
        system.allows_all(steps),
        forall|i: int| 0 <= i < steps.len() ==> !(#[trigger] steps[i]).by_producer(),
    ensures
        system.run(steps).known_free == system.known_free,
        system.run(steps).queue.vacant.take(system.known_free as int) == system.queue.vacant.take(
            system.known_free as int,
        ),
        system.run(steps).queue.head() == system.queue.head(),
    decreases steps.len(),
{
    if steps.len() > 0 {
        let before = system.run(steps.drop_last());
        let step = steps.last();
        assert forall|i: int| 0 <= i < steps.drop_last().len() implies !(
        #[trigger] steps.drop_last()[i]).by_producer() by {
            assert(!steps[i].by_producer());
        }
        assert(!steps[steps.len() - 1].by_producer());
        law_bounded(system, steps.drop_last());
        law_consumer_spares_producer(system, steps.drop_last());
        assert(before.after(step).queue.vacant.take(system.known_free as int)
            =~= before.queue.vacant.take(system.known_free as int));
    }
}

/// What the producer does leaves alone what the consumer is reading: the values that the consumer
/// knows of stay the next ones to be read, and their number stays the same.
pub proof fn law_producer_spares_consumer<T>(system: SystemModel<T>, steps: Seq<Step<T>>)
    requires
        system.wf(),
        system.allows_all(steps),
        forall|i: int| 0 <= i < steps.len() ==> (#[trigger] steps[i]).by_producer(),
    ensures
        system.run(steps).known_ready == system.known_ready,
        system.run(steps).queue.items.take(system.known_ready as int) == system.queue.items.take(
            system.known_ready as int,
        ),
        system.run(steps).queue.tail == system.queue.tail,
    decreases steps.len(),
{
    if steps.len() > 0 {
        let before = system.run(steps.drop_last());
        let step = steps.last();
        assert forall|i: int| 0 <= i < steps.drop_last().len() implies (
        #[trigger] steps.drop_last()[i]).by_producer() by {
            assert(steps[i].by_producer());
        }
        assert(steps[steps.len() - 1].by_producer());
        law_bounded(system, steps.drop_last());
        law_producer_spares_consumer(system, steps.drop_last());
        assert(before.after(step).queue.items.take(system.known_ready as int)
            =~= before.queue.items.take(system.known_ready as int));
    }
}

/// A producer and a consumer that belong to a queue make up a system with it in which neither
/// knows of more slots than there are.
pub proof fn law_sides_know_no_more<T>(
    queue: Shared<T>,
    producer: Producer<T>,
    consumer: Consumer<T>,
)
    requires
        producer.inv(queue),
        consumer.inv(queue),
    ensures
        queue.wf(),
        system_of(queue, producer, consumer).wf(),
{
}

/// Every operation is made up of accesses that each may be taken by itself: to look for slots,
/// to write or read them, and to move a position. What one side does between two accesses of the
/// other is therefore a case of the laws above.
pub proof fn law_operations_are_accesses<T>(system: SystemModel<T>, value: T, src: Seq<T>, len: nat)
    requires
        system.wf(),
    ensures
        ({
            let push = if system.queue.free() == 0 {
                seq![Step::SeekFree(1)]
            } else {
                seq![Step::SeekFree(1), Step::Stage(seq![Some(value)]), Step::Commit(1)]
            };
            system.allows_all(push) && system.run(push) == system.after(Step::Push(value))
        }),
        ({
            let count = least(src.len(), system.queue.free());
            let append = seq![
                Step::SeekFree(src.len()),
                Step::Stage(slots_of(src.take(count as int))),
                Step::Commit(count),
            ];
            system.allows_all(append) && system.run(append) == system.after(Step::Append(src))
        }),
        ({
            let pop = seq![
                Step::SeekReady(1),
                Step::<T>::Discard(least(1, system.queue.items.len())),
            ];
            system.allows_all(pop) && system.run(pop) == system.after(Step::Pop)
        }),
        ({
            let take = seq![
                Step::SeekReady(len),
                Step::<T>::Discard(least(len, system.queue.items.len())),
            ];
            system.allows_all(take) && system.run(take) == system.after(Step::Take(len))
        }),
        ({
            let clear = seq![
                Step::SeekReady(system.queue.size()),
                Step::<T>::Discard(system.queue.items.len()),
            ];
            system.allows_all(clear) && system.run(clear) == system.after(Step::Clear)
        }),
{
    lemma_run_of_one(system, Step::SeekFree(1));
    if system.queue.free() == 0 {
        assert(system.queue.append(Seq::empty()) =~= system.queue);
    } else {
        lemma_stage_and_commit(system, 1, seq![value]);
        assert(slots_of(seq![value]) =~= seq![Some(value)]);
    }
    let count = least(src.len(), system.queue.free());
    lemma_stage_and_commit(system, src.len(), src.take(count as int));
    lemma_run_of_two(
        system,
        Step::SeekReady(1),
        Step::<T>::Discard(least(1, system.queue.items.len())),
    );
    lemma_run_of_two(
        system,
        Step::SeekReady(len),
        Step::<T>::Discard(least(len, system.queue.items.len())),
    );
    lemma_run_of_two(
        system,
        Step::SeekReady(system.queue.size()),
        Step::<T>::Discard(system.queue.items.len()),
    );
}

/// One step, run by itself.
proof fn lemma_run_of_one<T>(system: SystemModel<T>, step: Step<T>)
    ensures
        system.run(seq![step]) == system.after(step),
        system.allows_all(seq![step]) == system.allows(step),
{
    reveal_with_fuel(SystemModel::run, 2);
    reveal_with_fuel(SystemModel::allows_all, 2);
    assert(seq![step].drop_last() =~= Seq::<Step<T>>::empty());
}

/// Two steps, run by themselves.
proof fn lemma_run_of_two<T>(system: SystemModel<T>, first: Step<T>, second: Step<T>)
    ensures
        system.run(seq![first, second]) == system.after(first).after(second),
        system.allows_all(seq![first, second]) == (system.allows(first) && system.after(
            first,
        ).allows(second)),
{
    lemma_run_of_one(system, first);
    assert(seq![first, second].drop_last() =~= seq![first]);
}

/// To look for room, to write `values` into it and to commit them appends them.
proof fn lemma_stage_and_commit<T>(system: SystemModel<T>, min_count: nat, values: Seq<T>)
    requires
        system.wf(),
        values.len() <= system.found_free(min_count),
    ensures
        ({
            let steps = seq![
                Step::SeekFree(min_count),
                Step::Stage(slots_of(values)),
                Step::Commit(values.len()),
            ];
            &&& system.allows_all(steps)
            &&& system.run(steps) == SystemModel {
                queue: system.queue.append(values),
                known_free: (system.found_free(min_count) - values.len()) as nat,
                ..system
            }
        }),
{
    let seek = Step::SeekFree(min_count);
    let stage = Step::Stage(slots_of(values));
    let commit = Step::<T>::Commit(values.len());
    let steps = seq![seek, stage, commit];
    lemma_run_of_two(system, seek, stage);
    assert(steps.drop_last() =~= seq![seek, stage]);
    let staged = system.after(seek).after(stage);
    let taken = staged.queue.vacant.take(values.len() as int);
    assert(taken =~= slots_of(values));
    assert(values_of(taken) =~= values);
    assert(staged.queue.vacant.skip(values.len() as int) =~= system.queue.vacant.skip(
        values.len() as int,
    ));
}

/// One step more.
proof fn lemma_one_more<T>(system: SystemModel<T>, steps: Seq<Step<T>>, step: Step<T>)
    ensures
        ({
            let more = steps.push(step);
            let before = system.run(steps);
            &&& more.drop_last() == steps
            &&& more.last() == step
            &&& system.run(more) == before.after(step)
            &&& system.allows_all(more) == (system.allows_all(steps) && before.allows(step))
            &&& system.entered(more) == system.entered(steps) + before.entering(step)
            &&& system.left(more) == system.left(steps) + before.queue.items.take(
                before.leaving(step) as int,
            )
        }),
{
    assert(steps.push(step).drop_last() =~= steps);
}

/// What a copy in does to a queue.
proof fn lemma_append_step<T>(system: SystemModel<T>, src: Seq<T>, written: int)
    requires
        system.wf(),
        0 <= written <= src.len(),
    ensures
        ({
            let step = Step::Append(src.skip(written));
            let done = written + least((src.len() - written) as nat, system.queue.free());
            let after = system.after(step);
            &&& system.allows(step)
            &&& system.entering(step) == src.subrange(written, done)
            &&& after.queue == system.queue.append(src.subrange(written, done))
            &&& done == src.len() || after.queue.free() == 0
        }),
{
    let rest = src.skip(written);
    let done = written + least(rest.len(), system.queue.free());
    assert(rest.take(done - written) =~= src.subrange(written, done));
}

/// What a copy out does to a queue.
proof fn lemma_take_step<T>(system: SystemModel<T>, len: nat)
    requires
        system.wf(),
    ensures
        ({
            let step = Step::<T>::Take(len);
            let count = least(len, system.queue.items.len());
            let after = system.after(step);
            &&& system.allows(step)
            &&& system.leaving(step) == count
            &&& after.queue == system.queue.discard(count)
            &&& count == len || after.queue.items.len() == 0
        }),
{
}

/// Every step of the producer copies in as much as there is room for of what is left of `src`.
pub open spec fn copies_in<T>(system: SystemModel<T>, src: Seq<T>, steps: Seq<Step<T>>) -> bool
    decreases steps.len(),
{
    steps.len() == 0 || {
        let written = system.entered(steps.drop_last()).len() as int;
        &&& copies_in(system, src, steps.drop_last())
        &&& steps.last().by_producer() ==> steps.last() == Step::Append(src.skip(written))
    }
}

/// Every step of the consumer copies out as much as there is of what is left of `len` values.
pub open spec fn copies_out<T>(system: SystemModel<T>, len: nat, steps: Seq<Step<T>>) -> bool
    decreases steps.len(),
{
    steps.len() == 0 || {
        let read = system.left(steps.drop_last()).len();
        &&& copies_out(system, len, steps.drop_last())
        &&& !steps.last().by_producer() ==> steps.last() == Step::<T>::Take((len - read) as nat)
    }
}

/// A producer that goes on copying in what is left of a slice puts exactly the slice into the
/// queue, from its start on and behind what the queue held, whatever the consumer does in
/// between. Once as many values have entered as the slice has, they are those of the slice.
pub proof fn law_blocking_copy_in<T>(system: SystemModel<T>, src: Seq<T>, steps: Seq<Step<T>>)
    requires
        system.wf(),
        system.allows_all(steps),
        copies_in(system, src, steps),
    ensures
        ({
            let written = system.entered(steps).len();
            &&& written <= src.len()
            &&& system.entered(steps) == src.take(written as int)
            &&& system.queue.items + src.take(written as int) == system.left(steps) + system.run(
                steps,
            ).queue.items
            &&& written == src.len() ==> system.entered(steps) == src
        }),
    decreases steps.len(),
{
    law_first_in_first_out(system, steps);
    if steps.len() > 0 {
        law_blocking_copy_in(system, src, steps.drop_last());
        let before = system.run(steps.drop_last());
        let written = system.entered(steps.drop_last()).len() as int;
        let entering = before.entering(steps.last());
        if steps.last().by_producer() {
            assert(src.take(written) + entering =~= src.take(written + entering.len()));
        } else {
            assert(src.take(written) + entering =~= src.take(written));
        }
    }
    assert(src.take(src.len() as int) =~= src);
}

/// One more round of such a copy adds what it copied to what has entered the queue, and it adds
/// something if there is room and anything is left.
#[verifier::rlimit(40)]
pub proof fn law_blocking_copy_in_goes_on<T>(
    system: SystemModel<T>,
    src: Seq<T>,
    steps: Seq<Step<T>>,
)
    requires
        system.wf(),
        system.allows_all(steps),
        copies_in(system, src, steps),
    ensures
        ({
            let written = system.entered(steps).len();
            let free = system.run(steps).queue.free();
            let done = written + least((src.len() - written) as nat, free);
            let more = steps.push(Step::Append(src.skip(written as int)));
            &&& system.allows_all(more)
            &&& copies_in(system, src, more)
            &&& system.entered(more) == src.take(done as int)
            &&& system.run(more).queue == system.run(steps).queue.append(
                src.subrange(written as int, done as int),
            )
            &&& free > 0 && written < src.len() ==> written < done
            &&& done == src.len() || system.run(more).queue.free() == 0
        }),
{
    law_blocking_copy_in(system, src, steps);
    law_bounded(system, steps);
    let written = system.entered(steps).len() as int;
    let done = written + least((src.len() - written) as nat, system.run(steps).queue.free());
    lemma_append_step(system.run(steps), src, written);
    lemma_one_more(system, steps, Step::Append(src.skip(written)));
    assert(src.take(written) + src.subrange(written, done) =~= src.take(done));
}

/// A consumer that goes on copying out until it has `len` values takes out the values that are
/// read next, in order, and no more than `len` of them, whatever the producer does in between.
pub proof fn law_blocking_copy_out<T>(system: SystemModel<T>, len: nat, steps: Seq<Step<T>>)
    requires
        system.wf(),
        system.allows_all(steps),
        copies_out(system, len, steps),
    ensures
        ({
            let read = system.left(steps).len();
            let all = system.queue.items + system.entered(steps);
            &&& read <= len
            &&& read <= all.len()
            &&& system.left(steps) == all.take(read as int)
            &&& system.run(steps).queue.items == all.skip(read as int)
        }),
    decreases steps.len(),
{
    law_first_in_first_out(system, steps);
    law_bounded(system, steps);
    let left = system.left(steps);
    let items = system.run(steps).queue.items;
    assert(left =~= (left + items).take(left.len() as int));
    assert(items =~= (left + items).skip(left.len() as int));
    if steps.len() > 0 {
        law_blocking_copy_out(system, len, steps.drop_last());
        law_bounded(system, steps.drop_last());
    }
}

/// One more round of such a copy, into a slice that starts with what has been read, extends it by
/// what it took out, and it takes something if there is anything and the slice is not full.
pub proof fn law_blocking_copy_out_goes_on<T>(
    system: SystemModel<T>,
    dst: Seq<T>,
    steps: Seq<Step<T>>,
)
    requires
        system.wf(),
        system.allows_all(steps),
        copies_out(system, dst.len(), steps),
        system.left(steps) == dst.take(system.left(steps).len() as int),
    ensures
        ({
            let read = system.left(steps).len();
            let items = system.run(steps).queue.items;
            let done = read + least((dst.len() - read) as nat, items.len());
            let filled = dst.take(read as int) + items.take(done - read) + dst.skip(done as int);
            let more = steps.push(Step::<T>::Take((dst.len() - read) as nat));
            &&& system.allows_all(more)
            &&& copies_out(system, dst.len(), more)
            &&& filled.len() == dst.len()
            &&& system.left(more) == filled.take(done as int)
            &&& system.run(more).queue == system.run(steps).queue.discard((done - read) as nat)
            &&& items.len() > 0 && read < dst.len() ==> read < done
            &&& done == dst.len() || system.run(more).queue.items.len() == 0
        }),
{
    law_blocking_copy_out(system, dst.len(), steps);
    law_bounded(system, steps);
    let read = system.left(steps).len() as int;
    let items = system.run(steps).queue.items;
    let rest = (dst.len() - read) as nat;
    let done = read + least(rest, items.len());
    let filled = dst.take(read) + items.take(done - read) + dst.skip(done);
    lemma_take_step(system.run(steps), rest);
    lemma_one_more(system, steps, Step::<T>::Take(rest));
    assert(dst.take(read) + items.take(done - read) =~= filled.take(done));
}

/// The readable and the writable slots between two positions make up the capacity.
pub proof fn law_readable_and_writable(size: int, head: int, tail: int)
    requires
        0 <= head < size,
        0 <= tail < size,
    ensures
        0 <= readable(size, head, tail) <= size - 1,
        0 <= writable(size, head, tail) <= size - 1,
        readable(size, head, tail) + writable(size, head, tail) == size - 1,
{
}

/// To move a position by one count and then by another is to move it by both.
pub proof fn law_moves_add_up(pos: int, first: int, second: int, size: int)
    requires
        0 <= pos < size,
        0 <= first,
        0 <= second,
        first + second < size,
    ensures
        wrap(wrap(pos + first, size) + second, size) == wrap(pos + first + second, size),
        distance(pos, wrap(pos + first, size), size) == first,
{
}

/// No slot is both ahead of the head and behind it: where the producer may write, the consumer
/// does not read.
pub proof fn law_slots_apart<T>(queue: QueueModel<T>, vacant: int, occupied: int)
    requires
        queue.wf(),
        0 <= vacant < queue.vacant.len(),
        0 <= occupied < queue.items.len(),
    ensures
        wrap(queue.head() + vacant, queue.size() as int) != wrap(
            queue.tail + occupied,
            queue.size() as int,
        ),
{
}

/// A side that asks for at least one slot finds none only if there is none.
pub proof fn law_nothing_found_means_nothing_there<T>(system: SystemModel<T>, min_count: nat)
    requires
        system.wf(),
        min_count > 0,
    ensures
        system.found_free(min_count) == 0 <==> system.queue.free() == 0,
        system.found_ready(min_count) == 0 <==> system.queue.items.len() == 0,
{
}

/// A side never finds less than it knew of, and never more than there is.
pub proof fn law_looking_is_cautious<T>(system: SystemModel<T>, min_count: nat)
    requires
        system.wf(),
    ensures
        system.known_free <= system.found_free(min_count) <= system.queue.free(),
        system.known_ready <= system.found_ready(min_count) <= system.queue.items.len(),
        system.found_free(min_count) < min_count ==> system.found_free(min_count)
            == system.queue.free(),
        system.found_ready(min_count) < min_count ==> system.found_ready(min_count)
            == system.queue.items.len(),
{
}

/// A side that asks for no more slots than it knows of changes nothing. One that asks for more
/// knows of all there are afterwards, and changes nothing else.
pub proof fn law_looking_shows_all_or_nothing<T>(system: SystemModel<T>, min_count: nat)
    requires
        system.wf(),
    ensures
        ({
            let after = system.after(Step::SeekFree(min_count));
            &&& system.known_free >= min_count ==> after == system
            &&& system.known_free < min_count ==> {
                &&& after.known_free == system.queue.vacant.len() - 1
                &&& after.queue == system.queue
                &&& after.known_ready == system.known_ready
            }
        }),
        ({
            let after = system.after(Step::SeekReady(min_count));
            &&& system.known_ready >= min_count ==> after == system
            &&& system.known_ready < min_count ==> {
                &&& after.known_ready == system.queue.items.len()
                &&& after.queue == system.queue
                &&& after.known_free == system.known_free
            }
        }),
{
}

/// A side that asks for more never finds less, and to look twice for the same amount is to look
/// once.
pub proof fn law_looking_for_more_finds_no_less<T>(system: SystemModel<T>, less: nat, more: nat)
    requires
        system.wf(),
        less <= more,
    ensures
        system.found_free(less) <= system.found_free(more),
        system.found_ready(less) <= system.found_ready(more),
        ({
            let (free, ready) = (Step::<T>::SeekFree(less), Step::<T>::SeekReady(less));
            &&& system.after(free).after(free) == system.after(free)
            &&& system.after(ready).after(ready) == system.after(ready)
            &&& system.after(free).after(ready) == system.after(ready).after(free)
        }),
{
}

/// Values that are appended come behind those that the queue holds, and use up as many vacant
/// slots from the first on. The values that are held, the tail and the memory stay.
pub proof fn law_append_adds_behind<T>(queue: QueueModel<T>, values: Seq<T>)
    requires
        queue.wf(),
        values.len() <= queue.free(),
    ensures
        ({
            let after = queue.append(values);
            let len = queue.items.len();
            &&& after.wf()
            &&& after.items.len() == len + values.len()
            &&& forall|i: int| 0 <= i < len ==> #[trigger] after.items[i] == queue.items[i]
            &&& forall|i: int|
                0 <= i < values.len() ==> #[trigger] values[i] == after.items[len + i]
            &&& after.vacant.len() + values.len() == queue.vacant.len()
            &&& forall|i: int|
                0 <= i < after.vacant.len() ==> #[trigger] after.vacant[i]
                    == queue.vacant[values.len() + i]
            &&& after.tail == queue.tail
            &&& after.memory == queue.memory
            &&& after.head() == (queue.head() + values.len()) % queue.size() as int
        }),
{
    lemma_wrap_is_remainder(queue.head() + values.len(), queue.size() as int);
}

/// Values that are discarded are those that are read next. Their slots become vacant, behind those
/// that already were, and hold nothing. The other values, the head and the memory stay.
pub proof fn law_discard_takes_from_the_front<T>(queue: QueueModel<T>, count: nat)
    requires
        queue.wf(),
        count <= queue.items.len(),
    ensures
        ({
            let after = queue.discard(count);
            &&& after.wf()
            &&& after.items.len() + count == queue.items.len()
            &&& forall|i: int|
                0 <= i < after.items.len() ==> #[trigger] after.items[i] == queue.items[count + i]
            &&& after.vacant.len() == queue.vacant.len() + count
            &&& forall|i: int|
                0 <= i < queue.vacant.len() ==> #[trigger] after.vacant[i] == queue.vacant[i]
            &&& forall|i: int|
                queue.vacant.len() <= i < after.vacant.len() ==> #[trigger] after.vacant[i] is None
            &&& after.tail == (queue.tail + count) % queue.size() as int
            &&& after.memory == queue.memory
            &&& after.head() == queue.head()
        }),
{
    lemma_wrap_is_remainder(queue.tail + count, queue.size() as int);
}

/// What is written ahead of time stays outside the queue until the head moves over it, and then is
/// what was written, in the same order.
pub proof fn law_commit_adds_what_was_staged<T>(queue: QueueModel<T>, values: Seq<T>)
    requires
        queue.wf(),
        values.len() <= queue.free(),
    ensures
        ({
            let staged = queue.stage(slots_of(values));
            &&& staged.items == queue.items
            &&& staged.tail == queue.tail
            &&& staged.memory == queue.memory
            &&& staged.vacant.len() == queue.vacant.len()
            &&& forall|i: int|
                0 <= i < values.len() ==> #[trigger] staged.vacant[i] == Some(values[i])
            &&& forall|i: int|
                values.len() <= i < queue.vacant.len() ==> #[trigger] staged.vacant[i]
                    == queue.vacant[i]
            &&& staged.commit(values.len()).items == queue.items + values
            &&& staged.commit(values.len()).vacant == queue.vacant.skip(values.len() as int)
        }),
{
    let staged = queue.stage(slots_of(values));
    let count = values.len() as int;
    assert(staged.vacant.take(count) =~= slots_of(values));
    assert(values_of(slots_of(values)) =~= values);
    assert(staged.vacant.skip(count) =~= queue.vacant.skip(count));
}

/// Every value that entered a queue, which started empty and was dropped in the end, has left it or
/// is dropped along with it, exactly once and in order.
pub proof fn law_entered_values_leave_or_are_dropped<T>(
    system: SystemModel<T>,
    steps: Seq<Step<T>>,
    last: Shared<T>,
    ended: Shared<T>,
)
    requires
        system.wf(),
        system.allows_all(steps),
        system.queue.items.len() == 0,
        last@ == system.run(steps).queue,
        last.dropped().len() == 0,
        ended.dropped() == last.dropped() + last@.items,
    ensures
        system.left(steps) + ended.dropped() == system.entered(steps),
{
    law_left_is_the_beginning(system, steps);
    let (entered, left) = (system.entered(steps), system.left(steps));
    assert(ended.dropped() =~= last@.items);
    assert(left + entered.skip(left.len() as int) =~= entered);
}

/// What is appended to an empty queue is what is read next, in the same order, and reading it
/// leaves the queue empty.
pub proof fn law_read_gives_back_write<T>(queue: QueueModel<T>, values: Seq<T>)
    requires
        queue.wf(),
        queue.items.len() == 0,
        values.len() <= queue.free(),
    ensures
        queue.append(values).items == values,
        queue.append(values).discard(values.len()).items.len() == 0,
        queue.append(values).discard(values.len()).free() == queue.free(),
{
    assert(queue.append(values).items =~= values);
}

} // verus!
