//! A queue along with its two sides.
//!
//! A [`SystemModel`] is a queue and what its producer and its consumer know of it. A [`Step`] is
//! one access of one side.

use super::consumer::Consumer;
use super::model::{acquired, all_filled, least, values_of, QueueModel};
use super::producer::Producer;
use super::shared::Shared;
use vstd::prelude::*;

verus! {

/// One access of one side to the queue.
pub enum Step<T> {
    /// The producer asks for a number of free slots.
    SeekFree(nat),
    /// The producer writes ahead of the head.
    Stage(Seq<Option<T>>),
    /// The producer moves the head over slots that it has filled.
    Commit(nat),
    /// The producer tries to push a value.
    Push(T),
    /// The producer copies from a slice as much as there is room for.
    Append(Seq<T>),
    /// The consumer asks for a number of occupied slots.
    SeekReady(nat),
    /// The consumer moves the tail over slots that it knows to be occupied.
    Discard(nat),
    /// The consumer tries to pop a value.
    Pop,
    /// The consumer copies into a slice of a given length what there is for it.
    Take(nat),
    /// The consumer discards all there is.
    Clear,
}

impl<T> Step<T> {
    /// The step is one of the producer.
    pub open spec fn by_producer(self) -> bool {
        match self {
            Step::SeekFree(_) => true,
            Step::Stage(_) => true,
            Step::Commit(_) => true,
            Step::Push(_) => true,
            Step::Append(_) => true,
            _ => false,
        }
    }
}

/// A queue, and how many slots its producer knows to be free and its consumer knows to be
/// occupied.
#[verifier::ext_equal]
pub struct SystemModel<T> {
    /// The queue.
    pub queue: QueueModel<T>,
    /// The number of free slots that the producer knows of.
    pub known_free: nat,
    /// The number of occupied slots that the consumer knows of.
    pub known_ready: nat,
}

/// The system that a queue and its two sides make up.
pub open spec fn system_of<T>(
    queue: Shared<T>,
    producer: Producer<T>,
    consumer: Consumer<T>,
) -> SystemModel<T> {
    SystemModel {
        queue: queue@,
        known_free: producer.known_free(queue),
        known_ready: consumer.known_ready(queue),
    }
}

impl<T> SystemModel<T> {
    /// Neither side knows of more slots than there are.
    pub open spec fn wf(self) -> bool {
        &&& self.queue.wf()
        &&& self.known_free <= self.queue.free()
        &&& self.known_ready <= self.queue.items.len()
    }

    /// A side may take the step.
    pub open spec fn allows(self, step: Step<T>) -> bool {
        match step {
            Step::Stage(slots) => slots.len() <= self.known_free,
            Step::Commit(count) => count <= self.known_free && all_filled(
                self.queue.vacant.take(count as int),
            ),
            Step::Discard(count) => count <= self.known_ready,
            _ => true,
        }
    }

    /// The number of free slots that the producer finds when it asks for `min_count`.
    pub open spec fn found_free(self, min_count: nat) -> nat {
        acquired(self.known_free, self.queue.free(), min_count)
    }

    /// The number of occupied slots that the consumer finds when it asks for `min_count`.
    pub open spec fn found_ready(self, min_count: nat) -> nat {
        acquired(self.known_ready, self.queue.items.len(), min_count)
    }

    /// The values that a step puts into the queue.
    pub open spec fn entering(self, step: Step<T>) -> Seq<T> {
        match step {
            Step::Commit(count) => values_of(self.queue.vacant.take(count as int)),
            Step::Push(value) => if self.queue.free() == 0 {
                Seq::empty()
            } else {
                seq![value]
            },
            Step::Append(src) => src.take(least(src.len(), self.queue.free()) as int),
            _ => Seq::empty(),
        }
    }

    /// The number of values that a step takes out of the queue.
    pub open spec fn leaving(self, step: Step<T>) -> nat {
        match step {
            Step::Discard(count) => count,
            Step::Pop => least(1, self.queue.items.len()),
            Step::Take(len) => least(len, self.queue.items.len()),
            Step::Clear => self.queue.items.len(),
            _ => 0,
        }
    }

    /// The system after a step.
    pub open spec fn after(self, step: Step<T>) -> Self {
        let entering = self.entering(step);
        let leaving = self.leaving(step);
        match step {
            Step::SeekFree(min_count) => SystemModel {
                known_free: self.found_free(min_count),
                ..self
            },
            Step::Stage(slots) => SystemModel { queue: self.queue.stage(slots), ..self },
            Step::Commit(count) => SystemModel {
                queue: self.queue.commit(count),
                known_free: (self.known_free - count) as nat,
                ..self
            },
            Step::Push(_) => SystemModel {
                queue: self.queue.append(entering),
                known_free: (self.found_free(1) - entering.len()) as nat,
                ..self
            },
            Step::Append(src) => SystemModel {
                queue: self.queue.append(entering),
                known_free: (self.found_free(src.len()) - entering.len()) as nat,
                ..self
            },
            Step::SeekReady(min_count) => SystemModel {
                known_ready: self.found_ready(min_count),
                ..self
            },
            Step::Discard(count) => SystemModel {
                queue: self.queue.discard(count),
                known_ready: (self.known_ready - count) as nat,
                ..self
            },
            Step::Pop => SystemModel {
                queue: self.queue.discard(leaving),
                known_ready: (self.found_ready(1) - leaving) as nat,
                ..self
            },
            Step::Take(len) => SystemModel {
                queue: self.queue.discard(leaving),
                known_ready: (self.found_ready(len) - leaving) as nat,
                ..self
            },
            Step::Clear => SystemModel {
                queue: self.queue.discard(leaving),
                known_ready: 0,
                ..self
            },
        }
    }

    /// The system after a number of steps.
    pub open spec fn run(self, steps: Seq<Step<T>>) -> Self
        decreases steps.len(),
    {
        if steps.len() == 0 {
            self
        } else {
            self.run(steps.drop_last()).after(steps.last())
        }
    }

    /// Each of the steps may be taken when its turn comes.
    pub open spec fn allows_all(self, steps: Seq<Step<T>>) -> bool
        decreases steps.len(),
    {
        steps.len() == 0 || {
            &&& self.allows_all(steps.drop_last())
            &&& self.run(steps.drop_last()).allows(steps.last())
        }
    }

    /// The values that a number of steps put into the queue, in order.
    pub open spec fn entered(self, steps: Seq<Step<T>>) -> Seq<T>
        decreases steps.len(),
    {
        if steps.len() == 0 {
            Seq::empty()
        } else {
            self.entered(steps.drop_last()) + self.run(steps.drop_last()).entering(steps.last())
        }
    }

    /// The values that a number of steps took out of the queue, in order.
    pub open spec fn left(self, steps: Seq<Step<T>>) -> Seq<T>
        decreases steps.len(),
    {
        if steps.len() == 0 {
            Seq::empty()
        } else {
            let before = self.run(steps.drop_last());
            self.left(steps.drop_last()) + before.queue.items.take(
                before.leaving(steps.last()) as int,
            )
        }
    }
}

/// What a consumer knows of a queue stays true when a producer changes it from `before` to
/// `after`.
pub open spec fn consumers_kept<T>(before: Shared<T>, after: Shared<T>) -> bool {
    forall|consumer: Consumer<T>|
        consumer.inv(before) ==> #[trigger] consumer.inv(after) && consumer.known_ready(after)
            == consumer.known_ready(before)
}

/// What a producer knows of a queue stays true when a consumer changes it from `before` to
/// `after`.
pub open spec fn producers_kept<T>(before: Shared<T>, after: Shared<T>) -> bool {
    forall|producer: Producer<T>|
        producer.inv(before) ==> #[trigger] producer.inv(after) && producer.known_free(after)
            == producer.known_free(before)
}

/// A producer took a step, and every consumer saw the queue change accordingly.
pub open spec fn producer_took<T>(
    before: (Shared<T>, Producer<T>),
    step: Step<T>,
    after: (Shared<T>, Producer<T>),
) -> bool {
    forall|consumer: Consumer<T>|
        consumer.inv(before.0) ==> {
            let expected = system_of(before.0, before.1, consumer).after(step);
            &&& #[trigger] consumer.inv(after.0)
            &&& after.0@ == expected.queue
            &&& after.1.known_free(after.0) == expected.known_free
            &&& consumer.known_ready(after.0) == expected.known_ready
        }
}

/// A consumer took a step, and every producer saw the queue change accordingly.
pub open spec fn consumer_took<T>(
    before: (Shared<T>, Consumer<T>),
    step: Step<T>,
    after: (Shared<T>, Consumer<T>),
) -> bool {
    forall|producer: Producer<T>|
        producer.inv(before.0) ==> {
            let expected = system_of(before.0, producer, before.1).after(step);
            &&& #[trigger] producer.inv(after.0)
            &&& after.0@ == expected.queue
            &&& producer.known_free(after.0) == expected.known_free
            &&& after.1.known_ready(after.0) == expected.known_ready
        }
}

/// What stays true over two changes stays true over both.
pub(crate) proof fn lemma_consumers_kept_twice<T>(
    before: Shared<T>,
    between: Shared<T>,
    after: Shared<T>,
)
    requires
        consumers_kept(before, between),
        consumers_kept(between, after),
    ensures
        consumers_kept(before, after),
{
    assert forall|consumer: Consumer<T>| consumer.inv(before) implies #[trigger] consumer.inv(
        after,
    ) && consumer.known_ready(after) == consumer.known_ready(before) by {
        assert(consumer.inv(between));
    }
}

/// A producer that changed the queue as a step does, and no more, took the step.
pub(crate) proof fn lemma_producer_took<T>(
    before: (Shared<T>, Producer<T>),
    step: Step<T>,
    after: (Shared<T>, Producer<T>),
)
    requires
        step.by_producer(),
        consumers_kept(before.0, after.0),
        ({
            let system = SystemModel {
                queue: before.0@,
                known_free: before.1.known_free(before.0),
                known_ready: 0,
            };
            &&& after.0@ == system.after(step).queue
            &&& after.1.known_free(after.0) == system.after(step).known_free
        }),
    ensures
        producer_took(before, step, after),
{
    assert forall|consumer: Consumer<T>| consumer.inv(before.0) implies {
        let expected = system_of(before.0, before.1, consumer).after(step);
        &&& #[trigger] consumer.inv(after.0)
        &&& after.0@ == expected.queue
        &&& after.1.known_free(after.0) == expected.known_free
        &&& consumer.known_ready(after.0) == expected.known_ready
    } by {
        let expected = system_of(before.0, before.1, consumer).after(step);
        assert(consumer.inv(after.0));
        assert(expected.known_ready == consumer.known_ready(before.0));
    }
}

/// A consumer that changed the queue as a step does, and no more, took the step.
pub(crate) proof fn lemma_consumer_took<T>(
    before: (Shared<T>, Consumer<T>),
    step: Step<T>,
    after: (Shared<T>, Consumer<T>),
)
    requires
        !step.by_producer(),
        producers_kept(before.0, after.0),
        ({
            let system = SystemModel {
                queue: before.0@,
                known_free: 0,
                known_ready: before.1.known_ready(before.0),
            };
            &&& after.0@ == system.after(step).queue
            &&& after.1.known_ready(after.0) == system.after(step).known_ready
        }),
    ensures
        consumer_took(before, step, after),
{
    assert forall|producer: Producer<T>| producer.inv(before.0) implies {
        let expected = system_of(before.0, producer, before.1).after(step);
        &&& #[trigger] producer.inv(after.0)
        &&& after.0@ == expected.queue
        &&& producer.known_free(after.0) == expected.known_free
        &&& after.1.known_ready(after.0) == expected.known_ready
    } by {
        let expected = system_of(before.0, producer, before.1).after(step);
        assert(producer.inv(after.0));
        assert(expected.known_free == producer.known_free(before.0));
    }
}

} // verus!
