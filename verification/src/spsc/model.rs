//! What a queue holds, as mathematical values.
//!
//! The contracts of the queue are stated over the functions in this module.

use vstd::prelude::*;

verus! {

/// The position `pos` of a ring of `size` slots, brought back to its start once it has passed
/// its end.
pub open spec fn wrap(pos: int, size: int) -> int {
    if pos < size {
        pos
    } else {
        pos - size
    }
}

/// The number of steps that lead from one position of a ring to another.
pub open spec fn distance(from: int, to: int, size: int) -> int {
    if to >= from {
        to - from
    } else {
        size - (from - to)
    }
}

/// The number of occupied slots of a ring whose occupied slots start at `tail` and end before
/// `head`.
pub open spec fn readable(size: int, head: int, tail: int) -> int {
    distance(tail, head, size)
}

/// The number of slots of such a ring that may be filled: one slot stays empty between `head`
/// and `tail`.
pub open spec fn writable(size: int, head: int, tail: int) -> int {
    size - 1 - distance(tail, head, size)
}

/// The number of slots that one side of a queue finds when it asks for `min_count` of them.
///
/// `known` is what it knows of, and `actual` what there is. It looks at what there is only if
/// what it knows of does not do.
pub open spec fn acquired(known: nat, actual: nat, min_count: nat) -> nat {
    if known < min_count {
        actual
    } else {
        known
    }
}

/// The smaller of two counts.
pub open spec fn least(a: nat, b: nat) -> nat {
    if a <= b {
        a
    } else {
        b
    }
}

/// Every slot holds a value.
pub open spec fn all_filled<T>(slots: Seq<Option<T>>) -> bool {
    forall|i: int| 0 <= i < slots.len() ==> #[trigger] slots[i] is Some
}

/// The values in slots that all hold one.
pub open spec fn values_of<T>(slots: Seq<Option<T>>) -> Seq<T> {
    Seq::new(slots.len(), |i: int| slots[i]->0)
}

/// Slots that hold the given values.
pub open spec fn slots_of<T>(values: Seq<T>) -> Seq<Option<T>> {
    Seq::new(values.len(), |i: int| Some(values[i]))
}

/// `count` slots that hold nothing.
pub open spec fn empty_slots<T>(count: nat) -> Seq<Option<T>> {
    Seq::new(count, |i: int| None::<T>)
}

/// What a queue has besides its ring of slots.
#[verifier::ext_equal]
pub struct MemoryModel<T> {
    /// The memory has been allocated upon construction, and ends with the queue.
    pub owned: bool,
    /// The memory ahead of the slots.
    pub before: Seq<Option<T>>,
    /// The memory behind the slots.
    pub after: Seq<Option<T>>,
}

/// The state of a queue.
#[verifier::ext_equal]
pub struct QueueModel<T> {
    /// The position of the slot that is read next.
    pub tail: int,
    /// The values in the queue, the one that is read next first.
    pub items: Seq<T>,
    /// The slots outside the queue, the one that is written next first. The last of them stays
    /// outside, as a separator between `head` and `tail`. A slot may hold a value that was
    /// written into it ahead of time.
    pub vacant: Seq<Option<T>>,
    /// The memory that the slots lie in.
    pub memory: MemoryModel<T>,
}

impl<T> QueueModel<T> {
    /// The number of slots.
    pub open spec fn size(self) -> nat {
        self.items.len() + self.vacant.len()
    }

    /// The number of values that the queue can buffer at once.
    pub open spec fn capacity(self) -> nat {
        (self.size() - 1) as nat
    }

    /// The number of values that can be added.
    pub open spec fn free(self) -> nat {
        (self.vacant.len() - 1) as nat
    }

    /// The position of the slot that is written next.
    pub open spec fn head(self) -> int {
        wrap(self.tail + self.items.len(), self.size() as int)
    }

    /// The position of the slot that is read next is that of a slot, and there is a separator.
    pub open spec fn wf(self) -> bool {
        &&& 0 <= self.tail < self.size()
        &&& self.vacant.len() > 0
    }

    /// An empty queue on the given slots.
    pub open spec fn on_slots(slots: Seq<Option<T>>, memory: MemoryModel<T>) -> Self {
        QueueModel { tail: 0, items: Seq::empty(), vacant: slots, memory }
    }

    /// The slots of the ring by their position, once the items have been taken out.
    pub open spec fn emptied(self) -> Seq<Option<T>> {
        Seq::new(
            self.size(),
            |pos: int|
                {
                    let i = distance(self.head(), pos, self.size() as int);
                    if i < self.vacant.len() {
                        self.vacant[i]
                    } else {
                        None
                    }
                },
        )
    }

    /// The queue with `values` added behind what it holds.
    pub open spec fn append(self, values: Seq<T>) -> Self {
        QueueModel {
            items: self.items + values,
            vacant: self.vacant.skip(values.len() as int),
            ..self
        }
    }

    /// The queue with `value` added behind what it holds.
    pub open spec fn push(self, value: T) -> Self {
        self.append(seq![value])
    }

    /// The queue with the first `count` vacant slots, which hold values, made part of what it
    /// holds.
    pub open spec fn commit(self, count: nat) -> Self {
        self.append(values_of(self.vacant.take(count as int)))
    }

    /// The queue with the first vacant slots set to `slots`.
    pub open spec fn stage(self, slots: Seq<Option<T>>) -> Self {
        QueueModel { vacant: slots + self.vacant.skip(slots.len() as int), ..self }
    }

    /// The queue without the `count` values that are read next. Their slots become vacant.
    pub open spec fn discard(self, count: nat) -> Self {
        QueueModel {
            tail: wrap(self.tail + count, self.size() as int),
            items: self.items.skip(count as int),
            vacant: self.vacant + empty_slots(count),
            ..self
        }
    }

    /// The queue without the value that is read next.
    pub open spec fn pop(self) -> Self {
        self.discard(1)
    }

    /// How many of `count` slots from position `pos` on lie before the end of the ring.
    pub open spec fn before_end(self, pos: int, count: nat) -> nat {
        least(count, (self.size() - pos) as nat)
    }
}

} // verus!
