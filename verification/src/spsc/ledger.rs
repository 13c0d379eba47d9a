//! A record of the values that ended in a queue.
//!
//! A value that a queue does not hand out ends in one of two ways. It is dropped, and its
//! destructor runs, or it is forgotten, and its destructor never runs. A [`Ledger`] records which
//! of the two happened to which values, and in what order, and how much memory was given up without
//! being freed. It is all ghost, and takes no space.

use super::buffer::forget;
use super::model::{empty_slots, slots_of};
use core::mem::MaybeUninit;
use vstd::prelude::*;
use vstd::std_specs::maybe_uninit::MaybeUninitAdditionalSpecFns;

verus! {

/// What one slot holds.
pub open spec fn held<T>(slot: Option<T>) -> Seq<T> {
    match slot {
        Some(value) => seq![value],
        None => Seq::empty(),
    }
}

/// What a number of slots hold, in order.
pub open spec fn held_in<T>(slots: Seq<Option<T>>) -> Seq<T>
    decreases slots.len(),
{
    if slots.len() == 0 {
        Seq::empty()
    } else {
        held_in(slots.drop_last()) + held(slots.last())
    }
}

/// Slots next to each other hold what the first of them hold, then what the others hold.
pub proof fn law_held_in_order<T>(first: Seq<Option<T>>, second: Seq<Option<T>>)
    ensures
        held_in(first + second) == held_in(first) + held_in(second),
    decreases second.len(),
{
    if second.len() == 0 {
        assert(first + second =~= first);
        assert(held_in(first) + held_in(second) =~= held_in(first));
    } else {
        law_held_in_order(first, second.drop_last());
        assert((first + second).drop_last() =~= first + second.drop_last());
        assert((first + second).last() == second.last());
        assert((held_in(first) + held_in(second.drop_last())) + held(second.last())
            =~= held_in(first) + (held_in(second.drop_last()) + held(second.last())));
    }
}

/// Slots that all hold a value hold these values, and slots that hold nothing hold none.
pub proof fn law_held_in_full_and_empty<T>(values: Seq<T>, count: nat)
    ensures
        held_in(slots_of(values)) == values,
        held_in(empty_slots::<T>(count)) == Seq::<T>::empty(),
    decreases values.len() + count,
{
    if values.len() > 0 {
        law_held_in_full_and_empty(values.drop_last(), count);
        assert(slots_of(values).drop_last() =~= slots_of(values.drop_last()));
        assert(values.drop_last() + seq![values.last()] =~= values);
    } else {
        assert(held_in(slots_of(values)) =~= values);
    }
    if count > 0 {
        law_held_in_full_and_empty(values, (count - 1) as nat);
        assert(empty_slots::<T>(count).drop_last() =~= empty_slots::<T>((count - 1) as nat));
        assert(held_in(empty_slots::<T>(count)) =~= Seq::<T>::empty());
    }
}

/// A record of the values that were dropped, of those that were forgotten, and of the memory that
/// was left behind.
///
/// It grows only when it is given a value to end. The one that is dropped goes out of scope here,
/// and the one that is forgotten does not.
#[derive(Debug)]
pub struct Ledger<T> {
    /// The values that were dropped.
    dropped: MaybeUninit<Ghost<Seq<T>>>,
    /// The values that were forgotten.
    forgotten: MaybeUninit<Ghost<Seq<T>>>,
    /// The amount of memory that was left behind.
    left_behind: MaybeUninit<Ghost<nat>>,
}

impl<T> Ledger<T> {
    /// The values whose destructor has run, in the order in which it ran.
    pub closed spec fn dropped(self) -> Seq<T> {
        self.dropped.mem_contents().value()@
    }

    /// The values whose destructor will never run, in the order in which they were given up.
    pub closed spec fn forgotten(self) -> Seq<T> {
        self.forgotten.mem_contents().value()@
    }

    /// The number of slots in the memory that was given up without being freed.
    pub closed spec fn left_behind(self) -> nat {
        self.left_behind.mem_contents().value()@
    }

    /// An empty record.
    pub(crate) fn new() -> (ledger: Self)
        ensures
            ledger.dropped() == Seq::<T>::empty(),
            ledger.forgotten() == Seq::<T>::empty(),
            ledger.left_behind() == 0,
        opens_invariants none
        no_unwind
    {
        Ledger {
            dropped: MaybeUninit::new(Ghost(Seq::empty())),
            forgotten: MaybeUninit::new(Ghost(Seq::empty())),
            left_behind: MaybeUninit::new(Ghost(0)),
        }
    }

    /// Drops what was in a slot.
    pub(crate) fn drop_held(&mut self, slot: Option<T>)
        ensures
            final(self).dropped() == old(self).dropped() + held(slot),
            final(self).forgotten() == old(self).forgotten(),
            final(self).left_behind() == old(self).left_behind(),
        opens_invariants none
        no_unwind
    {
        self.dropped = MaybeUninit::new(Ghost(self.dropped() + held(slot)));
        // The slot goes out of scope here, and the destructor of what it holds runs
    }

    /// Forgets what was in a slot.
    pub(crate) fn forget_held(&mut self, slot: Option<T>)
        ensures
            final(self).dropped() == old(self).dropped(),
            final(self).forgotten() == old(self).forgotten() + held(slot),
            final(self).left_behind() == old(self).left_behind(),
        opens_invariants none
        no_unwind
    {
        self.forgotten = MaybeUninit::new(Ghost(self.forgotten() + held(slot)));
        forget(slot);
    }

    /// Forgets a whole memory, along with what is in it.
    pub(crate) fn forget_memory(&mut self, memory: Vec<Option<T>>)
        ensures
            final(self).dropped() == old(self).dropped(),
            final(self).forgotten() == old(self).forgotten() + held_in(memory@),
            final(self).left_behind() == old(self).left_behind() + memory@.len(),
        opens_invariants none
        no_unwind
    {
        self.forgotten = MaybeUninit::new(Ghost(self.forgotten() + held_in(memory@)));
        self.left_behind = MaybeUninit::new(Ghost(self.left_behind() + memory@.len()));
        forget(memory);
    }
}

} // verus!
