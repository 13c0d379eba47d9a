//! The slots that back a queue.

use super::ledger::{held, held_in, law_held_in_full_and_empty, law_held_in_order, Ledger};
use super::model::{empty_slots, MemoryModel};
use core::mem;
use crossbeam_utils::CachePadded;
use vstd::layout;
use vstd::prelude::*;

verus! {

/// `crossbeam_utils::CachePadded`, known here only for how much room a padded byte takes.
#[verifier::external_type_specification]
#[verifier::external_body]
#[verifier::reject_recursive_types(T)]
pub struct ExCachePadded<T>(CachePadded<T>);

/// `core::mem::forget` takes a value and never runs its destructor. Nothing is promised of it
/// beyond that the call returns.
#[verifier::external_body]
pub(crate) fn forget<T>(value: T)
    opens_invariants none
    no_unwind
{
    mem::forget(value)
}

/// `<[T]>::get_mut` on a vector lends out the element at an index, and nothing if there is none.
/// Whatever is written through it is what the vector then holds there.
#[verifier::external_body]
fn element_mut<T>(data: &mut Vec<T>, index: usize) -> (element: Option<&mut T>)
    ensures
        match element {
            Some(lent) => {
                &&& index < old(data)@.len()
                &&& *lent == old(data)@[index as int]
                &&& final(data)@ == old(data)@.update(index as int, *final(lent))
            },
            None => index >= old(data)@.len() && final(data)@ == old(data)@,
        },
    opens_invariants none
    no_unwind
{
    data.get_mut(index)
}

/// `core::mem::take` on a vector leaves an empty one, the default, and returns what was there.
#[verifier::external_body]
fn take_vec<T>(data: &mut Vec<T>) -> (taken: Vec<T>)
    ensures
        taken@ == old(data)@,
        final(data)@ == Seq::<T>::empty(),
    opens_invariants none
    no_unwind
{
    mem::take(data)
}

/// The number of bytes that a `crossbeam_utils::CachePadded<u8>` takes, as `core::mem::size_of`
/// reports it.
///
/// The type is aligned to the line length that its documentation lists for the target, and is
/// the smallest multiple of that length which holds a byte: one line.
#[verifier::external_body]
fn padded_byte_size() -> (bytes: usize)
    ensures
        bytes as nat == layout::size_of::<CachePadded<u8>>(),
        bytes == 16 || bytes == 32 || bytes == 64 || bytes == 128 || bytes == 256,
{
    mem::size_of::<CachePadded<u8>>()
}

/// An upper bound of the slots that one pad takes, whatever the target and the element type.
pub const WIDEST_PAD: usize = 256;

/// The number of elements of `element` bytes that cover a cache line of `line` bytes. An element
/// without a size counts as one byte.
pub open spec fn slots_per_line(line: nat, element: nat) -> nat {
    let bytes: nat = if element == 0 {
        1
    } else {
        element
    };
    (1 + (line - 1) / bytes as int) as nat
}

/// The number of elements that cover a cache line is the least that does: they take at least its
/// bytes, and one fewer do not.
pub proof fn law_slots_cover_a_line(line: nat, element: nat)
    requires
        line >= 1,
    ensures
        ({
            let bytes: nat = if element == 0 {
                1
            } else {
                element
            };
            &&& slots_per_line(line, element) * bytes >= line
            &&& (slots_per_line(line, element) - 1) * bytes < line
        }),
{
    let bytes: int = if element == 0 {
        1
    } else {
        element as int
    };
    let quotient = (line - 1) / bytes;
    vstd::arithmetic::div_mod::lemma_fundamental_div_mod(line - 1, bytes);
    vstd::arithmetic::div_mod::lemma_div_pos_is_pos(line - 1, bytes);
    assert((1 + quotient) * bytes == bytes * quotient + bytes) by (nonlinear_arith);
    assert(quotient * bytes == bytes * quotient) by (nonlinear_arith);
}

/// The number of slots in each of the two pads of an allocated `Buffer<T>`.
pub open spec fn cache_pad<T>() -> nat {
    slots_per_line(layout::size_of::<CachePadded<u8>>(), layout::size_of::<T>())
}

/// The memory of a buffer for `T` that is allocated upon construction.
pub open spec fn allocated_memory<T>() -> MemoryModel<T> {
    MemoryModel {
        owned: true,
        before: empty_slots(cache_pad::<T>()),
        after: if layout::size_of::<T>() == 0 {
            Seq::empty()
        } else {
            empty_slots(cache_pad::<T>())
        },
    }
}

/// A buffer of `size` slots for `T` and its two pads can be counted with a `usize`.
pub open spec fn padded_size_fits<T>(size: usize) -> bool {
    ||| size + 2 * cache_pad::<T>() <= usize::MAX
    ||| size + 2 * WIDEST_PAD <= usize::MAX
}

/// The underlying buffer of the queue
#[derive(Debug)]
pub struct Buffer<T> {
    /// The number of slots in the buffer
    pub size: usize,
    /// The memory of the buffer. A slot that holds no value is `None`. Memory that ends before
    /// the slots do grows when they are used.
    pub data: Vec<Option<T>>,
    /// The index in `data` of the first slot
    pub offset: usize,
}

impl<T> Buffer<T> {
    /// The positions of all slots can be counted with a `usize`.
    pub open spec fn wf(&self) -> bool {
        self.offset + self.size <= usize::MAX
    }

    /// What the memory holds at an index. Behind its end it holds nothing.
    pub open spec fn at(&self, index: int) -> Option<T> {
        if 0 <= index < self.data@.len() {
            self.data@[index]
        } else {
            None
        }
    }

    /// What the slot at a position holds.
    pub open spec fn slot(&self, pos: int) -> Option<T> {
        self.at(self.offset + pos)
    }

    /// The slots of the buffer, in order.
    pub open spec fn slots(&self) -> Seq<Option<T>> {
        Seq::new(self.size as nat, |pos: int| self.slot(pos))
    }

    /// The memory ahead of the slots.
    pub open spec fn before(&self) -> Seq<Option<T>> {
        Seq::new(self.offset as nat, |i: int| self.at(i))
    }

    /// The memory behind the slots.
    pub open spec fn after(&self) -> Seq<Option<T>> {
        if self.offset + self.size < self.data@.len() {
            self.data@.skip(self.offset + self.size)
        } else {
            Seq::empty()
        }
    }

    /// Two buffers differ at most in what their slots hold.
    pub open spec fn same_shape(self, other: Self) -> bool {
        &&& self.size == other.size
        &&& self.offset == other.offset
        &&& self.before() == other.before()
        &&& self.after() == other.after()
    }

    /// Cache line pad for both the beginning and end of the buffer to avoid false sharing with
    /// adjacent allocations
    pub fn data_cache_pad() -> (pad: usize)
        ensures
            pad as nat == cache_pad::<T>(),
            1 <= pad <= WIDEST_PAD,
            ({
                let line = layout::size_of::<CachePadded<u8>>();
                let bytes: nat = if layout::size_of::<T>() == 0 {
                    1
                } else {
                    layout::size_of::<T>()
                };
                (pad - 1) * bytes < line <= pad * bytes
            }),
    {
        let line: usize = padded_byte_size();
        let size: usize = mem::size_of::<T>();
        proof {
            law_slots_cover_a_line(line as nat, size as nat);
        }
        let bytes: usize = if size == 0 {
            1
        } else {
            size
        };
        proof {
            vstd::arithmetic::div_mod::lemma_div_is_ordered_by_denominator(
                (line - 1) as int,
                1,
                bytes as int,
            );
        }
        1 + (line - 1) / bytes
    }

    /// The number of slots to allocate for a buffer of `size` slots. It accounts for the cache
    /// line pads at the beginning and end of the data.
    pub fn capacity(size: usize) -> (capacity: usize)
        requires
            padded_size_fits::<T>(size),
        ensures
            capacity == size + 2 * cache_pad::<T>(),
            size < capacity,
    {
        let pad: usize = Self::data_cache_pad();
        size + 2 * pad
    }

    /// Allocates a buffer of `size` empty slots, with a cache line pad on both sides.
    ///
    /// Elements without a size need no memory, so none is set aside for them ahead of time.
    pub fn allocate(size: usize) -> (buffer: Self)
        requires
            size > 0,
            padded_size_fits::<T>(size),
        ensures
            buffer.wf(),
            buffer.size == size,
            buffer.offset as nat == cache_pad::<T>(),
            buffer.slots() == empty_slots::<T>(size as nat),
            buffer.before() == allocated_memory::<T>().before,
            buffer.after() == allocated_memory::<T>().after,
            buffer.data@ == (if layout::size_of::<T>() == 0 {
                Seq::empty()
            } else {
                empty_slots::<T>(size as nat + 2 * cache_pad::<T>())
            }),
    {
        let capacity: usize = Self::capacity(size);
        // Skip the inserted cache line pad at the beginning of the data!
        let offset: usize = Self::data_cache_pad();
        let mut data: Vec<Option<T>> = Vec::new();
        if mem::size_of::<T>() > 0 {
            data = Vec::with_capacity(capacity);
            while data.len() < capacity
                invariant
                    data@.len() <= capacity,
                    data@ == empty_slots::<T>(data@.len()),
                decreases capacity - data@.len(),
            {
                data.push(None);
                assert(data@ =~= empty_slots::<T>(data@.len()));
            }
        }
        let buffer = Buffer { size, data, offset };
        assert(buffer.slots() =~= empty_slots::<T>(size as nat));
        assert(buffer.before() =~= allocated_memory::<T>().before);
        assert(buffer.after() =~= allocated_memory::<T>().after);
        buffer
    }

    /// Frees the memory of the buffer, without dropping what its slots still hold.
    ///
    /// Returns the record of what became of it.
    pub fn free(&mut self) -> (ledger: Ledger<T>)
        requires
            old(self).size > 0,
        ensures
            final(self).size == 0,
            final(self).offset == 0,
            final(self).data@.len() == 0,
            ledger.dropped().len() == 0,
            ledger.forgotten() == held_in(old(self).data@),
            ledger.left_behind() == 0,
    {
        let mut ledger: Ledger<T> = Ledger::new();
        self.forget_all(&mut ledger);
        self.data = Vec::new();
        self.offset = 0;
        self.size = 0;
        ledger
    }

    /// The slots, what lies ahead of them and what lies behind them make up the memory, in this
    /// order. Where the memory ends before the slots do, they hold nothing.
    pub proof fn law_parts_make_up_the_memory(self)
        requires
            self.wf(),
        ensures
            self.before().len() == self.offset,
            self.slots().len() == self.size,
            ({
                let all = self.before() + self.slots() + self.after();
                &&& self.data@.len() <= all.len()
                &&& all.take(self.data@.len() as int) == self.data@
                &&& self.data@.len() >= self.offset + self.size ==> all.len() == self.data@.len()
                &&& forall|i: int|
                    self.data@.len() <= i < all.len() ==> #[trigger] all[i] is None
            }),
    {
        let all = self.before() + self.slots() + self.after();
        assert(all.take(self.data@.len() as int) =~= self.data@);
    }

    /// What lies ahead of the slots, in them and behind them is all that the memory holds.
    pub(crate) proof fn lemma_held_in_parts(self)
        requires
            self.wf(),
        ensures
            held_in(self.data@) == held_in(self.before() + self.slots() + self.after()),
    {
        let all = self.before() + self.slots() + self.after();
        self.law_parts_make_up_the_memory();
        let missing = empty_slots::<T>((all.len() - self.data@.len()) as nat);
        assert(all =~= all.take(self.data@.len() as int) + missing);
        law_held_in_order(self.data@, missing);
        law_held_in_full_and_empty(Seq::<T>::empty(), missing.len());
        assert(held_in(all) =~= held_in(self.data@));
    }

    /// Lets the memory grow to the given length, if it is shorter.
    fn grow(&mut self, len: usize)
        requires
            old(self).wf(),
            len <= old(self).offset + old(self).size,
        ensures
            final(self).same_shape(*old(self)),
            len <= final(self).data@.len(),
            forall|i: int| #[trigger] final(self).at(i) == old(self).at(i),
    {
        while self.data.len() < len
            invariant
                self.size == old(self).size,
                self.offset == old(self).offset,
                len <= self.offset + self.size,
                old(self).data@.len() <= self.data@.len(),
                self.data@.len() <= len || self.data@ == old(self).data@,
                forall|i: int| #[trigger] self.at(i) == old(self).at(i),
            decreases len - self.data@.len(),
        {
            let ghost before = *self;
            self.data.push(None);
            assert forall|i: int| #[trigger] self.at(i) == old(self).at(i) by {
                assert(before.at(i) == old(self).at(i));
            }
        }
        assert(self.before() =~= old(self).before());
        assert(self.after() =~= old(self).after());
    }

    /// Drops what a slot holds, and records that.
    pub(crate) fn drop_slot(&mut self, pos: usize, ledger: &mut Ledger<T>)
        ensures
            final(ledger).forgotten() == old(ledger).forgotten(),
            final(ledger).left_behind() == old(ledger).left_behind(),
            old(self).wf() && pos < old(self).size ==> {
                &&& final(ledger).dropped() == old(ledger).dropped() + held(
                    old(self).slot(pos as int),
                )
                &&& final(self).same_shape(*old(self))
                &&& forall|p: int|
                    0 <= p < old(self).size ==> #[trigger] final(self).slot(p) == (if p == pos {
                        None
                    } else {
                        old(self).slot(p)
                    })
            },
            final(self).size == old(self).size,
            final(self).data@.len() == old(self).data@.len(),
        opens_invariants none
        no_unwind
    {
        if pos <= usize::MAX - self.offset {
            if let Some(slot) = element_mut(&mut self.data, self.offset + pos) {
                let mut content: Option<T> = None;
                mem::swap(&mut content, slot);
                ledger.drop_held(content);
            }
        }
        assert(pos < old(self).size ==> self.before() =~= old(self).before());
        assert(pos < old(self).size ==> self.after() =~= old(self).after());
    }

    /// Empties the memory without dropping what it holds, and records that.
    pub(crate) fn forget_all(&mut self, ledger: &mut Ledger<T>)
        ensures
            final(ledger).dropped() == old(ledger).dropped(),
            final(ledger).forgotten() == old(ledger).forgotten() + held_in(old(self).data@),
            final(ledger).left_behind() == old(ledger).left_behind(),
            final(self).size == old(self).size,
            final(self).offset == old(self).offset,
            final(self).data@ == empty_slots::<T>(old(self).data@.len()),
        opens_invariants none
        no_unwind
    {
        let mut index: usize = 0;
        let mut more: bool = true;
        while more && index < usize::MAX
            invariant
                self.size == old(self).size,
                self.offset == old(self).offset,
                self.data@.len() == old(self).data@.len(),
                forall|i: int|
                    0 <= i < index && i < self.data@.len() ==> #[trigger] self.data@[i] is None,
                forall|i: int|
                    index <= i < self.data@.len() ==> #[trigger] self.data@[i]
                        == old(self).data@[i],
                index <= self.data@.len(),
                ledger.dropped() == old(ledger).dropped(),
                ledger.left_behind() == old(ledger).left_behind(),
                ledger.forgotten() == old(ledger).forgotten() + held_in(
                    old(self).data@.take(index as int),
                ),
                !more ==> index >= self.data@.len(),
            decreases usize::MAX - index, (if more { 1int } else { 0int }),
        {
            match element_mut(&mut self.data, index) {
                Some(slot) => {
                    let mut content: Option<T> = None;
                    mem::swap(&mut content, slot);
                    proof {
                        let taken = old(self).data@.take(index + 1);
                        assert(taken.drop_last() =~= old(self).data@.take(index as int));
                        assert(old(ledger).forgotten() + held_in(taken.drop_last()) + held(content)
                            =~= old(ledger).forgotten() + held_in(taken));
                    }
                    ledger.forget_held(content);
                    index += 1;
                },
                None => {
                    more = false;
                },
            }
        }
        assert(self.data.len() <= usize::MAX);
        assert(old(self).data@.take(index as int) =~= old(self).data@);
        assert(self.data@ =~= empty_slots::<T>(old(self).data@.len()));
    }

    /// Gives up the memory, neither dropping what it holds nor freeing it, and records that.
    pub(crate) fn leave(&mut self, ledger: &mut Ledger<T>)
        ensures
            final(ledger).dropped() == old(ledger).dropped(),
            final(ledger).forgotten() == old(ledger).forgotten() + held_in(old(self).data@),
            final(ledger).left_behind() == old(ledger).left_behind() + old(self).data@.len(),
            final(self).size == 0,
            final(self).offset == 0,
            final(self).data@.len() == 0,
        opens_invariants none
        no_unwind
    {
        ledger.forget_memory(take_vec(&mut self.data));
        self.offset = 0;
        self.size = 0;
    }

    /// Writes a value into a slot, without dropping what the slot held, and records that.
    pub(crate) fn write_slot(&mut self, pos: usize, value: T, ledger: &mut Ledger<T>)
        requires
            old(self).wf(),
            pos < old(self).size,
        ensures
            final(ledger).dropped() == old(ledger).dropped(),
            final(ledger).forgotten() == old(ledger).forgotten() + held(
                old(self).slot(pos as int),
            ),
            final(ledger).left_behind() == old(ledger).left_behind(),
            final(self).same_shape(*old(self)),
            forall|p: int|
                0 <= p < old(self).size ==> #[trigger] final(self).slot(p) == (if p == pos {
                    Some(value)
                } else {
                    old(self).slot(p)
                }),
    {
        let index: usize = self.offset + pos;
        self.grow(index + 1);
        let ghost grown = *self;
        assert(grown.at(index as int) == old(self).at(index as int));
        ledger.forget_held(self.data[index].take());
        self.data[index] = Some(value);
        assert forall|p: int| 0 <= p < old(self).size implies #[trigger] self.slot(p) == (if p
            == pos {
            Some(value)
        } else {
            old(self).slot(p)
        }) by {
            assert(grown.at(self.offset + p) == old(self).at(self.offset + p));
        }
        assert(self.before() =~= grown.before());
        assert(self.after() =~= grown.after());
    }

    /// Takes the value out of a slot.
    pub(crate) fn take_slot(&mut self, pos: usize) -> (value: Option<T>)
        requires
            old(self).wf(),
            pos < old(self).size,
        ensures
            value == old(self).slot(pos as int),
            final(self).same_shape(*old(self)),
            forall|p: int|
                0 <= p < old(self).size ==> #[trigger] final(self).slot(p) == (if p == pos {
                    None
                } else {
                    old(self).slot(p)
                }),
    {
        let index: usize = self.offset + pos;
        if index >= self.data.len() {
            return None;
        }
        let value: Option<T> = self.data[index].take();
        assert(self.before() =~= old(self).before());
        assert(self.after() =~= old(self).after());
        value
    }

    /// `count` slots from `pos` on, all of which hold values.
    fn run(&self, pos: usize, count: usize) -> (run: &[Option<T>])
        requires
            self.wf(),
            pos + count <= self.size,
            count > 0 ==> self.slot(pos + count - 1) is Some,
        ensures
            run@ == Seq::new(count as nat, |i: int| self.slot(pos + i)),
    {
        let from: usize = if count > 0 {
            self.offset + pos
        } else {
            0
        };
        let run = vstd::slice::slice_subrange(self.data.as_slice(), from, from + count);
        assert(run@ =~= Seq::new(count as nat, |i: int| self.slot(pos + i)));
        run
    }

    /// The slots from `pos` on, all of which hold values: `before` of them up to the end of the
    /// buffer, then `after` from its start.
    pub(crate) fn slices(&self, pos: usize, before: usize, after: usize) -> (slices: (
        &[Option<T>],
        &[Option<T>],
    ))
        requires
            self.wf(),
            pos + before <= self.size,
            after <= self.size,
            before > 0 ==> self.slot(pos + before - 1) is Some,
            after > 0 ==> self.slot(after - 1) is Some,
        ensures
            slices.0@ == Seq::new(before as nat, |i: int| self.slot(pos + i)),
            slices.1@ == Seq::new(after as nat, |i: int| self.slot(i)),
    {
        let first = self.run(pos, before);
        let second = self.run(0, after);
        assert(second@ =~= Seq::new(after as nat, |i: int| self.slot(i)));
        (first, second)
    }

    /// Two buffers have memory of one length, which differs at most in the slots.
    spec fn same_outside(self, other: Self) -> bool {
        &&& self.size == other.size
        &&& self.offset == other.offset
        &&& self.data@.len() == other.data@.len()
        &&& forall|i: int|
            0 <= i < self.data@.len() && !(self.offset <= i < self.offset + self.size)
                ==> #[trigger] self.data@[i] == other.data@[i]
    }

    /// Whatever is written into the slots leaves the shape of a buffer as it is.
    proof fn lemma_shape_kept(before: Self, grown: Self)
        requires
            grown.same_shape(before),
        ensures
            forall|after: Self|
                after.same_outside(grown) ==> #[trigger] after.same_shape(before),
    {
        assert forall|after: Self| after.same_outside(grown) implies #[trigger] after.same_shape(
            before,
        ) by {
            assert(after.before() =~= grown.before());
            assert(after.after() =~= grown.after());
        }
    }

    /// The slots from `pos` on, for writing: `before` of them up to the end of the buffer, then
    /// `after` from its start.
    pub(crate) fn slices_mut(&mut self, pos: usize, before: usize, after: usize) -> (slices: (
        &mut [Option<T>],
        &mut [Option<T>],
    ))
        requires
            old(self).wf(),
            pos + before <= old(self).size,
            after <= pos,
        ensures
            slices.0@ == Seq::new(before as nat, |i: int| old(self).slot(pos + i)),
            slices.1@ == Seq::new(after as nat, |i: int| old(self).slot(i)),
            final(slices.0)@.len() == before && final(slices.1)@.len() == after ==> {
                &&& final(self).same_shape(*old(self))
                &&& forall|p: int|
                    0 <= p < old(self).size ==> #[trigger] final(self).slot(p) == {
                        if pos <= p < pos + before {
                            final(slices.0)@[p - pos]
                        } else if p < after {
                            final(slices.1)@[p]
                        } else {
                            old(self).slot(p)
                        }
                    }
            },
    {
        let offset: usize = self.offset;
        self.grow(offset + pos + before);
        let ghost grown = *self;
        proof {
            Self::lemma_shape_kept(*old(self), grown);
        }
        assert forall|p: int| grown.slot(p) == #[trigger] old(self).slot(p) by {
            assert(grown.at(offset + p) == old(self).at(offset + p));
        }
        let (left, right) = self.data.as_mut_slice().split_at_mut(offset + pos);
        let (first, _) = right.split_at_mut(before);
        let (_, left) = left.split_at_mut(offset);
        let (second, _) = left.split_at_mut(after);
        assert(first@ =~= Seq::new(before as nat, |i: int| grown.slot(pos + i)));
        assert(second@ =~= Seq::new(after as nat, |i: int| grown.slot(i)));
        (first, second)
    }
}

} // verus!
