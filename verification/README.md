# crossbeam-queue

A bounded, single-producer/single-consumer queue, written and verified in
[Verus](https://github.com/verus-lang/verus).

A queue is a ring of slots. The producer writes at the head, the consumer reads at the tail, and
one slot always stays empty between them. Each side keeps a copy of the other side's position and
looks at the real one only when the copy does not show enough slots.

## Layout

- `src/spsc/model.rs`: what a queue holds, as mathematical values
- `src/spsc/buffer.rs`: the slots, and the cache line pads around them
- `src/spsc/shared.rs`: the state of a queue, its construction and its end
- `src/spsc/producer.rs`, `src/spsc/consumer.rs`: the two sides
- `src/spsc/system.rs`, `src/spsc/laws.rs`: a queue with both of its sides, and what holds of it
  however their operations follow each other
- `src/spsc/error.rs`: the errors
- `app/`: handles that share a queue between two threads behind a lock, and a program that
  measures them

## Sharing

The state of a queue is a value of its own, and an operation takes it along with the side that it
belongs to. So the contract of an operation can say exactly what it returns and what the queue
holds afterwards. Whoever moves the two sides to different threads guards that value, as
`app/handles.rs` does with a mutex. The laws in `src/spsc/laws.rs` show that neither side disturbs
what the other is in the middle of writing or reading, down to single accesses.

The blocking copies are written as rounds, between which the queue is given up. The laws say what
has been copied after any number of rounds, and that a round which finds room, or values, goes on.

## The end of a queue

A queue that is dropped drops the values that are left, oldest first, and nothing else that lies
in its slots. It frees a buffer that was allocated with it, and leaves the memory of one that it
was built on alone. `Shared::close` hands the values out and gives such a buffer back.

The contracts say which memory is left, and what is in it, when a queue has been dropped or closed.
Which destructors run, and in what order, is beyond them: `tests/operations.rs` shows that.

A slot is an `Option`, so that it knows whether it holds a value. Slots of elements without a size
take a byte each once they have been used or lent out for writing, and nothing before.

## What is taken on trust

- the size of a padded byte of `crossbeam-utils`
- `core::mem::forget`, `core::mem::take` on a vector and `<[T]>::get_mut`
