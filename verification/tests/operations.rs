use core::mem;
use crossbeam_queue::spsc::{self, Buffer, TryPopError, TryPushError};
use crossbeam_utils::CachePadded;
use std::cell::RefCell;
use std::rc::Rc;

#[test]
fn pushes_and_pops_in_order() {
    let (mut q, mut p, mut c) = spsc::with_capacity(2);

    assert!(p.try_push(&mut q, 1).is_ok());
    assert!(p.try_push(&mut q, 2).is_ok());
    assert!(p.try_push(&mut q, 3).is_err());

    assert_eq!(c.try_pop(&mut q), Ok(1));
    assert_eq!(c.try_pop(&mut q), Ok(2));
    assert!(c.try_pop(&mut q).is_err());
}

#[test]
fn reports_a_full_and_an_empty_queue() {
    let (mut q, mut p, mut c) = spsc::with_capacity(1);
    assert_eq!(p.try_push(&mut q, 10), Ok(()));
    assert_eq!(p.try_push(&mut q, 20), Err(TryPushError::Full(20)));
    assert_eq!(c.try_pop(&mut q), Ok(10));
    assert_eq!(c.try_pop(&mut q), Err(TryPopError::Empty));
}

#[test]
fn a_queue_of_no_capacity_is_full_and_empty() {
    let (mut q, mut p, mut c) = spsc::with_capacity(0);
    assert_eq!(p.peek_max(&q), 0);
    assert_eq!(c.peek_max(&q), 0);
    assert_eq!(p.try_push(&mut q, 1u8), Err(TryPushError::Full(1)));
    assert_eq!(c.try_pop(&mut q), Err(TryPopError::Empty));
    assert_eq!(p.copy_from_slice(&mut q, &[1, 2]), 0);
    assert_eq!(c.clear(&mut q), 0);
}

#[test]
fn errors_have_messages() {
    assert_eq!(TryPopError::Empty.to_string(), "queue is empty");
    assert_eq!(TryPushError::Full(3).to_string(), "queue is full");
}

#[test]
fn producer_peek_does_not_look_at_the_tail() {
    let (mut q, mut p, mut c) = spsc::with_capacity(1);
    assert_eq!(p.peek(&q), 1);
    assert_eq!(p.try_push(&mut q, 10), Ok(()));
    assert_eq!(c.try_pop(&mut q), Ok(10));

    // Producer has not been refreshed yet
    assert_eq!(p.peek(&q), 0);
    assert_eq!(p.peek_min(&q, 0), 0);
    // Enforce refresh of producer
    assert_eq!(p.peek_min(&q, 1), 1);
    assert_eq!(p.peek_min(&q, 2), 1);
    assert_eq!(p.peek(&q), 1);
}

#[test]
fn producer_peek_max_looks_at_the_tail() {
    let (mut q, mut p, mut c) = spsc::with_capacity(1);
    assert_eq!(p.try_push(&mut q, 10), Ok(()));
    assert_eq!(c.try_pop(&mut q), Ok(10));
    assert_eq!(p.peek_max(&q), 1);
}

#[test]
fn consumer_peek_does_not_look_at_the_head() {
    let (mut q, mut p, mut c) = spsc::with_capacity(3);
    assert_eq!(p.try_push(&mut q, 1), Ok(()));
    assert_eq!(p.try_push(&mut q, 2), Ok(()));
    assert_eq!(c.peek(&q), 0);
    assert_eq!(c.peek_min(&q, 0), 0);
    assert_eq!(c.peek_min(&q, 1), 2);
    assert_eq!(p.try_push(&mut q, 3), Ok(()));
    assert_eq!(c.peek(&q), 2);
    assert_eq!(c.peek_max(&q), 3);
}

#[test]
fn slices_wrap_around_the_end_of_the_buffer() {
    let (mut q, mut p, mut c) = spsc::with_capacity(2);
    assert_eq!(p.try_push(&mut q, 1), Ok(()));
    assert_eq!(p.try_push(&mut q, 2), Ok(()));
    assert_eq!(c.try_pop(&mut q), Ok(1));
    assert_eq!(p.try_push(&mut q, 3), Ok(()));
    assert_eq!(c.try_pop(&mut q), Ok(2));

    // Wrap around after reaching internal buffer size 3 = 2 + 1
    assert_eq!(p.try_push(&mut q, 4), Ok(()));

    let (s1, s2) = c.readable_slices(&q, 2);
    assert_eq!(s1, &[Some(3)]);
    assert_eq!(s2, &[Some(4)]);

    c.skip_readable(&mut q, 1);
    assert_eq!(p.try_push(&mut q, 5), Ok(()));

    let (s1, s2) = c.readable_slices(&q, 2);
    assert_eq!(s1, &[Some(4), Some(5)]);
    assert_eq!(s2, &[]);

    c.skip_readable(&mut q, 2);

    let (s1, s2) = c.readable_slices(&q, 1);
    assert_eq!(s1, &[]);
    assert_eq!(s2, &[]);
}

#[test]
fn slots_are_written_in_place() {
    let (mut q, mut p, mut c) = spsc::with_capacity(3);
    assert_eq!(p.try_push(&mut q, 1), Ok(()));
    assert_eq!(p.try_push(&mut q, 2), Ok(()));
    assert_eq!(c.try_pop(&mut q), Ok(1));
    assert_eq!(c.try_pop(&mut q), Ok(2));

    let (s1, s2) = p.writable_slices(&mut q, 3);
    assert_eq!((s1.len(), s2.len()), (2, 1));
    s1[0] = Some(3);
    s1[1] = Some(4);
    s2[0] = Some(5);
    assert_eq!(c.peek_max(&q), 0);
    p.skip_writable(&mut q, 2);
    assert_eq!(c.peek_max(&q), 2);
    // What was written ahead of time is still there
    p.skip_writable(&mut q, 1);

    assert_eq!(c.try_pop(&mut q), Ok(3));
    assert_eq!(c.try_pop(&mut q), Ok(4));
    assert_eq!(c.try_pop(&mut q), Ok(5));
    assert_eq!(c.try_pop(&mut q), Err(TryPopError::Empty));
}

#[test]
fn raw_slices_hold_values_that_are_not_copied() {
    let (mut q, mut p, mut c) = spsc::with_capacity(2);
    let (s1, s2) = p.writable_slices_raw(&mut q, 1);
    assert_eq!((s1.len(), s2.len()), (2, 0));
    s1[0] = Some(String::from("a"));
    p.skip_writable(&mut q, 1);
    let (s1, s2) = c.readable_slices_raw(&q, 1);
    assert_eq!(s1, &[Some(String::from("a"))]);
    assert!(s2.is_empty());
    assert_eq!(c.try_pop(&mut q), Ok(String::from("a")));
}

#[test]
fn a_hint_of_none_shows_only_what_is_known() {
    let (mut q, mut p, mut c) = spsc::with_capacity(1);
    assert_eq!(p.try_push(&mut q, 1), Ok(()));
    let (s1, s2) = c.readable_slices(&q, 0);
    assert_eq!((s1.len(), s2.len()), (0, 0));
    assert_eq!(c.try_pop(&mut q), Ok(1));
    let (s1, s2) = p.writable_slices(&mut q, 0);
    assert_eq!((s1.len(), s2.len()), (0, 0));
}

#[test]
fn copies_as_much_as_there_is_room_for() {
    let (mut q, mut p, mut c) = spsc::with_capacity(4);
    assert_eq!(p.copy_from_slice(&mut q, &[1, 2, 3]), 3);
    assert_eq!(p.copy_from_slice(&mut q, &[4, 5, 6]), 1);
    assert_eq!(p.copy_from_slice(&mut q, &[7]), 0);
    assert_eq!(c.try_pop(&mut q), Ok(1));
    assert_eq!(c.try_pop(&mut q), Ok(2));
    // Over the end of the buffer
    assert_eq!(p.copy_from_slice(&mut q, &[8, 9, 10]), 2);
    assert_eq!(q.close().0, vec![3, 4, 8, 9]);
}

#[test]
fn copies_into_a_longer_slice_fill_a_part_of_it() {
    let (mut q, mut p, mut c) = spsc::with_capacity(4);
    assert_eq!(p.copy_from_slice(&mut q, &[1, 2, 3]), 3);
    let mut dst = [0; 5];
    assert_eq!(c.copy_into_slice(&mut q, &mut dst), 3);
    assert_eq!(dst, [1, 2, 3, 0, 0]);
    assert_eq!(c.copy_into_slice(&mut q, &mut dst), 0);
    assert_eq!(dst, [1, 2, 3, 0, 0]);
}

#[test]
fn copies_into_a_shorter_slice_leave_the_rest() {
    let (mut q, mut p, mut c) = spsc::with_capacity(4);
    assert_eq!(p.copy_from_slice(&mut q, &[1, 2, 3, 4]), 4);
    let mut dst = [0; 3];
    assert_eq!(c.copy_into_slice(&mut q, &mut dst), 3);
    assert_eq!(dst, [1, 2, 3]);
    assert_eq!(p.copy_from_slice(&mut q, &[5, 6, 7]), 3);
    let mut dst = [0; 4];
    assert_eq!(c.copy_into_slice(&mut q, &mut dst), 4);
    assert_eq!(dst, [4, 5, 6, 7]);
}

#[test]
fn blocking_copies_move_the_whole_slice() {
    let (mut q, mut p, mut c) = spsc::with_capacity(4);
    assert_eq!(p.copy_from_slice_blocking(&mut q, &[1, 2, 3], 0), 3);
    let mut dst = [0; 2];
    assert_eq!(c.copy_into_slice_blocking(&mut q, &mut dst, 0), 2);
    assert_eq!(dst, [1, 2]);
    assert_eq!(p.copy_from_slice_blocking(&mut q, &[4, 5, 6], 0), 3);
    let mut dst = [0; 4];
    assert_eq!(c.copy_into_slice_blocking(&mut q, &mut dst, 0), 4);
    assert_eq!(dst, [3, 4, 5, 6]);
    assert_eq!(p.copy_from_slice_blocking(&mut q, &[], 0), 0);
    assert_eq!(c.copy_into_slice_blocking(&mut q, &mut [], 0), 0);
    assert_eq!(c.peek_max(&q), 0);
}

#[test]
fn a_blocking_copy_in_goes_on_where_it_stopped() {
    let (mut q, mut p, mut c) = spsc::with_capacity(2);
    assert_eq!(p.try_push(&mut q, 10), Ok(()));
    let src = [11, 12, 13, 14];
    let mut written = 0;
    let mut popped = Vec::new();
    let mut rounds = 0;
    while written < src.len() {
        let done = p.copy_from_slice_blocking(&mut q, &src, written);
        assert!(done > written);
        written = done;
        rounds += 1;
        // A full queue takes nothing more
        if written < src.len() {
            assert_eq!(p.copy_from_slice_blocking(&mut q, &src, written), written);
        }
        popped.push(c.try_pop(&mut q).unwrap());
    }
    assert_eq!(rounds, 4);
    popped.extend(q.close().0);
    assert_eq!(popped, vec![10, 11, 12, 13, 14]);
}

#[test]
fn a_blocking_copy_out_goes_on_where_it_stopped() {
    let (mut q, mut p, mut c) = spsc::with_capacity(2);
    let mut dst = [0; 3];
    assert_eq!(c.copy_into_slice_blocking(&mut q, &mut dst, 0), 0);
    assert_eq!(p.copy_from_slice(&mut q, &[1, 2]), 2);
    assert_eq!(c.copy_into_slice_blocking(&mut q, &mut dst, 0), 2);
    assert_eq!(dst, [1, 2, 0]);
    assert_eq!(p.copy_from_slice(&mut q, &[3, 4]), 2);
    assert_eq!(c.copy_into_slice_blocking(&mut q, &mut dst, 2), 3);
    assert_eq!(dst, [1, 2, 3]);
    // No more is taken than the slice holds
    assert_eq!(q.close().0, vec![4]);
}

#[test]
fn clear_discards_everything() {
    let (mut q, mut p, mut c) = spsc::with_capacity(5);
    assert_eq!(p.copy_from_slice(&mut q, &[1, 2, 3]), 3);
    assert_eq!(c.clear(&mut q), 3);
    assert_eq!(c.try_pop(&mut q), Err(TryPopError::Empty));
    assert_eq!(p.peek_max(&q), 5);
}

#[test]
fn skipped_values_are_not_dropped() {
    let value = Rc::new(());
    let (mut q, mut p, mut c) = spsc::with_capacity(2);
    assert!(p.try_push(&mut q, value.clone()).is_ok());
    assert!(p.try_push(&mut q, value.clone()).is_ok());
    assert_eq!(c.peek_max(&q), 2);
    c.skip_readable(&mut q, 1);
    drop(q);
    // The skipped value still counts, the other one does not
    assert_eq!(Rc::strong_count(&value), 2);
}

struct Noted(u32, Rc<RefCell<Vec<u32>>>);

impl Drop for Noted {
    fn drop(&mut self) {
        self.1.borrow_mut().push(self.0);
    }
}

#[test]
fn close_takes_what_is_left_oldest_first() {
    let notes = Rc::new(RefCell::new(Vec::new()));
    let (mut q, mut p, mut c) = spsc::with_capacity(3);
    for i in 0..3 {
        assert!(p.try_push(&mut q, Noted(i, notes.clone())).is_ok());
    }
    for _ in 0..2 {
        assert!(c.try_pop(&mut q).is_ok());
    }
    // Over the end of the buffer
    for i in 3..5 {
        assert!(p.try_push(&mut q, Noted(i, notes.clone())).is_ok());
    }
    assert_eq!(*notes.borrow(), vec![0, 1]);
    let (values, buffer) = q.close();
    assert!(buffer.is_none());
    assert_eq!(values.len(), 3);
    assert_eq!(*notes.borrow(), vec![0, 1]);
    drop(values);
    assert_eq!(*notes.borrow(), vec![0, 1, 2, 3, 4]);
}

#[test]
fn a_dropped_queue_drops_what_is_left_oldest_first() {
    let notes = Rc::new(RefCell::new(Vec::new()));
    let (mut q, mut p, mut c) = spsc::with_capacity(4);
    for i in 0..4 {
        assert!(p.try_push(&mut q, Noted(i, notes.clone())).is_ok());
    }
    for _ in 0..3 {
        assert!(c.try_pop(&mut q).is_ok());
    }
    // Over the end of the buffer
    for i in 4..6 {
        assert!(p.try_push(&mut q, Noted(i, notes.clone())).is_ok());
    }
    let (s1, _) = p.writable_slices_raw(&mut q, 1);
    s1[0] = Some(Noted(100, notes.clone()));
    drop(q);
    assert_eq!(*notes.borrow(), vec![0, 1, 2, 3, 4, 5]);
}

#[test]
fn a_dropped_queue_leaves_a_given_buffer_alone() {
    let notes = Rc::new(RefCell::new(Vec::new()));
    let noted = |i: u32| Some(Noted(i, notes.clone()));
    let buffer = Buffer { size: 3, data: vec![noted(1), noted(2), noted(3), noted(4)], offset: 1 };
    let (mut q, mut p, mut c) = spsc::new::<Noted, ()>(buffer);
    for i in 5..7 {
        assert!(p.try_push(&mut q, Noted(i, notes.clone())).is_ok());
    }
    assert!(c.try_pop(&mut q).is_ok());
    drop(q);
    assert_eq!(*notes.borrow(), vec![5, 6]);
}

#[test]
fn slots_outside_the_queue_are_not_dropped() {
    let notes = Rc::new(RefCell::new(Vec::new()));
    let (mut q, mut p, mut c) = spsc::with_capacity(3);
    let (s1, _) = p.writable_slices_raw(&mut q, 3);
    for i in 0..3 {
        s1[i] = Some(Noted(10 + i as u32, notes.clone()));
    }
    // Written over without being dropped
    assert!(p.try_push(&mut q, Noted(0, notes.clone())).is_ok());
    assert!(notes.borrow().is_empty());
    assert_eq!(c.try_pop(&mut q).unwrap().0, 0);
    assert_eq!(*notes.borrow(), vec![0]);
    p.skip_writable(&mut q, 1);
    drop(q.close());
    // Of those written ahead of time only the one that was committed
    assert_eq!(*notes.borrow(), vec![0, 11]);
}

#[test]
fn a_given_buffer_is_given_back() {
    let notes = Rc::new(RefCell::new(Vec::new()));
    let noted = |i: u32| Some(Noted(i, notes.clone()));
    let buffer = Buffer { size: 3, data: vec![noted(1), noted(2), noted(3), None, noted(4)], offset: 1 };
    let (mut q, mut p, _) = spsc::new::<Noted, ()>(buffer);
    assert!(p.try_push(&mut q, Noted(5, notes.clone())).is_ok());
    let (values, buffer) = q.close();
    assert_eq!(values.len(), 1);
    assert_eq!(values[0].0, 5);
    let buffer = buffer.unwrap();
    assert_eq!((buffer.size, buffer.offset), (3, 1));
    let held: Vec<Option<u32>> = buffer.data.iter().map(|slot| slot.as_ref().map(|n| n.0)).collect();
    assert_eq!(held, vec![Some(1), None, Some(3), None, Some(4)]);
    assert!(notes.borrow().is_empty());
    drop(values);
    assert_eq!(*notes.borrow(), vec![5]);
}

#[test]
fn a_huge_queue_of_nothing_takes_no_memory() {
    let capacity = usize::MAX - 1000;
    let (mut q, mut p, mut c) = spsc::with_capacity::<()>(capacity);
    assert_eq!(p.capacity(&q), capacity);
    assert_eq!(p.peek_max(&q), capacity);
    assert_eq!(p.try_push(&mut q, ()), Ok(()));
    assert_eq!(p.copy_from_slice(&mut q, &[(), ()]), 2);
    assert_eq!(p.peek(&q), capacity - 3);
    assert_eq!(c.try_pop(&mut q), Ok(()));
    assert_eq!(c.clear(&mut q), 2);
    assert_eq!(c.try_pop(&mut q), Err(TryPopError::Empty));
    assert!(q.close().0.is_empty());
}

#[test]
fn short_memory_grows() {
    let buffer = Buffer { size: 3, data: Vec::new(), offset: 2 };
    let (mut q, mut p, mut c) = spsc::new::<i32, ()>(buffer);
    for i in 0..7 {
        assert_eq!(p.try_push(&mut q, i), Ok(()));
        let (s1, s2) = c.readable_slices(&q, 1);
        assert_eq!((s1, s2), (&[Some(i)][..], &[][..]));
        assert_eq!(c.try_pop(&mut q), Ok(i));
    }
    let (values, buffer) = q.close();
    assert!(values.is_empty());
    assert_eq!(buffer.unwrap().data, vec![None; 5]);
}

#[test]
fn each_side_acquires_slots_from_its_position() {
    let (mut q, mut p, mut c) = spsc::with_capacity(2);
    assert_eq!(p.acquire_writable(&q, 0), (0, 2));
    assert_eq!(p.try_push(&mut q, 1), Ok(()));
    assert_eq!(p.try_push(&mut q, 2), Ok(()));
    assert_eq!(c.acquire_readable(&q, 0), (0, 0));
    assert_eq!(c.acquire_readable(&q, 3), (0, 2));
    assert_eq!(c.try_pop(&mut q), Ok(1));
    assert_eq!(c.acquire_readable(&q, 1), (1, 1));
    assert_eq!(p.acquire_writable(&q, 0), (2, 0));
    assert_eq!(p.acquire_writable(&q, 1), (2, 1));
}

#[test]
fn a_given_buffer_backs_a_queue() {
    let buffer = Buffer { size: 3, data: vec![None, None, None], offset: 0 };
    let (mut q, mut p, mut c) = spsc::new::<i32, ()>(buffer);
    assert_eq!(p.capacity(&q), 2);
    assert_eq!(p.try_push(&mut q, 1), Ok(()));
    assert_eq!(p.try_push(&mut q, 2), Ok(()));
    assert_eq!(p.try_push(&mut q, 3), Err(TryPushError::Full(3)));
    assert_eq!(c.try_pop(&mut q), Ok(1));
    assert_eq!(q.close().0, vec![2]);
}

#[test]
fn a_part_of_a_given_buffer_backs_a_queue() {
    let buffer = Buffer { size: 2, data: vec![Some(7), Some(8), Some(9), Some(10)], offset: 1 };
    let (mut q, mut p, mut c) = spsc::new::<i32, ()>(buffer);
    assert_eq!(c.try_pop(&mut q), Err(TryPopError::Empty));
    for i in 0..4 {
        assert_eq!(p.try_push(&mut q, i), Ok(()));
        assert_eq!(c.try_pop(&mut q), Ok(i));
    }
}

#[test]
fn buffers_are_padded_by_a_cache_line_on_both_sides() {
    let line = mem::size_of::<CachePadded<u8>>();
    assert_eq!(Buffer::<u8>::data_cache_pad(), line);
    assert_eq!(Buffer::<()>::data_cache_pad(), line);
    assert_eq!(Buffer::<u32>::data_cache_pad(), line / 4);
    assert_eq!(Buffer::<[u8; 3]>::data_cache_pad(), 1 + (line - 1) / 3);
    assert_eq!(Buffer::<[u8; 1000]>::data_cache_pad(), 1);

    // The least number of elements that cover a line
    let pad = Buffer::<[u8; 3]>::data_cache_pad();
    assert!(pad * 3 >= line && (pad - 1) * 3 < line);

    assert_eq!(Buffer::<u8>::capacity(10), 10 + 2 * line);
    assert_eq!(Buffer::<[u8; 1000]>::capacity(10), 12);
}

#[test]
fn buffers_are_allocated_and_freed() {
    let mut buffer = Buffer::<u64>::allocate(5);
    assert_eq!(buffer.size, 5);
    assert_eq!(buffer.offset, Buffer::<u64>::data_cache_pad());
    assert_eq!(buffer.data.len(), Buffer::<u64>::capacity(5));
    assert!(buffer.data.iter().all(|slot| slot.is_none()));
    assert!(Buffer::<()>::allocate(5).data.is_empty());
    buffer.free();
    assert_eq!(buffer.size, 0);
    assert!(buffer.data.is_empty());
}

#[test]
fn a_freed_buffer_does_not_drop_its_slots() {
    let value = Rc::new(());
    let mut buffer = Buffer { size: 1, data: vec![Some(value.clone())], offset: 0 };
    buffer.free();
    assert_eq!(Rc::strong_count(&value), 2);
}

#[test]
fn positions_wrap_around() {
    let (q, _, _) = spsc::with_capacity::<u8>(4);
    assert_eq!(q.capacity(), 4);
    assert_eq!(q.skip(1, 3), (4, (3, 0)));
    assert_eq!(q.skip(1, 4), (0, (4, 0)));
    assert_eq!(q.skip(3, 4), (2, (2, 2)));
    assert_eq!(q.skip(0, 0), (0, (0, 0)));
    assert_eq!(q.skip(q.skip(3, 1).0, 2).0, q.skip(3, 3).0);

    assert_eq!(q.readable_capacity(3, 1), 2);
    assert_eq!(q.readable_capacity(1, 3), 3);
    assert_eq!(q.readable_capacity(2, 2), 0);
    assert_eq!(q.writable_capacity(3, 1), 2);
    assert_eq!(q.writable_capacity(1, 3), 1);
    assert_eq!(q.writable_capacity(2, 2), 4);
    for head in 0..5 {
        for tail in 0..5 {
            let sum = q.readable_capacity(head, tail) + q.writable_capacity(head, tail);
            assert_eq!(sum, 4);
        }
    }
}

#[test]
fn each_side_keeps_its_place_while_the_other_moves() {
    let (mut q, mut p, mut c) = spsc::with_capacity(3);
    assert_eq!(p.copy_from_slice(&mut q, &[1, 2]), 2);

    // The consumer moves between a write and its commit
    let (s1, _) = p.writable_slices(&mut q, 1);
    s1[0] = Some(3);
    assert_eq!(c.try_pop(&mut q), Ok(1));
    p.skip_writable(&mut q, 1);

    // The producer moves between a look and the read
    assert_eq!(c.peek(&q), 1);
    assert_eq!(p.try_push(&mut q, 4), Ok(()));
    let (s1, _) = c.readable_slices(&q, 0);
    assert_eq!(s1, &[Some(2)]);
    c.skip_readable(&mut q, 1);

    assert_eq!(q.close().0, vec![3, 4]);
}

#[test]
fn values_leave_in_the_order_in_which_they_entered() {
    let (mut q, mut p, mut c) = spsc::with_capacity(3);
    let mut next_in = 0;
    let mut next_out = 0;
    for round in 0..50 {
        for _ in 0..(round % 5) {
            if p.try_push(&mut q, next_in).is_ok() {
                next_in += 1;
            }
        }
        for _ in 0..(round % 4) {
            if let Ok(value) = c.try_pop(&mut q) {
                assert_eq!(value, next_out);
                next_out += 1;
            }
        }
        assert_eq!(c.peek_max(&q), next_in - next_out);
        assert!(next_in - next_out <= 3);
    }
    assert!(next_out > 50);
}
