use crossbeam_queue::spsc::{self, TryPushError};
use crossbeam_utils::thread::scope;
use crossbeam_utils::Backoff;
use rand::{thread_rng, Rng};
use std::sync::atomic::{AtomicUsize, Ordering};
use std::sync::{Arc, Mutex};

const COUNT: usize = 100_000;
const RUNS: usize = 100;

#[test]
fn smoke() {
    let (mut q, mut p, mut c) = spsc::with_capacity(1);

    assert!(p.try_push(&mut q, 7).is_ok());
    assert_eq!(Ok(7), c.try_pop(&mut q));

    assert!(p.try_push(&mut q, 8).is_ok());
    assert_eq!(Err(TryPushError::Full(9)), p.try_push(&mut q, 9));
    assert_eq!(Ok(8), c.try_pop(&mut q));
    assert!(c.try_pop(&mut q).is_err());
}

#[test]
fn capacity() {
    for i in 0..10 {
        let (q, p, c) = spsc::with_capacity::<i32>(i);
        assert_eq!(p.capacity(&q), i);
        assert_eq!(c.capacity(&q), i);
    }
}

#[test]
fn parallel() {
    let (q, mut p, mut c) = spsc::with_capacity(3);
    let q = Mutex::new(q);
    let q = &q;

    scope(|s| {
        s.spawn(move |_| {
            for i in 0..COUNT {
                let backoff = Backoff::new();
                loop {
                    let popped = c.try_pop(&mut q.lock().unwrap());
                    if let Ok(x) = popped {
                        assert_eq!(x, i);
                        break;
                    }
                    backoff.snooze();
                }
            }
            assert!(c.try_pop(&mut q.lock().unwrap()).is_err());
        });

        s.spawn(move |_| {
            for i in 0..COUNT {
                let backoff = Backoff::new();
                while p.try_push(&mut q.lock().unwrap(), i).is_err() {
                    backoff.snooze();
                }
            }
        });
    })
    .unwrap();
}

#[derive(Debug)]
struct DropCounter(Arc<AtomicUsize>);

impl Drop for DropCounter {
    fn drop(&mut self) {
        self.0.fetch_add(1, Ordering::SeqCst);
    }
}

#[test]
fn drops() {
    let mut rng = thread_rng();

    for _ in 0..RUNS {
        let steps = rng.gen_range(0..10_000);
        let additional = rng.gen_range(0..50);

        let drops = Arc::new(AtomicUsize::new(0));
        let (q, mut p, mut c) = spsc::with_capacity(50);
        let q = Mutex::new(q);

        let mut p = scope(|s| {
            let q = &q;
            let drops = &drops;
            s.spawn(move |_| {
                for _ in 0..steps {
                    let backoff = Backoff::new();
                    while c.try_pop(&mut q.lock().unwrap()).is_err() {
                        backoff.snooze();
                    }
                }
            });

            s.spawn(move |_| {
                for _ in 0..steps {
                    let backoff = Backoff::new();
                    while p
                        .try_push(&mut q.lock().unwrap(), DropCounter(drops.clone()))
                        .is_err()
                    {
                        drops.fetch_sub(1, Ordering::SeqCst);
                        backoff.snooze();
                    }
                }
                p
            })
            .join()
            .unwrap()
        })
        .unwrap();

        let mut q = q.into_inner().unwrap();
        for _ in 0..additional {
            assert!(p.try_push(&mut q, DropCounter(drops.clone())).is_ok());
        }

        assert_eq!(drops.load(Ordering::SeqCst), steps);
        drop(q);
        assert_eq!(drops.load(Ordering::SeqCst), steps + additional);
    }
}
