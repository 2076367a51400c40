use weavers::{ResultBuffer, StoreError, TaskQueue};

#[test]
fn queue_hands_out_each_row_once_then_closes() {
    let mut q = TaskQueue::new(3);
    assert_eq!(q.remaining(), 3);
    assert_eq!(q.claim(), Some(0));
    assert_eq!(q.claim(), Some(1));
    assert_eq!(q.claim(), Some(2));
    assert_eq!(q.remaining(), 0);
    assert_eq!(q.claim(), None);
    assert_eq!(q.claim(), None);
}

#[test]
fn empty_queue_is_closed() {
    let mut q = TaskQueue::new(0);
    assert_eq!(q.claim(), None);
}

#[test]
fn results_do_not_depend_on_completion_order() {
    let f = |i: usize| (i as f32) * 0.5 + 1.0;
    let n = 5;

    let mut sequential = ResultBuffer::new(n);
    for i in 0..n {
        sequential.store(i, f(i)).unwrap();
    }
    let mut shuffled = ResultBuffer::new(n);
    for i in [3, 0, 4, 2, 1] {
        shuffled.store(i, f(i)).unwrap();
    }
    let a = sequential.into_values().unwrap();
    let b = shuffled.into_values().unwrap();
    let a_bits: Vec<u32> = a.iter().map(|x| x.to_bits()).collect();
    let b_bits: Vec<u32> = b.iter().map(|x| x.to_bits()).collect();
    assert_eq!(a_bits, b_bits);
    assert_eq!(a, vec![1.0, 1.5, 2.0, 2.5, 3.0]);
}

#[test]
fn slot_is_written_once() {
    let mut buf = ResultBuffer::new(2);
    assert_eq!(buf.len(), 2);
    assert_eq!(buf.store(1, 7_i64), Ok(()));
    assert_eq!(buf.store(1, 8), Err(StoreError::AlreadyWritten));
    assert_eq!(buf.store(2, 9), Err(StoreError::OutOfRange));
    assert!(!buf.is_complete());
    assert_eq!(buf.store(0, 6), Ok(()));
    assert!(buf.is_complete());
    assert_eq!(buf.into_values(), Some(vec![6, 7]));
}

#[test]
fn incomplete_buffer_gives_no_values() {
    let mut buf = ResultBuffer::new(3);
    buf.store(0, 1_u8).unwrap();
    buf.store(2, 3).unwrap();
    assert_eq!(buf.into_values(), None);
}

#[test]
fn queue_over_the_largest_range_starts_at_zero() {
    let mut q = TaskQueue::new(usize::MAX);
    assert_eq!(q.claim(), Some(0));
    assert_eq!(q.claim(), Some(1));
    assert_eq!(q.remaining(), usize::MAX - 2);
}
