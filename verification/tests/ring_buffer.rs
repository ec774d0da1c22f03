use hooch::utils::ring_buffer::LockFreeBoundedRingBuffer;

#[test]
fn test_default() {
    let buffer = LockFreeBoundedRingBuffer::<i32>::default();
    assert!(buffer.capacity() == LockFreeBoundedRingBuffer::<i32>::DEFAULT_BUFFER_SIZE);
    assert!(buffer.is_empty());
}

#[test]
fn test_push() {
    let mut buffer = LockFreeBoundedRingBuffer::<i32>::new(2);
    assert!(buffer.push(2).is_ok());
    assert!(buffer.len() == 1);
    assert!(buffer.push(3).is_ok());
    assert!(buffer.len() == 2);
    assert!(buffer.push(4).is_err());
    assert!(buffer.len() == 2);
}

#[test]
fn test_pop() {
    let mut buffer = LockFreeBoundedRingBuffer::<i32>::new(1);
    assert!(buffer.push(9).is_ok());
    let pop_res = buffer.pop();
    assert!(pop_res.is_some());
    assert!(pop_res.unwrap() == 9);
    assert!(buffer.is_empty());
}

#[test]
fn test_multi_insert_multi_pop() {
    let mut buffer = LockFreeBoundedRingBuffer::<i32>::new(3);
    assert!(buffer.capacity() == 3);
    assert!(buffer.push(10).is_ok());
    assert!(buffer.len() == 1);
    assert!(buffer.push(12).is_ok());
    assert!(buffer.len() == 2);
    let pop_res = buffer.pop();
    assert!(pop_res.is_some());
    assert!(pop_res.unwrap() == 10);
    assert!(buffer.len() == 1);
    assert!(buffer.push(14).is_ok());
    assert!(buffer.len() == 2);
    assert!(buffer.push(15).is_ok());
    assert!(buffer.len() == 3);
    assert!(buffer.push(16).is_err());
    assert!(buffer.len() == 3);
    let pop_res = buffer.pop();
    assert!(pop_res.is_some());
    assert!(pop_res.unwrap() == 12);
    assert!(buffer.len() == 2);
    let pop_res = buffer.pop();
    assert!(pop_res.is_some());
    assert!(pop_res.unwrap() == 14);
    assert!(buffer.len() == 1);
    let pop_res = buffer.pop();
    assert!(pop_res.is_some());
    assert!(pop_res.unwrap() == 15);
    assert!(buffer.is_empty());
    assert!(buffer.push(101).is_ok());
    assert!(buffer.len() == 1);
    let pop_res = buffer.pop();
    assert!(pop_res.is_some());
    assert!(pop_res.unwrap() == 101);
    assert!(buffer.is_empty());
    assert!(buffer.capacity() == 3);
}

#[test]
fn full_buffer_reports_message_and_keeps_items() {
    let mut buffer = LockFreeBoundedRingBuffer::<u8>::new(1);
    assert!(buffer.push(7).is_ok());
    let err = buffer.push(8).unwrap_err();
    assert_eq!(err, "Buffer is full");
    assert_eq!(buffer.pop(), Some(7));
    assert_eq!(buffer.pop(), None);
}

#[test]
fn zero_capacity_buffer_refuses_everything() {
    let mut buffer = LockFreeBoundedRingBuffer::<u8>::new(0);
    assert_eq!(buffer.capacity(), 0);
    assert!(buffer.push(1).is_err());
    assert_eq!(buffer.pop(), None);
    assert!(buffer.is_empty());
}

#[test]
fn pop_from_empty_is_none() {
    let mut buffer = LockFreeBoundedRingBuffer::<String>::new(4);
    assert!(buffer.pop().is_none());
    assert_eq!(buffer.len(), 0);
}

#[test]
fn fifo_order_across_many_wraps() {
    let mut buffer = LockFreeBoundedRingBuffer::<usize>::new(4);
    let mut next_in = 0usize;
    let mut next_out = 0usize;
    for round in 0..50usize {
        let pushes = round % 4 + 1;
        for _ in 0..pushes {
            if buffer.push(next_in).is_ok() {
                next_in += 1;
            }
        }
        let pops = (round + 1) % 3 + 1;
        for _ in 0..pops {
            if let Some(v) = buffer.pop() {
                assert_eq!(v, next_out);
                next_out += 1;
            }
        }
        assert_eq!(buffer.len(), next_in - next_out);
        assert!(buffer.len() <= buffer.capacity());
    }
}

#[test]
fn push_into_nonempty_does_not_change_next_pop() {
    let mut buffer = LockFreeBoundedRingBuffer::<i32>::new(3);
    buffer.push(1).unwrap();
    buffer.push(2).unwrap();
    assert_eq!(buffer.pop(), Some(1));
    assert_eq!(buffer.pop(), Some(2));
}
