use vrift::ring_buffer::{RingBuffer, RingBufferStore, Task, BUFFER_SIZE};

#[test]
fn test_ring_buffer_fifo() {
    let mut rb = RingBuffer::new();
    assert_eq!(rb.depth(), 0);
    assert!(rb.pop().is_none());
    assert!(rb.push(Task::ReclaimFd(3, 0x1000)).is_ok());
    assert!(rb.push(Task::Log("hello".to_string())).is_ok());
    assert!(rb.push(Task::Reingest { vpath: "/v/a".to_string(), temp_path: "/t/a".to_string() }).is_ok());
    assert_eq!(rb.depth(), 3);
    assert!(matches!(rb.pop(), Some(Task::ReclaimFd(3, 0x1000))));
    match rb.pop() {
        Some(Task::Log(m)) => assert_eq!(m, "hello"),
        _ => panic!("expected the log task"),
    }
    match rb.pop() {
        Some(Task::Reingest { vpath, temp_path }) => {
            assert_eq!(vpath, "/v/a");
            assert_eq!(temp_path, "/t/a");
        }
        _ => panic!("expected the reingest task"),
    }
    assert!(rb.pop().is_none());
    // pushes, pops, push errors, max depth
    assert_eq!(rb.stats(), (3, 3, 0, 3));
}

#[test]
fn test_ring_buffer_full_and_batch() {
    let mut rb = RingBuffer::new();
    for i in 0..BUFFER_SIZE {
        assert!(rb.push(Task::ReclaimFd(i as u32, 0)).is_ok());
    }
    assert_eq!(rb.depth(), BUFFER_SIZE);
    match rb.push(Task::ReclaimFd(99999, 0)) {
        Err(Task::ReclaimFd(99999, 0)) => {}
        _ => panic!("a full buffer hands the task back"),
    }
    assert_eq!(rb.stats(), (BUFFER_SIZE as u64, 0, 1, BUFFER_SIZE as u64));
    let mut batch = Vec::new();
    assert_eq!(rb.pop_batch(&mut batch, 10), 10);
    assert_eq!(batch.len(), 10);
    assert!(matches!(batch[0], Task::ReclaimFd(0, 0)));
    assert!(matches!(batch[9], Task::ReclaimFd(9, 0)));
    assert_eq!(rb.depth(), BUFFER_SIZE - 10);
    // batches do not count as pops
    assert_eq!(rb.stats().1, 0);
    // wrap around: the next push lands in a freed slot
    assert!(rb.push(Task::ReclaimFd(7777, 0)).is_ok());
    let mut rest = Vec::new();
    assert_eq!(rb.pop_batch(&mut rest, usize::MAX), BUFFER_SIZE - 9);
    assert!(matches!(rest[0], Task::ReclaimFd(10, 0)));
    assert!(matches!(rest[rest.len() - 1], Task::ReclaimFd(7777, 0)));
    assert_eq!(rb.depth(), 0);
}

#[test]
fn test_ring_buffer_store_uninitialized() {
    let store = RingBufferStore::new();
    assert!(store.get().is_none());
}

#[test]
fn test_ring_buffer_depth_and_counters_over_a_run() {
    let mut rb = RingBuffer::new();
    let mut ok_pushes = 0u64;
    let mut ok_pops = 0u64;
    let mut refused = 0u64;
    let mut max_depth = 0u64;
    // fill past capacity, drain a part, refill
    for round in 0..3 {
        for i in 0..4000 {
            match rb.push(Task::Log(format!("{}-{}", round, i))) {
                Ok(()) => {
                    ok_pushes += 1;
                    max_depth = max_depth.max(rb.depth() as u64);
                }
                Err(_) => refused += 1,
            }
        }
        for _ in 0..2500 {
            if rb.pop().is_some() {
                ok_pops += 1;
            }
        }
        assert_eq!(rb.depth() as u64, ok_pushes - ok_pops);
        assert!(rb.depth() <= BUFFER_SIZE);
    }
    assert_eq!(rb.stats(), (ok_pushes, ok_pops, refused, max_depth));
    assert_eq!(max_depth, BUFFER_SIZE as u64);
    assert!(refused > 0);
}

#[test]
fn test_ring_buffer_fifo_at_capacity() {
    let mut rb = RingBuffer::new();
    for i in 0..BUFFER_SIZE {
        assert!(rb.push(Task::Log(i.to_string())).is_ok());
    }
    for i in 0..BUFFER_SIZE {
        match rb.pop() {
            Some(Task::Log(m)) => assert_eq!(m, i.to_string()),
            _ => panic!("expected task {}", i),
        }
    }
    assert!(rb.pop().is_none());
}
