use bench_telemetry::ring_buffer::RingBuffer;

#[test]
fn test_push_pop() {
    let mut buf = RingBuffer::new(3);

    buf.push(3);
    buf.push(4);
    buf.push(5);
    buf.push(1);

    assert_eq!(buf.pop(), Some(4));
    assert_eq!(buf.pop(), Some(5));
    assert_eq!(buf.pop(), Some(1));
    assert_eq!(buf.pop(), None);
}

#[test]
fn test_iter() {
    let mut buf = RingBuffer::new(3);

    buf.push(3.1);
    buf.push(4.2);
    buf.push(5.3);
    buf.push(1.4);

    assert_eq!(buf.next(), Some(4.2));
    assert_eq!(buf.next(), Some(5.3));
    assert_eq!(buf.next(), Some(1.4));
    assert_eq!(buf.next(), None);
}

#[test]
fn empty_buffer_pops_nothing() {
    let mut buf: RingBuffer<u8> = RingBuffer::new(4);
    assert_eq!(buf.len(), 0);
    assert_eq!(buf.pop(), None);
    assert_eq!(buf.next(), None);
}

#[test]
fn buffer_below_its_limit_keeps_everything_in_order() {
    let mut buf = RingBuffer::new(5);
    buf.push("a");
    buf.push("b");
    buf.push("c");
    assert_eq!(buf.len(), 3);
    assert_eq!(buf.pop(), Some("a"));
    assert_eq!(buf.pop(), Some("b"));
    assert_eq!(buf.pop(), Some("c"));
    assert_eq!(buf.pop(), None);
}

#[test]
fn buffer_keeps_the_newest_items_only() {
    let mut buf = RingBuffer::new(2);
    for item in 0..10u32 {
        buf.push(item);
        assert!(buf.len() <= 2);
    }
    assert_eq!(buf.pop(), Some(8));
    assert_eq!(buf.pop(), Some(9));
    assert_eq!(buf.pop(), None);
}

#[test]
fn buffer_of_one_holds_the_last_item() {
    let mut buf = RingBuffer::new(1);
    buf.push(7);
    buf.push(8);
    assert_eq!(buf.len(), 1);
    assert_eq!(buf.pop(), Some(8));
    assert_eq!(buf.pop(), None);
}

#[test]
fn buffer_without_room_keeps_nothing() {
    let mut buf = RingBuffer::new(0);
    buf.push(1);
    buf.push(2);
    assert_eq!(buf.len(), 0);
    assert_eq!(buf.pop(), None);
}

#[test]
fn push_after_pop_reuses_the_room() {
    let mut buf = RingBuffer::new(2);
    buf.push(1);
    buf.push(2);
    assert_eq!(buf.pop(), Some(1));
    buf.push(3);
    assert_eq!(buf.pop(), Some(2));
    assert_eq!(buf.pop(), Some(3));
    assert_eq!(buf.pop(), None);
}
