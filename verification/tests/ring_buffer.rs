use rustalizer::errors::{BufferOp, Error};
use rustalizer::ring_buffer::{is_power_of_two, RingBuffer};

#[test]
fn pop_empty() {
    let mut buf = RingBuffer::<i32>::new(2);
    assert!(
        buf.pop().is_err(),
        "The RingBuffer should not allow for popping when it is empty!"
    );
}

#[test]
fn push_full() {
    let mut buf = RingBuffer::<i32>::new(2);
    let _ = buf.push(1);
    let _ = buf.push(2);
    assert!(
        buf.push(3).is_err(),
        "The RingBuffer should not allow for pushing when it is full!"
    );
}

#[test]
fn push_full_reports_push_and_keeps_data() {
    let mut buf = RingBuffer::<i32>::new(2);
    assert_eq!(buf.push(1), Ok(()));
    assert_eq!(buf.push(2), Ok(()));
    assert_eq!(buf.push(3), Err(Error::BufferOperation(BufferOp::Push)));
    assert_eq!(buf.size(), 2);
    assert_eq!(buf.pop(), Ok(1));
    assert_eq!(buf.pop(), Ok(2));
    assert_eq!(buf.pop(), Err(Error::BufferOperation(BufferOp::Pop)));
}

#[test]
fn power_of_two_test() {
    assert!(!is_power_of_two(0));
    assert!(is_power_of_two(1));
    assert!(is_power_of_two(2));
    assert!(!is_power_of_two(3));
    assert!(is_power_of_two(16));
    assert!(!is_power_of_two(44100));
    assert!(is_power_of_two(1usize << (usize::BITS - 1)));
    assert!(!is_power_of_two(usize::MAX));
}

#[test]
fn pushes_below_capacity_succeed_and_count() {
    let mut buf = RingBuffer::<u32>::new(8);
    for n in 0..8u32 {
        assert_eq!(buf.size(), n as usize);
        assert!(!buf.full());
        assert_eq!(buf.push(n), Ok(()));
    }
    assert!(buf.full());
    assert_eq!(buf.size(), 8);
    assert_eq!(buf.push(8), Err(Error::BufferOperation(BufferOp::Push)));
    for n in 0..8u32 {
        assert_eq!(buf.top(), Ok(n));
        assert_eq!(buf.pop(), Ok(n));
    }
    assert!(buf.empty());
}

#[test]
fn pop_on_empty_reports_pop_and_keeps_empty() {
    let mut buf = RingBuffer::<i32>::new(4);
    assert!(buf.empty());
    assert_eq!(buf.pop(), Err(Error::BufferOperation(BufferOp::Pop)));
    assert_eq!(buf.top(), Err(Error::BufferOperation(BufferOp::Pop)));
    assert!(buf.empty());
    assert_eq!(buf.size(), 0);
    assert_eq!(buf.push(5), Ok(()));
    assert_eq!(buf.pop(), Ok(5));
    assert_eq!(buf.pop(), Err(Error::BufferOperation(BufferOp::Pop)));
    assert!(buf.empty());
}

#[test]
fn size_holds_over_many_laps() {
    let mut buf = RingBuffer::<usize>::new(4);
    let mut next_in: usize = 0;
    let mut next_out: usize = 0;
    for round in 0..10000usize {
        let burst = round % 5;
        for _ in 0..burst {
            if buf.push(next_in).is_ok() {
                next_in += 1;
            }
        }
        assert_eq!(buf.size(), next_in - next_out);
        let drain = (round / 3) % 4;
        for _ in 0..drain {
            if let Ok(value) = buf.pop() {
                assert_eq!(value, next_out);
                next_out += 1;
            }
        }
        assert_eq!(buf.size(), next_in - next_out);
        assert!(buf.size() <= 4);
    }
    assert!(next_in > 1000);
}

#[test]
fn capacity_one_holds_one() {
    let mut buf = RingBuffer::<u8>::new(1);
    assert_eq!(buf.push(1), Ok(()));
    assert!(buf.full());
    assert_eq!(buf.push(2), Err(Error::BufferOperation(BufferOp::Push)));
    assert_eq!(buf.pop(), Ok(1));
    assert_eq!(buf.push(3), Ok(()));
    assert_eq!(buf.top(), Ok(3));
}
