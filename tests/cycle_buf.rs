use toybox::cycle_buf::CycleBuffer;

#[test]
fn keeps_last_items_and_counts_all() {
    let mut b: CycleBuffer<u64> = CycleBuffer::new(Some(2));
    assert_eq!(b.len(), 0);
    b.push(10);
    b.push(20);
    assert_eq!(b.len(), 2);
    assert_eq!(*b.index(0), 10);
    b.push(30);
    assert_eq!(b.len(), 3);
    assert_eq!(*b.index(1), 20);
    assert_eq!(*b.index(2), 30);
}

#[test]
fn unbounded_buffer_keeps_everything() {
    let mut b: CycleBuffer<u64> = CycleBuffer::new(None);
    let mut i: u64 = 0;
    while i < 100 {
        b.push(i * i);
        i += 1;
    }
    assert_eq!(b.len(), 100);
    assert_eq!(*b.index(0), 0);
    assert_eq!(*b.index(99), 9801);
}

#[test]
fn fibonacci_through_buffer() {
    let mut b: CycleBuffer<u64> = CycleBuffer::new(Some(64));
    b.push(0);
    b.push(1);
    while b.len() < 10 {
        let n = b.len();
        let v = *b.index(n - 1) + *b.index(n - 2);
        b.push(v);
    }
    let got: Vec<u64> = (0..10).map(|i| *b.index(i)).collect();
    assert_eq!(got, vec![0, 1, 1, 2, 3, 5, 8, 13, 21, 34]);
}
