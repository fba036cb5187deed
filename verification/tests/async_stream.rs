use moonbeam::http::async_stream::Buffer;

#[test]
fn test_buffer_copy_to_empty() {
    let mut buf = Buffer::<16>::new();
    let mut target = [0u8; 16];
    assert_eq!(buf.copy_to(&mut target), 0);
    assert!(buf.is_empty);

    buf.copy_from(&target);
    assert_eq!(buf.copy_to(&mut []), 0);
    assert_eq!(buf.len(), 16);
}

#[test]
fn test_buffer_copy_from_empty() {
    let mut buf = Buffer::<16>::new();
    assert_eq!(buf.copy_from(&[]), 0);
    assert!(buf.is_empty);
}

#[test]
fn test_buffer_copy_from_simple() {
    let mut buf = Buffer::<16>::new();
    let data = b"Hello, world!";

    let n = buf.copy_from(data);
    assert_eq!(n, data.len());
    assert_eq!(buf.len(), data.len());
}

#[test]
fn test_buffer_write_then_read() {
    let mut buf = Buffer::<16>::new();
    let data = b"Hello, world!";

    buf.copy_from(data);
    let mut target = [0u8; 16];
    let n = buf.copy_to(&mut target);

    assert_eq!(n, data.len());
    assert_eq!(&target[..n], data);
    assert_eq!(buf.len(), 0);
}

#[test]
fn test_buffer_partial_copy_to() {
    let mut buf = Buffer::<32>::new();
    let data = b"abcdefghijklmnopqrstuvwxyz";
    buf.copy_from(data);

    let mut target = [0u8; 10];
    let n = buf.copy_to(&mut target);
    assert_eq!(n, 10);
    assert_eq!(&target, b"abcdefghij");
    assert!(buf.len() > 0);

    let mut rest = [0u8; 32];
    let n2 = buf.copy_to(&mut rest);
    assert_eq!(n2, data.len() - 10);
    assert_eq!(&rest[..n2], &data[10..]);
    assert_eq!(buf.len(), 0);
}

#[test]
fn test_buffer_copy_to_full() {
    let mut buf = Buffer::<32>::new();
    buf.is_empty = false;
    buf.buffer.fill(0xAB);

    let mut target = [0u8; 32];
    let n = buf.copy_to(&mut target);
    assert_eq!(n, 32);
    assert!(target.iter().all(|&b| b == 0xAB));
    assert_eq!(buf.len(), 0);
}

#[test]
fn test_buffer_copy_from_full() {
    let mut buf = Buffer::<32>::new();
    buf.is_empty = false;
    buf.head = 16;
    buf.tail = 16;

    let n = buf.copy_from(b"data");
    assert_eq!(n, 0);
    assert!(buf.len() != 0);
    assert_eq!(buf.tail, 16);
}

#[test]
fn test_buffer_partial_copy_from() {
    let mut buf = Buffer::<32>::new();
    buf.head = 10;
    buf.tail = 20;
    buf.is_empty = false;

    // available = (cap - tail) + head = (32-20)+10 = 22
    let data = vec![0xBBu8; 32];
    let n = buf.copy_from(&data);
    assert_eq!(n, 22);
    assert_eq!(buf.tail, (20 + 22) % 32); // = 42 % 32 = 10
}

#[test]
fn test_buffer_wrap_around() {
    let mut buf = Buffer::<32>::new();

    // Position the logical start near the end
    buf.head = 30;
    buf.tail = 30;
    buf.is_empty = true;

    // Write 20 bytes — wraps: buffer[30..32] + buffer[0..18]
    let data = b"ABCDEFGHIJKLMNOPQRST";
    buf.copy_from(data);

    assert_eq!(buf.tail, 18);
    assert_eq!(&buf.buffer[30..32], b"AB");
    assert_eq!(&buf.buffer[0..18], b"CDEFGHIJKLMNOPQRST");

    // Read back the 20 bytes — also wraps
    let mut target = [0u8; 20];
    let n = buf.copy_to(&mut target);
    assert_eq!(&target, b"ABCDEFGHIJKLMNOPQRST");
    assert_eq!(n, 20);
    assert_eq!(&target, data);
    assert_eq!(buf.len(), 0);
}

#[test]
fn test_buffer_interleaved_cycles() {
    let mut buf = Buffer::<8>::new();

    // Each iteration writes 5 bytes then reads 5 bytes.
    for i in 0..8u8 {
        let src = [i; 5];
        let n = buf.copy_from(&src);
        assert_eq!(n, 5);
        assert_eq!(buf.len(), 5);

        let mut dst = [0u8; 5];
        let m = buf.copy_to(&mut dst);
        assert_eq!(m, 5);
        assert_eq!(dst, src);
        assert_eq!(buf.len(), 0);
        assert!(buf.is_empty);
    }
}

#[test]
fn test_buffer_fill_exactly_full() {
    const CAP: usize = 8;
    let mut buf = Buffer::<CAP>::new();

    let src = [0xCCu8; CAP];
    let n = buf.copy_from(&src);
    assert_eq!(n, CAP);
    // head == tail and !is_empty → full
    assert!(!buf.is_empty);
    assert_eq!(buf.head, buf.tail);
    assert_eq!(buf.len(), CAP);

    // Trying to write more should return 0
    assert_eq!(buf.copy_from(b"extra"), 0);

    // Should be able to drain it fully
    let mut dst = [0u8; CAP];
    let m = buf.copy_to(&mut dst);
    assert_eq!(m, CAP);
    assert!(dst.iter().all(|&b| b == 0xCC));
    assert_eq!(buf.len(), 0);
}

#[test]
fn buffer_fifo_law_on_values() {
    // What is written comes back out in the same order, across the wrap point.
    let mut buf = Buffer::<4>::new();
    assert_eq!(buf.copy_from(b"ab"), 2);
    let mut one = [0u8; 1];
    assert_eq!(buf.copy_to(&mut one), 1);
    assert_eq!(&one, b"a");
    assert_eq!(buf.copy_from(b"cdef"), 3);
    let mut all = [0u8; 8];
    let n = buf.copy_to(&mut all);
    assert_eq!(&all[..n], b"bcde");
}

#[test]
fn copy_to_at_appends_after_offset() {
    let mut buf: Buffer<4> = Buffer::new();
    assert_eq!(buf.copy_from(b"abc"), 3);
    let mut target = [b'x'; 6];
    assert_eq!(buf.copy_to_at(&mut target, 2), 3);
    assert_eq!(&target, b"xxabcx");
    // A second drain goes after the first instead of over it.
    assert_eq!(buf.copy_from(b"defg"), 4);
    assert_eq!(buf.copy_to_at(&mut target, 5), 1);
    assert_eq!(&target, b"xxabcd");
    assert_eq!(buf.copy_to_at(&mut target, 6), 0);
    let mut rest = [0u8; 3];
    assert_eq!(buf.copy_to(&mut rest), 3);
    assert_eq!(&rest, b"efg");
}
