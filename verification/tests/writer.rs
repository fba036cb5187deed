use moonbeam::server::writer::BodyWriter;

#[test]
fn chunked_body_through_small_buffer() {
    let mut buf = vec![0u8; 32];
    let mut w = BodyWriter::new(32, 0, None);
    let (s, e) = w.read_range().unwrap();
    assert_eq!((s, e), (7, 30));
    buf[s..s + 4].copy_from_slice(b"data");
    w.on_read(&mut buf, 4);
    let (ws, we) = w.write_range().unwrap();
    assert_eq!(&buf[ws..we], b"00004\r\ndata\r\n");
    assert_eq!(w.on_write(&mut buf, 5), Ok(()));
    let (ws, we) = w.write_range().unwrap();
    assert_eq!(&buf[ws..we], b"\r\ndata\r\n");
    let (ws, we) = w.write_range().unwrap();
    assert_eq!(w.on_write(&mut buf, we - ws), Ok(()));
    assert_eq!(w.write_range(), None);
    assert!(w.read_range().is_some());
    w.on_read(&mut buf, 0);
    assert_eq!(w.read_range(), None);
    let (ws, we) = w.write_range().unwrap();
    assert_eq!(&buf[ws..we], b"0\r\n\r\n");
    assert!(!w.is_finished());
    assert_eq!(w.on_write(&mut buf, 5), Ok(()));
    assert!(w.is_finished());
}

#[test]
fn known_length_body_with_preread() {
    let mut buf = vec![0u8; 16];
    buf[..3].copy_from_slice(b"abc");
    let mut w = BodyWriter::new(16, 3, Some(10));
    assert_eq!(w.read_range(), Some((3, 16)));
    buf[3..6].copy_from_slice(b"def");
    w.on_read(&mut buf, 3);
    assert_eq!(w.write_range(), Some((0, 6)));
    assert_eq!(w.on_write(&mut buf, 0), Err(()));
    assert_eq!(w.write_range(), Some((0, 6)));
    assert_eq!(w.on_write(&mut buf, 6), Ok(()));
    w.on_read(&mut buf, 0);
    assert!(w.is_finished());
}
