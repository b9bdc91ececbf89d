use microbit_cutebot::LineFramer;

#[test]
fn line_ends_at_terminator() {
    let mut f = LineFramer::new();
    for &b in b"D: 1, A: 2" {
        assert_eq!(f.feed(b), None);
    }
    assert_eq!(f.feed(b'\n'), Some(b"D: 1, A: 2".to_vec()));
    assert_eq!(f.feed(b'x'), None);
    assert_eq!(f.feed(b'\n'), Some(b"x".to_vec()));
}

#[test]
fn carriage_return_is_data() {
    let mut f = LineFramer::new();
    assert_eq!(f.feed(b'a'), None);
    assert_eq!(f.feed(b'\r'), None);
    assert_eq!(f.feed(b'\n'), Some(b"a\r".to_vec()));
}

#[test]
fn empty_line() {
    let mut f = LineFramer::new();
    assert_eq!(f.feed(b'\n'), Some(Vec::new()));
}

#[test]
fn full_buffer_completes_one_line() {
    let mut f = LineFramer::new();
    let bytes: Vec<u8> = (0..32u8).map(|i| b'a' + (i % 26)).collect();
    let mut lines = Vec::new();
    for (i, &b) in bytes.iter().enumerate() {
        if let Some(line) = f.feed(b) {
            lines.push((i, line));
        }
    }
    assert_eq!(lines.len(), 1);
    assert_eq!(lines[0].0, 31);
    assert_eq!(lines[0].1, bytes[..31].to_vec());
    // the byte that found the buffer full was dropped: the next line starts afresh
    assert_eq!(f.feed(b'\n'), Some(Vec::new()));
}
