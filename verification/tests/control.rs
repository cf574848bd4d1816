use multi_desktop::control::{read_line, LineError, MAX_LINE_BYTES};

#[test]
fn reads_a_bounded_utf8_line() {
    let reader = b"PING\n".to_vec();
    let mut line = String::new();
    assert_eq!(read_line(reader.as_slice(), &mut line).unwrap(), 5);
    assert_eq!(line, "PING\n");
}

#[test]
fn rejects_an_oversized_line() {
    let reader = vec![b'x'; MAX_LINE_BYTES as usize + 1];
    let mut line = String::new();
    assert!(read_line(reader.as_slice(), &mut line).is_err());
}

#[test]
fn reads_only_the_first_line_and_keeps_a_line_at_the_limit() {
    let mut line = String::from("old");
    assert_eq!(read_line(b"AUTH x\nQUIT\n", &mut line).unwrap(), 7);
    assert_eq!(line, "AUTH x\n");
    let mut exact = vec![b'y'; MAX_LINE_BYTES as usize - 1];
    exact.push(b'\n');
    exact.extend_from_slice(b"rest");
    assert_eq!(read_line(exact.as_slice(), &mut line).unwrap(), MAX_LINE_BYTES as usize);
    assert_eq!(read_line(b"", &mut line).unwrap(), 0);
    assert_eq!(line, "");
    assert_eq!(read_line(b"tail", &mut line).unwrap(), 4);
    assert_eq!(line, "tail");
}

#[test]
fn refused_lines_leave_the_buffer_alone() {
    let mut line = String::from("kept");
    let long = vec![b'z'; MAX_LINE_BYTES as usize + 10];
    assert_eq!(read_line(long.as_slice(), &mut line), Err(LineError::TooLong));
    assert_eq!(read_line(&[0xff, b'\n'], &mut line), Err(LineError::NotUtf8));
    assert_eq!(line, "kept");
    assert_eq!(LineError::TooLong.message(), "protocol line exceeds 4096 bytes");
    assert_eq!(LineError::NotUtf8.message(), "protocol line is not UTF-8");
    assert_eq!(read_line("é\n".as_bytes(), &mut line).unwrap(), 3);
    assert_eq!(line, "é\n");
}
