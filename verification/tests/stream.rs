use naenae::stream::{FileTail, PtyLineBuffer};

#[test]
fn terminal_lines_are_split_trimmed_and_cleaned() {
    let mut b = PtyLineBuffer::new().expect("the ANSI pattern compiles");
    let lines = b.push_chunk(b"\x1b[32mok\x1b[0m  \r\n\r\n  second\rthird par");
    assert_eq!(lines, vec!["ok".to_string(), "second".to_string()]);
    let lines = b.push_chunk(b"tial\n");
    assert_eq!(lines, vec!["third partial".to_string()]);
    assert_eq!(b.finish(), None);
}

#[test]
fn terminal_tail_is_flushed_at_the_end() {
    let mut b = PtyLineBuffer::new().unwrap();
    assert!(b.push_chunk(b"progress 50%").is_empty());
    assert_eq!(b.finish().as_deref(), Some("progress 50%"));
}

#[test]
fn file_tail_reads_new_bytes_from_the_end() {
    let mut t = FileTail::new(true, 10);
    assert_eq!(t.next_read(10), None);
    assert_eq!(t.next_read(15), Some((10, 5)));
    let lines = t.accept(15, b"a\r\r\n\nb");
    assert_eq!(lines, vec!["a".to_string(), "".to_string()]);
    assert_eq!(t.next_read(15), None);
    assert_eq!(t.finish().as_deref(), Some("b"));
}

#[test]
fn file_tail_starts_over_when_the_file_shrinks() {
    let mut t = FileTail::new(false, 100);
    assert_eq!(t.next_read(4), Some((0, 4)));
    assert!(t.accept(4, b"abc").is_empty());
    assert_eq!(t.next_read(2), Some((0, 2)));
    assert_eq!(t.finish(), None);
    assert_eq!(t.accept(2, b"x\n"), vec!["x".to_string()]);
}

#[test]
fn file_tail_drops_trailing_carriage_returns_at_the_end() {
    let mut t = FileTail::new(false, 0);
    t.accept(3, b"\r\r\r");
    assert_eq!(t.finish(), None);
}
