use glicol_cli::recent_lines::{RecentLinesBuffer, WriteError};

#[test]
fn only_show_full_lines() {
    let mut last_written = RecentLinesBuffer::new(10);

    last_written.write(b"not ended line").unwrap();
    assert!(last_written.read().is_empty());

    last_written.write(b" is now ended\n").unwrap();
    assert_eq!(
        last_written.read(),
        vec!["not ended line is now ended".to_string()]
    );
}

#[test]
fn keep_only_recent_lines() {
    let mut last_written = RecentLinesBuffer::new(3);

    last_written.write(b"a\n").unwrap();
    last_written.write(b"b\n").unwrap();
    last_written.write(b"c\n").unwrap();
    assert_eq!(
        last_written.read(),
        vec!["a".to_string(), "b".to_string(), "c".to_string()]
    );

    last_written.write(b"d\n").unwrap();
    assert_eq!(
        last_written.read(),
        vec!["b".to_string(), "c".to_string(), "d".to_string()]
    );
}

#[test]
fn write_reports_bytes_consumed() {
    let mut buffer = RecentLinesBuffer::new(4);
    assert_eq!(buffer.write(b"one\ntwo\nthree"), Ok(13));
    assert_eq!(buffer.read(), vec!["one".to_string(), "two".to_string()]);

    assert_eq!(buffer.write(b" and more\n"), Ok(10));
    assert_eq!(
        buffer.read(),
        vec![
            "one".to_string(),
            "two".to_string(),
            "three and more".to_string()
        ]
    );
}

#[test]
fn write_decodes_multibyte_text() {
    let mut buffer = RecentLinesBuffer::new(2);
    buffer.write(b"caf\xC3\xA9\n").unwrap();
    assert_eq!(buffer.read(), vec!["caf\u{e9}".to_string()]);
}

#[test]
fn invalid_line_stops_the_write() {
    let mut buffer = RecentLinesBuffer::new(4);
    assert_eq!(buffer.write(b"ok\n\xFF\nrest"), Err(WriteError::InvalidLine));
    assert_eq!(buffer.read(), vec!["ok".to_string()]);

    // an incomplete invalid sequence is not an error until its line ends
    let mut open_ended = RecentLinesBuffer::new(4);
    assert_eq!(open_ended.write(b"\xFF"), Ok(1));
    assert!(open_ended.read().is_empty());
}

#[test]
fn flush_changes_nothing() {
    let mut buffer = RecentLinesBuffer::new(2);
    buffer.write(b"kept\nopen").unwrap();
    buffer.flush().unwrap();
    assert_eq!(buffer.read(), vec!["kept".to_string()]);
    buffer.write(b" line\n").unwrap();
    assert_eq!(
        buffer.read(),
        vec!["kept".to_string(), "open line".to_string()]
    );
}
