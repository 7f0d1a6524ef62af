use simple_vm::storage::{read_specific_line, write_specific_line, Storage, StorageError};

#[test]
fn test_write_text() {
    let mut storage = Storage::parse("Line 1\nLine 2\nLine 3\r\n");
    let text_to_write = "This is a test line.";
    write_specific_line(&mut storage, 2, text_to_write).expect("Failed to write specific line");
    let text = storage.to_text();
    let lines: Vec<&str> = text.lines().collect();
    assert_eq!(lines[1], text_to_write);
}

#[test]
fn parse_splits_lines_and_drops_carriage_returns() {
    let storage = Storage::parse("10\r\n20\n\n30");
    assert_eq!(storage.len(), 4);
    assert_eq!(read_specific_line(&storage, 1), Ok("10".to_string()));
    assert_eq!(read_specific_line(&storage, 2), Ok("20".to_string()));
    assert_eq!(read_specific_line(&storage, 3), Ok(String::new()));
    assert_eq!(read_specific_line(&storage, 4), Ok("30".to_string()));
}

#[test]
fn final_newline_ends_the_last_line() {
    assert_eq!(Storage::parse("a\nb\n").len(), 2);
    assert_eq!(Storage::parse("").len(), 0);
    assert_eq!(Storage::parse("\n").len(), 1);
}

#[test]
fn read_out_of_range_is_refused() {
    let storage = Storage::parse("1\n2\n");
    assert_eq!(read_specific_line(&storage, 0), Err(StorageError::LineOutOfRange(0)));
    assert_eq!(read_specific_line(&storage, 3), Err(StorageError::LineOutOfRange(3)));
}

#[test]
fn write_beyond_the_last_line_is_refused_and_changes_nothing() {
    let mut storage = Storage::parse("1\n2\n");
    assert_eq!(
        write_specific_line(&mut storage, 3, "9"),
        Err(StorageError::LineOutOfRange(3))
    );
    assert_eq!(write_specific_line(&mut storage, 0, "9"), Err(StorageError::LineOutOfRange(0)));
    assert_eq!(storage.len(), 2);
    assert_eq!(storage.to_text(), "1\n2\n");
}

#[test]
fn write_then_read_returns_the_text() {
    let mut storage = Storage::parse("1\n2\n3\n");
    write_specific_line(&mut storage, 3, "-45").unwrap();
    assert_eq!(read_specific_line(&storage, 3), Ok("-45".to_string()));
    assert_eq!(storage.len(), 3);
    assert_eq!(storage.to_text(), "1\n2\n-45\n");
}

#[test]
fn new_storage_is_empty() {
    let storage = Storage::new();
    assert_eq!(storage.len(), 0);
    assert_eq!(storage.to_text(), "");
}
