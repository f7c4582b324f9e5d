use bytecursor::Cursor;

#[test]
fn check_remaining_boundary() {
    let buffer = [0u8; 10];
    let mut cursor = Cursor::new(&buffer[..]);
    cursor.set_position(4);

    assert!(cursor.check_remaining(0).is_ok());
    assert!(cursor.check_remaining(6).is_ok());
    assert!(cursor.check_remaining(7).is_err());
}

#[test]
fn check_remaining_error_fields() {
    let buffer = [0u8; 10];
    let mut cursor = Cursor::new(&buffer[..]);
    cursor.set_position(4);

    let e = cursor.check_remaining(9).unwrap_err();
    assert_eq!(e.size, 10);
    assert_eq!(e.expected, 13);
}

#[test]
fn error_message_text() {
    let buffer = [0u8; 2];
    let cursor = Cursor::new(&buffer[..]);

    let e = cursor.check_remaining(5).unwrap_err();
    assert_eq!(e.size, 2);
    assert_eq!(e.expected, 5);
    assert_eq!(
        e.message(),
        "The supplied buffer is to small. Got 2, expected at least 5"
    );
}

#[test]
fn empty_buffer_is_allowed() {
    let buffer = [0u8; 0];
    let cursor = Cursor::new(&buffer[..]);

    assert_eq!(cursor.len(), 0);
    assert_eq!(cursor.remaining(), 0);
    assert_eq!(cursor.position(), 0);
    assert!(cursor.check_remaining(0).is_ok());
    assert!(cursor.check_remaining(1).is_err());
}
