use bytecursor::ByteOrder;
use bytecursor::Cursor;

#[test]
fn test_read() {
    let buffer = [1u8, 0, 1, 0, 1, 0, 0, 0, 0, 2, 2, 0, 0, 0];
    let mut cursor = Cursor::new(&buffer[..]);

    assert_eq!(cursor.len(), 14);
    assert_eq!(cursor.remaining(), 14);

    assert_eq!(cursor.read_u8(), 1);
    assert_eq!(cursor.remaining(), 13);

    assert_eq!(cursor.read_u16(ByteOrder::BigEndian), 1);
    cursor.skip(1);
    assert_eq!(cursor.read_u16(ByteOrder::LittleEndian), 1);
    assert!(cursor.check_remaining(8).is_ok());

    assert_eq!(cursor.read_u32(ByteOrder::BigEndian), 2);
    assert_eq!(cursor.read_u32(ByteOrder::LittleEndian), 2);
    assert!(cursor.check_remaining(1).is_err());

    cursor.set_position(1);
    let mut buf = vec![0u8; 4];
    cursor.read_bytes(&mut buf);
    assert_eq!(buf, [0, 1, 0, 1]);
}

#[test]
fn test_peek() {
    let buffer = [1u8, 0, 1, 0, 1, 0, 0, 0, 0, 2, 2, 0, 0, 0];
    let mut cursor = Cursor::new(&buffer[..]);

    assert_eq!(cursor.peek_u8(1), 0);
    assert_eq!(cursor.peek_u16(2, ByteOrder::BigEndian), 256);
    assert_eq!(cursor.peek_u32(6, ByteOrder::LittleEndian), 0x02000000);

    cursor.set_position(5);
    assert_eq!(cursor.peek_u8(1), 0);
    assert_eq!(cursor.peek_u16(3, ByteOrder::BigEndian), 2);
    assert_eq!(cursor.peek_u32(5, ByteOrder::LittleEndian), 2);
}

#[test]
fn test_write() {
    let mut cursor = Cursor::new(vec![0u8; 16]);

    cursor.write_u8(1);
    cursor.write_u16(5, ByteOrder::BigEndian);
    cursor.write_u32(16, ByteOrder::LittleEndian);
    cursor.write_bytes(&[1, 2, 3, 4, 5]);

    assert_eq!(cursor.position(), 12);
    let buffer = cursor.into_inner();
    assert_eq!(buffer, [1, 0, 5, 16, 0, 0, 0, 1, 2, 3, 4, 5, 0, 0, 0, 0]);
}

#[test]
fn read_u24_and_u64() {
    let buffer = [1u8, 2, 3, 3, 2, 1, 1, 2, 3, 4, 5, 6, 7, 8, 8, 7, 6, 5, 4, 3, 2, 1];
    let mut cursor = Cursor::new(&buffer[..]);

    assert_eq!(cursor.read_u24(ByteOrder::BigEndian), 0x010203);
    assert_eq!(cursor.position(), 3);
    assert_eq!(cursor.read_u24(ByteOrder::LittleEndian), 0x010203);
    assert_eq!(cursor.position(), 6);
    assert_eq!(cursor.read_u64(ByteOrder::BigEndian), 0x0102030405060708);
    assert_eq!(cursor.position(), 14);
    assert_eq!(cursor.read_u64(ByteOrder::LittleEndian), 0x0102030405060708);
    assert_eq!(cursor.position(), 22);
}

#[test]
fn peek_u24_leaves_position_unchanged() {
    let buffer = [9u8, 1, 2, 3, 0];
    let mut cursor = Cursor::new(&buffer[..]);
    cursor.set_position(1);

    assert_eq!(cursor.peek_u24(0, ByteOrder::BigEndian), 0x010203);
    assert_eq!(cursor.peek_u24(0, ByteOrder::LittleEndian), 0x030201);
    assert_eq!(cursor.peek_u16(1, ByteOrder::LittleEndian), 0x0302);
    assert_eq!(cursor.position(), 1);
}

#[test]
fn write_advances_position_by_width() {
    let mut cursor = Cursor::new(vec![0u8; 32]);

    cursor.write_u8(7);
    assert_eq!(cursor.position(), 1);
    cursor.write_u16(7, ByteOrder::LittleEndian);
    assert_eq!(cursor.position(), 3);
    cursor.write_u24(7, ByteOrder::BigEndian);
    assert_eq!(cursor.position(), 6);
    cursor.write_u32(7, ByteOrder::LittleEndian);
    assert_eq!(cursor.position(), 10);
    cursor.write_u64(7, ByteOrder::BigEndian);
    assert_eq!(cursor.position(), 18);
    cursor.write_bytes(&[1, 2, 3]);
    assert_eq!(cursor.position(), 21);
}

#[test]
fn endian_layout_of_writes() {
    let mut cursor = Cursor::new(vec![0u8; 19]);

    cursor.write_u16(0x0102, ByteOrder::BigEndian);
    cursor.write_u16(0x0102, ByteOrder::LittleEndian);
    cursor.write_u24(0x010203, ByteOrder::BigEndian);
    cursor.write_u24(0x010203, ByteOrder::LittleEndian);
    cursor.write_u32(0x01020304, ByteOrder::BigEndian);
    cursor.write_u32(0x01020304, ByteOrder::LittleEndian);
    cursor.write_u8(0xFF);

    let buffer = cursor.into_inner();
    assert_eq!(buffer, [1, 2, 2, 1, 1, 2, 3, 3, 2, 1, 1, 2, 3, 4, 4, 3, 2, 1, 0xFF]);
}

#[test]
fn write_u64_layout() {
    let mut cursor = Cursor::new(vec![0u8; 16]);

    cursor.write_u64(0x0102030405060708, ByteOrder::BigEndian);
    cursor.write_u64(0x0102030405060708, ByteOrder::LittleEndian);

    let buffer = cursor.into_inner();
    assert_eq!(buffer, [1, 2, 3, 4, 5, 6, 7, 8, 8, 7, 6, 5, 4, 3, 2, 1]);
}

#[test]
fn array_backed_cursor() {
    let mut cursor = Cursor::new([0u8; 6]);
    cursor.write_u16(0x0102, ByteOrder::BigEndian);
    cursor.write_u32(0x03040506, ByteOrder::LittleEndian);
    assert_eq!(cursor.position(), 6);
    let buffer = cursor.into_inner();
    assert_eq!(buffer, [1, 2, 6, 5, 4, 3]);

    let mut reader = Cursor::new(buffer);
    assert_eq!(reader.read_u16(ByteOrder::BigEndian), 0x0102);
    assert_eq!(reader.read_u32(ByteOrder::LittleEndian), 0x03040506);
}
