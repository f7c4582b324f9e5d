use bytecursor::ByteOrder;
use bytecursor::Cursor;

const ORDERS: [ByteOrder; 2] = [ByteOrder::BigEndian, ByteOrder::LittleEndian];

#[test]
fn round_trip_u8() {
    let values: [u8; 3] = [0, 1, u8::MAX];
    for &v in values.iter() {
        let mut cursor = Cursor::new(vec![0u8; 1]);
        cursor.write_u8(v);
        cursor.set_position(0);
        assert_eq!(cursor.read_u8(), v);
    }
}

#[test]
fn round_trip_u16() {
    let values: [u16; 4] = [0, 1, 0x1234, u16::MAX];
    for &order in ORDERS.iter() {
        for &v in values.iter() {
            let mut cursor = Cursor::new(vec![0u8; 2]);
            cursor.write_u16(v, order);
            cursor.set_position(0);
            assert_eq!(cursor.read_u16(order), v);
            assert_eq!(cursor.position(), 2);
        }
    }
}

#[test]
fn round_trip_u24() {
    let values: [u32; 4] = [0, 1, 0xABCDEF, 0xFFFFFF];
    for &order in ORDERS.iter() {
        for &v in values.iter() {
            let mut cursor = Cursor::new(vec![0u8; 3]);
            cursor.write_u24(v, order);
            cursor.set_position(0);
            assert_eq!(cursor.read_u24(order), v);
            assert_eq!(cursor.position(), 3);
        }
    }
}

#[test]
fn round_trip_u32() {
    let values: [u32; 4] = [0, 1, 0xDEADBEEF, u32::MAX];
    for &order in ORDERS.iter() {
        for &v in values.iter() {
            let mut cursor = Cursor::new(vec![0u8; 4]);
            cursor.write_u32(v, order);
            cursor.set_position(0);
            assert_eq!(cursor.read_u32(order), v);
            assert_eq!(cursor.position(), 4);
        }
    }
}

#[test]
fn round_trip_u64() {
    let values: [u64; 4] = [0, 1, 0x0123456789ABCDEF, u64::MAX];
    for &order in ORDERS.iter() {
        for &v in values.iter() {
            let mut cursor = Cursor::new(vec![0u8; 8]);
            cursor.write_u64(v, order);
            cursor.set_position(0);
            assert_eq!(cursor.read_u64(order), v);
            assert_eq!(cursor.position(), 8);
        }
    }
}

#[test]
fn round_trip_bytes() {
    let mut cursor = Cursor::new(vec![0u8; 8]);
    cursor.set_position(2);
    cursor.write_bytes(&[10, 20, 30]);
    cursor.set_position(2);
    let mut buf = vec![0u8; 3];
    cursor.read_bytes(&mut buf);
    assert_eq!(buf, [10, 20, 30]);
    assert_eq!(cursor.position(), 5);
}

#[test]
fn reads_advance_position_by_width() {
    let buffer = [0u8; 32];
    let mut cursor = Cursor::new(&buffer[..]);

    cursor.read_u8();
    assert_eq!(cursor.position(), 1);
    cursor.read_u16(ByteOrder::BigEndian);
    assert_eq!(cursor.position(), 3);
    cursor.read_u24(ByteOrder::LittleEndian);
    assert_eq!(cursor.position(), 6);
    cursor.read_u32(ByteOrder::BigEndian);
    assert_eq!(cursor.position(), 10);
    cursor.read_u64(ByteOrder::LittleEndian);
    assert_eq!(cursor.position(), 18);
    let mut buf = vec![0u8; 5];
    cursor.read_bytes(&mut buf);
    assert_eq!(cursor.position(), 23);
}

#[test]
fn mixed_endianness_on_one_cursor() {
    let mut cursor = Cursor::new(vec![0u8; 4]);
    cursor.write_u16(0x0102, ByteOrder::BigEndian);
    cursor.write_u16(0x0304, ByteOrder::LittleEndian);
    cursor.set_position(0);
    assert_eq!(cursor.read_u16(ByteOrder::LittleEndian), 0x0201);
    assert_eq!(cursor.read_u16(ByteOrder::BigEndian), 0x0403);
}
