use ftdc::varint::{read_varint, write_varint};

#[test]
fn varint_single_byte() {
    let mut out = Vec::new();
    write_varint(&mut out, 5);
    assert_eq!(out, vec![5u8]);
    assert_eq!(read_varint(&out, 0), Some((5, 1)));
}

#[test]
fn varint_two_bytes() {
    let mut out = Vec::new();
    write_varint(&mut out, 300);
    assert_eq!(out, vec![0xac, 0x02]);
    assert_eq!(read_varint(&out, 0), Some((300, 2)));
}

#[test]
fn varint_largest() {
    let mut out = Vec::new();
    write_varint(&mut out, u64::MAX);
    assert_eq!(out.len(), 10);
    assert_eq!(out[9], 1);
    assert_eq!(read_varint(&out, 0), Some((u64::MAX, 10)));
}

#[test]
fn varint_rejects_unterminated_and_overlong() {
    assert_eq!(read_varint(&[0x80, 0x80], 0), None);
    assert_eq!(read_varint(&[], 0), None);
    let overflow = [0xff, 0xff, 0xff, 0xff, 0xff, 0xff, 0xff, 0xff, 0xff, 0x02];
    assert_eq!(read_varint(&overflow, 0), None);
    let eleven = [0x80, 0x80, 0x80, 0x80, 0x80, 0x80, 0x80, 0x80, 0x80, 0x80, 0x00];
    assert_eq!(read_varint(&eleven, 0), None);
}
