use skl_arena::arena::AlignedVec;
use skl_arena::bytes::read_u16_le;
use skl_arena::bytes::read_u32_le;
use skl_arena::bytes::read_u64_be;
use skl_arena::bytes::read_u64_le;
use skl_arena::bytes::write_u16_le;
use skl_arena::bytes::write_u32_le;
use skl_arena::bytes::write_u64_be;
use skl_arena::bytes::write_u64_le;
use skl_arena::node::Node;

#[test]
fn u16_little_endian_layout() {
    let mut buf = vec![0u8; 4];
    write_u16_le(&mut buf, 1, 0x0102);
    assert_eq!(buf, vec![0u8, 0x02, 0x01, 0]);
    assert_eq!(read_u16_le(&buf, 1), 0x0102);
}

#[test]
fn u32_little_endian_layout() {
    let mut buf = vec![0u8; 8];
    write_u32_le(&mut buf, 2, 0x01020304);
    assert_eq!(buf, vec![0u8, 0, 0x04, 0x03, 0x02, 0x01, 0, 0]);
    assert_eq!(read_u32_le(&buf, 2), 0x01020304);
}

#[test]
fn u64_little_endian_layout() {
    let mut buf = vec![0u8; 8];
    write_u64_le(&mut buf, 0, 0x0102030405060708);
    assert_eq!(buf, vec![0x08u8, 0x07, 0x06, 0x05, 0x04, 0x03, 0x02, 0x01]);
    assert_eq!(read_u64_le(&buf, 0), 0x0102030405060708);
}

#[test]
fn u64_big_endian_layout() {
    let mut buf = vec![0u8; 8];
    write_u64_be(&mut buf, 0, 0x0102030405060708);
    assert_eq!(buf, vec![0x01u8, 0x02, 0x03, 0x04, 0x05, 0x06, 0x07, 0x08]);
    assert_eq!(read_u64_be(&buf, 0), 0x0102030405060708);
}

#[test]
fn extreme_words_round_trip() {
    let mut buf = vec![0u8; 8];
    write_u64_be(&mut buf, 0, u64::MAX);
    assert_eq!(read_u64_be(&buf, 0), u64::MAX);
    write_u64_le(&mut buf, 0, u64::MAX);
    assert_eq!(read_u64_le(&buf, 0), u64::MAX);
    write_u64_be(&mut buf, 0, 0);
    assert_eq!(read_u64_be(&buf, 0), 0);
}

#[test]
fn value_word_packs_offset_and_size() {
    let packed = Node::encode_value(43, 10);
    assert_eq!(packed, (10u64 << 32) | 43);
    assert_eq!(Node::decode_value(packed), (43, 10));
    assert_eq!(Node::decode_value(Node::encode_value(u32::MAX, u32::MAX)), (u32::MAX, u32::MAX));
    assert_eq!(Node::decode_value(Node::encode_value(0, 0)), (0, 0));
}

#[test]
fn aligned_vec_is_zero_initialized() {
    let mut region = AlignedVec::new(5);
    assert_eq!(region.cap(), 5);
    assert_eq!(region.as_slice(), &vec![0u8; 5]);
    region.as_mut_ptr()[3] = 9;
    assert_eq!(region.as_slice(), &vec![0u8, 0, 0, 9, 0]);
}
