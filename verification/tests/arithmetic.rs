use gg18::curv::arithmetic::{from, BigInt};

#[test]
fn from_reads_big_endian_bytes() {
    let value = from(&[0x01, 0x00]);
    assert_eq!(BigInt::to_vec(&value), vec![0x01, 0x00]);
    assert_eq!(value, BigInt::from_bytes_be(&[0x01, 0x00]));
}

#[test]
fn from_drops_leading_zero_bytes() {
    let value = from(&[0x00, 0x00, 0x12, 0x34]);
    assert_eq!(BigInt::to_vec(&value), vec![0x12, 0x34]);
    assert_eq!(value, from(&[0x12, 0x34]));
}

#[test]
fn from_keeps_inner_and_trailing_zero_bytes() {
    let value = from(&[0x00, 0x01, 0x00, 0x02, 0x00]);
    assert_eq!(BigInt::to_vec(&value), vec![0x01, 0x00, 0x02, 0x00]);
}

#[test]
fn zero_is_one_zero_byte() {
    assert_eq!(BigInt::to_vec(&from(&[])), vec![0u8]);
    assert_eq!(BigInt::to_vec(&from(&[0, 0, 0])), vec![0u8]);
    assert_eq!(from(&[]), from(&[0]));
}

#[test]
fn to_vec_and_from_round_trip() {
    let bytes: Vec<u8> = (1..=40u8).collect();
    let value = from(&bytes);
    assert_eq!(BigInt::to_vec(&value), bytes);
    assert_eq!(from(&BigInt::to_vec(&value)), value);
}

#[test]
fn numbers_differ_where_their_bytes_differ() {
    assert_ne!(from(&[1]), from(&[2]));
    assert_ne!(from(&[1]), from(&[1, 0]));
}

#[test]
fn clone_gives_the_same_number() {
    let value = from(&[9, 8, 7]);
    assert_eq!(value.clone(), value);
    assert_eq!(BigInt::to_vec(&value.clone()), vec![9, 8, 7]);
}
