use softraster::solid_frame;

#[test]
fn solid_frame_is_all_zero() {
    let frame = solid_frame(3, 2).unwrap();
    assert_eq!(frame.len(), 3 * 2 * 4);
    assert!(frame.iter().all(|&b| b == 0));
}

#[test]
fn solid_frame_empty() {
    assert_eq!(solid_frame(0, 7).unwrap(), Vec::<u8>::new());
}

#[test]
fn solid_frame_overflow() {
    assert_eq!(solid_frame(65536, 16384), Err(String::from("buffer size overflowed")));
    assert_eq!(solid_frame(u32::MAX, 2), Err(String::from("buffer size overflowed")));
    // 2^30 pixels need 2^32 bytes, one more than u32 holds
    assert!(solid_frame(1, 1 << 30).is_err());
}
