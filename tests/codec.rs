use image_cipher::{
    check_capacity, embed_bytes, extract_payload, frame_message, header_is_clear, open_text,
    read_from_image, read_payload, text_of_bytes, write_to_image, CapacityError, PixelGrid,
    ReadError, ReadMode, TextError, PADDING_LENGTH,
};

fn grid(width: u32, height: u32, fill: u8) -> PixelGrid {
    let n = (width * height * 3) as usize;
    PixelGrid::from_raw(width, height, vec![fill; n]).unwrap()
}

fn encode(img: &mut PixelGrid, msg: &str) -> Result<(), CapacityError> {
    let txt = open_text(msg.as_bytes().to_vec()).unwrap();
    write_to_image(img, &txt)
}

#[test]
fn example_hi_in_ten_by_ten() {
    let mut img = grid(10, 10, 0xab);
    assert_eq!(img.channels.len(), 300);
    encode(&mut img, "hi").unwrap();
    assert_eq!(read_from_image(&img, ReadMode::Checked), Ok("hi".to_string()));
}

#[test]
fn round_trip_multibyte_text() {
    let msg = "héllo wörld ✓";
    let mut img = grid(12, 9, 0x37);
    encode(&mut img, msg).unwrap();
    assert_eq!(read_from_image(&img, ReadMode::Checked), Ok(msg.to_string()));
}

#[test]
fn round_trip_empty_message() {
    let mut img = grid(5, 5, 0xff);
    encode(&mut img, "").unwrap();
    assert_eq!(read_from_image(&img, ReadMode::Checked), Ok(String::new()));
}

#[test]
fn round_trip_keeps_high_bits() {
    let mut img = grid(10, 10, 0xff);
    encode(&mut img, "hi").unwrap();
    assert!(img.channels.iter().all(|c| c & 0xfc == 0xfc));
    assert_eq!(img.channels[0], 0xfc);
    assert_eq!(img.channels[99], 0xff);
}

#[test]
fn capacity_exactly_full_succeeds() {
    assert_eq!(check_capacity(6, 216), Ok(()));
    let mut img = grid(6, 6, 0x55);
    encode(&mut img, "hello world").unwrap();
    assert_eq!(read_from_image(&img, ReadMode::Checked), Ok("hello world".to_string()));
}

#[test]
fn capacity_one_bit_over_fails() {
    let e = check_capacity(6, 217).unwrap_err();
    assert_eq!(e, CapacityError { required_bits: 217, capacity_bits: 216 });
    assert!(e.required_bits as f64 / e.capacity_bits as f64 > 1.0);
}

#[test]
fn capacity_exceeded_leaves_grid_unchanged() {
    let mut img = grid(6, 6, 0x55);
    let before = img.channels.clone();
    let e = encode(&mut img, "hello world!").unwrap_err();
    assert_eq!(e, CapacityError { required_bits: 224, capacity_bits: 216 });
    assert_eq!(img.channels, before);
}

#[test]
fn capacity_uses_width_only() {
    // 5 wide, 20 high: 300 channels could hold 600 bits, the check allows 150.
    let mut img = grid(5, 20, 0);
    assert_eq!(img.channels.len(), 300);
    let e = encode(&mut img, "abc").unwrap_err();
    assert_eq!(e, CapacityError { required_bits: 152, capacity_bits: 150 });
    encode(&mut img, "ab").unwrap();
    assert_eq!(read_from_image(&img, ReadMode::Checked), Ok("ab".to_string()));
}

#[test]
fn wide_grid_accepts_more_than_it_holds() {
    // 20 wide, 5 high: the check allows 2400 bits, the channels hold 600.
    let mut img = grid(20, 5, 0);
    let msg = "x".repeat(60);
    encode(&mut img, &msg).unwrap();
    let mut expected = msg.clone().into_bytes();
    expected.extend([0u8; 7]);
    assert_eq!(read_payload(&img, ReadMode::Checked), Ok(expected));
}

#[test]
fn corrupted_header_is_a_mismatch() {
    let mut img = grid(10, 10, 0);
    encode(&mut img, "hi").unwrap();
    for t in 0..32 {
        let mut bad = PixelGrid::from_raw(10, 10, img.channels.clone()).unwrap();
        bad.channels[t] |= 1;
        assert!(!header_is_clear(&bad.channels));
        assert_eq!(read_from_image(&bad, ReadMode::Checked), Err(ReadError::HeaderMismatch));
    }
}

#[test]
fn forced_read_starts_at_first_channel() {
    let mut img = grid(10, 10, 0);
    encode(&mut img, "hi").unwrap();
    img.channels[5] |= 1;
    let mut expected = vec![0u8, 0x10, 0, 0, 0, 0, 0, 0];
    expected.extend(b"hi");
    assert_eq!(read_payload(&img, ReadMode::Forced), Ok(expected));
}

#[test]
fn forced_read_of_clean_header_is_empty() {
    let mut img = grid(10, 10, 0);
    encode(&mut img, "hi").unwrap();
    assert_eq!(read_from_image(&img, ReadMode::Forced), Ok(String::new()));
}

#[test]
fn short_grid_header_is_not_clear() {
    let img = grid(3, 3, 0);
    assert!(!header_is_clear(&img.channels));
    assert_eq!(read_payload(&img, ReadMode::Checked), Err(ReadError::HeaderMismatch));
}

#[test]
fn trailing_channels_do_not_matter() {
    let mut a = grid(10, 10, 0x00);
    let mut b = grid(10, 10, 0x00);
    for (i, c) in b.channels.iter_mut().enumerate() {
        *c = (i * 37 % 251) as u8 | 1;
    }
    encode(&mut a, "hi").unwrap();
    encode(&mut b, "hi").unwrap();
    assert_ne!(a.channels[72..], b.channels[72..]);
    assert_eq!(read_from_image(&a, ReadMode::Checked), Ok("hi".to_string()));
    assert_eq!(read_from_image(&b, ReadMode::Checked), Ok("hi".to_string()));
}

#[test]
fn decoded_bytes_must_be_utf8() {
    let mut img = grid(10, 10, 0);
    let mut raw = vec![0u8; 8];
    raw.extend([0xffu8, 0xfe]);
    raw.extend([0u8; 8]);
    embed_bytes(&mut img.channels, &raw);
    assert_eq!(read_payload(&img, ReadMode::Checked), Ok(vec![0xff, 0xfe]));
    assert_eq!(read_from_image(&img, ReadMode::Checked), Err(ReadError::InvalidUtf8));
}

#[test]
fn zero_run_in_message_ends_it_early() {
    let mut img = grid(10, 10, 0);
    let msg = "a\0\0\0\0\0\0\0\0b";
    encode(&mut img, msg).unwrap();
    assert_eq!(read_from_image(&img, ReadMode::Checked), Ok("a".to_string()));
}

#[test]
fn frame_adds_zero_padding() {
    let framed = frame_message(b"ok");
    assert_eq!(framed.len(), 2 + 2 * PADDING_LENGTH);
    assert_eq!(&framed[..8], &[0u8; 8]);
    assert_eq!(&framed[8..10], b"ok");
    assert_eq!(&framed[10..], &[0u8; 8]);
}

#[test]
fn open_text_pads_valid_text() {
    let s = open_text(b"hey".to_vec()).unwrap();
    assert_eq!(s, "\0\0\0\0\0\0\0\0hey\0\0\0\0\0\0\0\0");
}

#[test]
fn open_text_refuses_invalid_utf8() {
    assert_eq!(open_text(vec![b'a', 0xc3]), Err(TextError::InvalidUtf8));
}

#[test]
fn text_of_bytes_decodes() {
    assert_eq!(text_of_bytes("hé".as_bytes().to_vec()), Some("hé".to_string()));
    assert_eq!(text_of_bytes(vec![0x80]), None);
}

#[test]
fn embed_writes_pairs_in_order() {
    let mut ch = vec![0xffu8; 5];
    embed_bytes(&mut ch, &[0b10_01_11_00]);
    assert_eq!(ch, vec![0xfe, 0xfd, 0xff, 0xfc, 0xff]);
}

#[test]
fn embed_stops_at_last_channel() {
    let mut ch = vec![0u8; 2];
    embed_bytes(&mut ch, &[0xff, 0xff]);
    assert_eq!(ch, vec![3, 3]);
}

#[test]
fn extract_without_trailer_keeps_everything() {
    assert_eq!(extract_payload(&vec![1, 2, 3, 0], 0), vec![0b01_10_11_00]);
    assert_eq!(extract_payload(&vec![0xfd], 0), vec![0x40]);
    assert_eq!(extract_payload(&vec![7, 7, 1, 2, 3, 0, 5], 2), vec![0x6c, 0x40]);
    assert_eq!(extract_payload(&vec![], 0), Vec::<u8>::new());
}

#[test]
fn extract_drops_trailer() {
    let mut ch = vec![1u8, 1, 1, 1];
    ch.extend([0u8; 32]);
    ch.extend([3u8; 4]);
    assert_eq!(extract_payload(&ch, 0), vec![0x55]);
}

#[test]
fn from_raw_checks_channel_count() {
    assert!(PixelGrid::from_raw(2, 2, vec![0; 12]).is_some());
    assert!(PixelGrid::from_raw(2, 2, vec![0; 11]).is_none());
}
