use pagestore::codec::{decode, encode, from_buffer, pad_to_page, to_buffer, CodecError, Song, SONG_LEN};
use pagestore::shared::PAGE_SIZE;

#[test]
fn encode_decode() {
    let cry_baby = Song::new(1, "Cry Baby", "The Neighbourhood");
    let bytes = encode(&cry_baby);
    let decoded = decode(&bytes).unwrap();

    assert_eq!(cry_baby.id, decoded.id);
    assert_eq!(cry_baby.artist, decoded.artist);
    assert_eq!(cry_baby.title, decoded.title);
}

#[test]
fn encode_decode_buffer() {
    let cry_baby = Song::new(1, "Cry Baby", "The Neighbourhood");
    let buf = to_buffer(&cry_baby).unwrap();
    let decoded = from_buffer(&buf).unwrap();

    assert_eq!(cry_baby.id, decoded.id);
    assert_eq!(cry_baby.artist, decoded.artist);
    assert_eq!(cry_baby.title, decoded.title);
}

#[test]
fn helium_buffer_round_trip() {
    let helium = Song::new(1, "Helium", "Glass Animals");
    let buf = to_buffer(&helium).unwrap();
    assert_eq!(buf.len(), PAGE_SIZE);
    let back = from_buffer(&buf).unwrap();
    assert_eq!(back.id, 1);
    assert_eq!(&back.title[..6], b"Helium");
    assert_eq!(&back.artist[..13], b"Glass Animals");
    assert_eq!(helium.title, back.title);
    assert_eq!(helium.artist, back.artist);
}

#[test]
fn song_layout_is_little_endian_fixed_width() {
    let s = Song::new(0x01020304, "ab", "c");
    let bytes = encode(&s);
    assert_eq!(bytes.len(), SONG_LEN);
    assert_eq!(&bytes[..4], &[4u8, 3, 2, 1]);
    assert_eq!(&bytes[4..7], b"ab\0");
    assert_eq!(bytes[54], b'c');
    assert!(bytes[55..].iter().all(|b| *b == 0));
}

#[test]
fn negative_id_round_trips() {
    let s = Song::new(-1, "x", "y");
    let bytes = encode(&s);
    assert_eq!(&bytes[..4], &[0xffu8, 0xff, 0xff, 0xff]);
    assert_eq!(decode(&bytes).unwrap().id, -1);
    let m = Song::new(i32::MIN, "", "");
    assert_eq!(decode(&encode(&m)).unwrap().id, i32::MIN);
}

#[test]
fn padding_is_zero_and_ignored() {
    let s = Song::new(7, "Paris", "The 1975");
    let buf = to_buffer(&s).unwrap();
    assert!(buf[SONG_LEN..].iter().all(|b| *b == 0));
    assert_eq!(&buf[..SONG_LEN], &encode(&s)[..]);
}

#[test]
fn truncated_input_is_rejected() {
    let s = Song::new(3, "Chlorine", "21 Pilots");
    let bytes = encode(&s);
    let short = bytes[..SONG_LEN - 1].to_vec();
    assert_eq!(decode(&short).err(), Some(CodecError::Truncated));
    assert_eq!(from_buffer(&Vec::new()).err(), Some(CodecError::Truncated));
}

#[test]
fn oversized_record_is_rejected() {
    let big = vec![1u8; PAGE_SIZE + 1];
    assert_eq!(pad_to_page(&big).err(), Some(CodecError::BufferTooLarge));
    let exact = vec![1u8; PAGE_SIZE];
    assert_eq!(pad_to_page(&exact).unwrap(), exact);
    let small = vec![9u8, 8];
    let padded = pad_to_page(&small).unwrap();
    assert_eq!(padded.len(), PAGE_SIZE);
    assert_eq!(&padded[..2], &[9u8, 8]);
    assert!(padded[2..].iter().all(|b| *b == 0));
}

#[test]
fn song_layout_matches_bincode() {
    let s = Song::new(-42, "Tangerine (feat Arlo Parks)", "Glass Animals, Arlo Parks");
    let mut t0 = [0u8; 32];
    let mut t1 = [0u8; 18];
    let mut a0 = [0u8; 32];
    let mut a1 = [0u8; 18];
    t0.copy_from_slice(&s.title[..32]);
    t1.copy_from_slice(&s.title[32..]);
    a0.copy_from_slice(&s.artist[..32]);
    a1.copy_from_slice(&s.artist[32..]);
    let via_bincode = bincode::serialize(&(s.id, t0, t1, a0, a1)).unwrap();
    assert_eq!(encode(&s), via_bincode);
}
