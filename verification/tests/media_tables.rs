use sfu_relay::media::MediaTable;
use sfu_relay::media::lower_ascii;
use sfu_relay::media::translate_payload;
use sfu_relay::media::vec_u8_eq;

#[test]
fn lookup_both_directions() {
    let mut t = MediaTable::new();
    assert!(t.add(111, b"opus".to_vec()));
    assert!(t.add(96, b"H264".to_vec()));
    assert_eq!(t.get_name(111), Some(b"opus".to_vec()));
    assert_eq!(t.get_name(96), Some(b"h264".to_vec()));
    assert_eq!(t.get_id(&b"opus".to_vec()), Some(111));
    assert_eq!(t.get_id(&b"h264".to_vec()), Some(96));
    assert_eq!(t.get_name(97), None);
    assert_eq!(t.get_id(&b"vp8".to_vec()), None);
}

#[test]
fn lookup_is_case_insensitive() {
    let mut t = MediaTable::new();
    assert!(t.add(111, b"OPUS".to_vec()));
    // stored lowercase, found under any case
    assert_eq!(t.get_name(111), Some(b"opus".to_vec()));
    assert_eq!(t.get_id(&b"Opus".to_vec()), Some(111));
    assert_eq!(t.get_id(&b"oPuS".to_vec()), Some(111));
}

#[test]
fn duplicate_entries_are_rejected() {
    let mut t = MediaTable::new();
    assert!(t.add(111, b"opus".to_vec()));
    // same payload type again
    assert!(!t.add(111, b"vp8".to_vec()));
    // same name again, under another case
    assert!(!t.add(96, b"Opus".to_vec()));
    // payload types are seven bits
    assert!(!t.add(128, b"vp9".to_vec()));
    assert_eq!(t.get_id(&b"vp8".to_vec()), None);
    assert_eq!(t.get_name(96), None);
}

#[test]
fn translate_and_back_returns_source() {
    let mut a = MediaTable::new();
    assert!(a.add(111, b"opus".to_vec()));
    assert!(a.add(96, b"h264".to_vec()));
    let mut b = MediaTable::new();
    assert!(b.add(109, b"opus".to_vec()));
    assert!(b.add(100, b"h264".to_vec()));

    assert_eq!(translate_payload(&a, &b, 111), Some(109));
    assert_eq!(translate_payload(&b, &a, 109), Some(111));
    assert_eq!(translate_payload(&a, &b, 96), Some(100));
    assert_eq!(translate_payload(&b, &a, 100), Some(96));
    // a codec absent from the destination does not translate
    assert!(a.add(97, b"vp8".to_vec()));
    assert_eq!(translate_payload(&a, &b, 97), None);
    // an unknown source payload type does not translate
    assert_eq!(translate_payload(&a, &b, 50), None);
}

#[test]
fn ascii_lowercase_bytes() {
    assert!(vec_u8_eq(&lower_ascii(&b"OpUs-2/X".to_vec()), &b"opus-2/x".to_vec()));
    assert!(vec_u8_eq(&lower_ascii(&b"".to_vec()), &b"".to_vec()));
    assert!(!vec_u8_eq(&b"opus".to_vec(), &b"opus2".to_vec()));
}
