use besked::stream::Header;
use besked::stream::Offset;
use besked::stream::StreamSize;
use besked::stream::Uid;

#[test]
fn stream_header_splits_into_tag_and_size() {
    let h = Header::new(0b101_01100).unwrap();
    assert_eq!(h.uid(), 0b101);
    assert_eq!(h.uid_raw(), 0b101_00000);
    assert_eq!(h.offset(), 0b01100);
    assert_eq!(h.to_u8(), 0b101_01100);
    assert!(h.has_two_elem());
    assert!(!h.has_one_elem());
}

#[test]
fn stream_header_refuses_a_zero_tag() {
    assert!(Header::new(0b000_11111).is_none());
    assert!(Header::new(0).is_none());
    assert!(Header::new(0b001_00000).is_some());
}

#[test]
fn a_bare_tag_header_has_one_element() {
    let h = Header::new_offset_uid(Offset::new_unsized(), Uid::new(0b010_00000).unwrap());
    assert!(h.has_one_elem());
    assert_eq!(h.uid(), 0b010);
    assert_eq!(h.offset(), 0);
    assert_eq!(h.to_u8(), 0b010_00000);
}

#[test]
fn tags_reject_foreign_bits_and_zero() {
    assert!(Uid::new(0b000_00001).is_none());
    assert!(Uid::new(0).is_none());
    let u = Uid::new(0b011_00000).unwrap();
    assert_eq!(u.to_u8(), 0b011);
    assert_eq!(u.to_raw_u8(), 0b011_00000);
    assert!(Uid::valid_by_val(0b111_00000));
    assert!(!Uid::valid_by_val(0b000_10000));
    let lossy = Uid::new_lossy(0b110_01010).unwrap();
    assert_eq!(lossy.to_u8(), 0b110);
    assert!(Uid::new_lossy(0b000_01010).is_none());
}

#[test]
fn stream_sizes_round_trip_their_bits() {
    assert_eq!(StreamSize::from_byte(0), Some(StreamSize::Unsized));
    assert_eq!(StreamSize::from_byte(17), Some(StreamSize::Representable(17)));
    assert_eq!(StreamSize::from_byte(0b100_00001), None);
    assert_eq!(StreamSize::from_byte_lossy(0b101_00000), StreamSize::Unsized);
    assert_eq!(StreamSize::from_byte_lossy(0b101_00110), StreamSize::Representable(6));
    assert_eq!(StreamSize::Unsized.to_byte(), 0);
    assert_eq!(StreamSize::Representable(31).to_byte(), 31);
}

#[test]
fn transactions_are_framed_with_one_terminator() {
    let h = Header::new(0b001_00011).unwrap();
    assert_eq!(
        besked::stream::frame_transaction(h, b"abc"),
        vec![0b001_00011, b'a', b'b', b'c', 0],
    );
    assert_eq!(
        besked::stream::frame_transaction(h, &[b'a', 0]),
        vec![0b001_00011, b'a', 0],
    );
    assert_eq!(besked::stream::frame_transaction(h, &[]), vec![0b001_00011, 0]);
}

#[test]
fn sizes_mask_and_reject_as_documented() {
    assert_eq!(Offset::new_lossy(0b111_01010).to_u8(), 0b01010);
    assert!(Offset::new(0b001_00000).is_none());
    assert_eq!(Offset::new(0b000_11111).unwrap().to_u8(), 31);
    assert_eq!(Offset::new_unsized().to_u8(), 0);
}
