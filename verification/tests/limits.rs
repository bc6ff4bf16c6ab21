//! Ceilings, pointer validation and field domains: each error kind comes
//! exactly on the inputs the format rejects.

use heapstore::errors::Error;
use heapstore::heap::NIL;
use heapstore::material::MaterialList;
use heapstore::meta::Meta;
use heapstore::storage::{Storage, StorageDevice, StorageItem};
use heapstore::util::{
    align, read_bytes, read_ptrs, skip_padding, verify_ptr, write_bytes, write_padding,
    write_ptrs, Serializable,
};

#[test]
fn pointer_sentinel_is_valid() {
    assert_eq!(verify_ptr(NIL), Ok(NIL));
    assert_eq!(verify_ptr(0), Ok(0));
    assert_eq!(verify_ptr(i64::MAX), Ok(i64::MAX));
}

#[test]
fn other_negative_pointers_are_invalid() {
    assert_eq!(verify_ptr(-2), Err(Error::InvalidPointer));
    assert_eq!(verify_ptr(i64::MIN), Err(Error::InvalidPointer));
}

#[test]
fn nil_pointer_round_trips_in_every_field() {
    let m = Meta::new(0, NIL, NIL);
    let mut sink: Vec<u8> = Vec::new();
    m.write(&mut sink).unwrap();
    let mut pos: usize = 0;
    assert_eq!(Meta::read(&sink, &mut pos), Ok(m));
}

#[test]
fn encoding_a_bogus_pointer_fails() {
    let m = Meta::new(0, -2, NIL);
    let mut sink: Vec<u8> = Vec::new();
    assert_eq!(m.write(&mut sink), Err(Error::InvalidPointer));
    let d = StorageDevice::new(-7, 0);
    let mut sink: Vec<u8> = Vec::new();
    assert_eq!(d.write(&mut sink), Err(Error::InvalidPointer));
}

#[test]
fn decoding_a_bogus_pointer_fails() {
    // Meta with material list pointer -2: version 0, then the two pointers.
    let mut bytes: Vec<u8> = vec![0x00, 0x00];
    bytes.extend(vec![0xFF, 0xFF, 0xFF, 0xFF, 0xFF, 0xFF, 0xFF, 0xFE]);
    bytes.extend(vec![0xFF; 8]);
    let mut pos: usize = 0;
    assert_eq!(Meta::read(&bytes, &mut pos), Err(Error::InvalidPointer));
}

#[test]
fn storage_ceiling_holds_at_exactly_454() {
    let s = Storage::new(vec![StorageDevice::new(NIL, 0); 454]);
    let mut sink: Vec<u8> = Vec::new();
    s.write(&mut sink).unwrap();
    assert_eq!(sink.len(), s.size());
    let mut pos: usize = 0;
    let back = Storage::read(&sink, &mut pos).unwrap();
    assert_eq!(back.devices.len(), 454);
}

#[test]
fn storage_with_455_devices_fails_to_encode() {
    let s = Storage::new(vec![StorageDevice::new(NIL, 0); 455]);
    let mut sink: Vec<u8> = Vec::new();
    assert_eq!(s.write(&mut sink), Err(Error::LengthExceeded));
    assert_eq!(sink.len(), 0);
}

#[test]
fn storage_with_455_devices_fails_to_decode() {
    // 455 = 0x1C7 as the big-endian count prefix.
    let bytes: Vec<u8> = vec![0x00, 0x00, 0x01, 0xC7];
    let mut pos: usize = 0;
    assert_eq!(Storage::read(&bytes, &mut pos), Err(Error::LengthExceeded));
}

#[test]
fn item_with_negative_material_index_fails() {
    let it = StorageItem::new(-1, 1, NIL);
    let mut sink: Vec<u8> = Vec::new();
    assert_eq!(it.write(&mut sink), Err(Error::InvalidField));
    // The same on decode: index -1 on the wire.
    let mut bytes: Vec<u8> = vec![0xFF, 0xFF, 0xFF, 0xFF];
    bytes.extend(vec![0x00, 0x00, 0x00, 0x00, 0x00, 0x00, 0x00, 0x01]);
    bytes.extend(vec![0xFF; 8]);
    let mut pos: usize = 0;
    assert_eq!(StorageItem::read(&bytes, &mut pos), Err(Error::InvalidField));
}

#[test]
fn item_with_zero_count_fails() {
    let it = StorageItem::new(0, 0, NIL);
    let mut sink: Vec<u8> = Vec::new();
    assert_eq!(it.write(&mut sink), Err(Error::InvalidField));
    let mut bytes: Vec<u8> = vec![0x00, 0x00, 0x00, 0x00];
    bytes.extend(vec![0x00; 8]);
    bytes.extend(vec![0xFF; 8]);
    let mut pos: usize = 0;
    assert_eq!(StorageItem::read(&bytes, &mut pos), Err(Error::InvalidField));
}

#[test]
fn item_with_count_one_succeeds() {
    let it = StorageItem::new(0, 1, NIL);
    let mut sink: Vec<u8> = Vec::new();
    assert_eq!(it.write(&mut sink), Ok(()));
    let mut pos: usize = 0;
    assert_eq!(StorageItem::read(&sink, &mut pos), Ok(it));
}

#[test]
fn negative_length_prefix_fails() {
    // A material list whose count prefix is -1.
    let bytes: Vec<u8> = vec![0xFF, 0xFF, 0xFF, 0xFF];
    let mut pos: usize = 0;
    assert_eq!(
        MaterialList::read(&bytes, &mut pos),
        Err(Error::NegativeLength)
    );
    // The same for a length-prefixed byte string.
    let mut pos: usize = 0;
    assert_eq!(read_bytes(&bytes, &mut pos), Err(Error::NegativeLength));
}

#[test]
fn truncated_input_fails() {
    // Two bytes cannot hold an 18-byte Meta.
    let bytes: Vec<u8> = vec![0x00, 0x01];
    let mut pos: usize = 0;
    assert_eq!(Meta::read(&bytes, &mut pos), Err(Error::TruncatedInput));
    // A declared byte length larger than what follows.
    let bytes: Vec<u8> = vec![0x00, 0x00, 0x00, 0x05, b'a', b'b'];
    let mut pos: usize = 0;
    assert_eq!(read_bytes(&bytes, &mut pos), Err(Error::TruncatedInput));
}

#[test]
fn length_prefixed_bytes_round_trip() {
    let payload: Vec<u8> = vec![1, 2, 3, 4, 5];
    let mut sink: Vec<u8> = Vec::new();
    write_bytes(&mut sink, &payload).unwrap();
    assert_eq!(sink, vec![0x00, 0x00, 0x00, 0x05, 1, 2, 3, 4, 5]);
    let mut pos: usize = 0;
    assert_eq!(read_bytes(&sink, &mut pos), Ok(payload));
    assert_eq!(pos, sink.len());
}

#[test]
fn pointer_sequences_validate_every_element() {
    let good: Vec<i64> = vec![0, NIL, 42];
    let mut sink: Vec<u8> = Vec::new();
    write_ptrs(&mut sink, &good).unwrap();
    let mut pos: usize = 0;
    assert_eq!(read_ptrs(&sink, &mut pos, -1), Ok(good));

    let bad: Vec<i64> = vec![0, -3];
    let mut sink: Vec<u8> = Vec::new();
    assert_eq!(write_ptrs(&mut sink, &bad), Err(Error::InvalidPointer));

    // A ceiling passed by the caller is enforced on decode.
    let three: Vec<i64> = vec![1, 2, 3];
    let mut sink: Vec<u8> = Vec::new();
    write_ptrs(&mut sink, &three).unwrap();
    let mut pos: usize = 0;
    assert_eq!(read_ptrs(&sink, &mut pos, 2), Err(Error::LengthExceeded));
}

#[test]
fn a_failed_encode_flushes_exactly_the_fields_before_the_bad_one() {
    // Meta: the version is flushed before the first pointer is validated.
    let m = Meta::new(1, -2, NIL);
    let mut sink: Vec<u8> = Vec::new();
    assert_eq!(m.write(&mut sink), Err(Error::InvalidPointer));
    assert_eq!(sink, vec![0x00, 0x01]);
    // ... and the version plus the first pointer before the second one.
    let m = Meta::new(1, 3, -2);
    let mut sink: Vec<u8> = Vec::new();
    assert_eq!(m.write(&mut sink), Err(Error::InvalidPointer));
    assert_eq!(sink.len(), 10);
    assert_eq!(&sink[..2], &[0x00, 0x01]);
    assert_eq!(sink[9], 3);
    // StorageItem: both plain fields are flushed before the pointer check.
    let it = StorageItem::new(0, 1, -2);
    let mut sink: Vec<u8> = Vec::new();
    assert_eq!(it.write(&mut sink), Err(Error::InvalidPointer));
    assert_eq!(sink.len(), 12);
    // A pointer sequence: the count prefix and the pointers before the bad
    // one stay written.
    let ptrs: Vec<i64> = vec![5, -3, 7];
    let mut sink: Vec<u8> = Vec::new();
    assert_eq!(write_ptrs(&mut sink, &ptrs), Err(Error::InvalidPointer));
    assert_eq!(sink.len(), 12);
    assert_eq!(&sink[..4], &[0x00, 0x00, 0x00, 0x03]);
    assert_eq!(sink[11], 5);
}

#[test]
fn validation_before_the_first_byte_leaves_the_sink_untouched() {
    // StorageDevice validates its pointer before writing anything.
    let d = StorageDevice::new(-7, 0);
    let mut sink: Vec<u8> = vec![9];
    assert_eq!(d.write(&mut sink), Err(Error::InvalidPointer));
    assert_eq!(sink, vec![9]);
    // StorageItem validates its plain fields before writing anything.
    let it = StorageItem::new(-1, 1, NIL);
    let mut sink: Vec<u8> = vec![9];
    assert_eq!(it.write(&mut sink), Err(Error::InvalidField));
    assert_eq!(sink, vec![9]);
    let it = StorageItem::new(0, 0, NIL);
    let mut sink: Vec<u8> = vec![9];
    assert_eq!(it.write(&mut sink), Err(Error::InvalidField));
    assert_eq!(sink, vec![9]);
}

#[test]
fn a_bad_element_inside_a_sequence_reports_its_own_error() {
    // Encoding a storage whose device holds a bogus pointer: the count and
    // the well-formed device before it stay written, nothing of the bad one.
    let s = Storage::new(vec![StorageDevice::new(0, 1), StorageDevice::new(-4, 2)]);
    let mut sink: Vec<u8> = Vec::new();
    assert_eq!(s.write(&mut sink), Err(Error::InvalidPointer));
    assert_eq!(sink.len(), 4 + 9);
    assert_eq!(&sink[..4], &[0x00, 0x00, 0x00, 0x02]);
    // Decoding a material list whose second entry is cut short.
    let mut bytes: Vec<u8> = vec![0x00, 0x00, 0x00, 0x02]; // two materials
    bytes.extend(vec![0x00, 0x00, 0x00, 0x01, b'x']); // first: one byte
    bytes.extend(vec![0x00, 0x00, 0x00, 0x09, b'y']); // second: nine declared, one present
    let mut pos: usize = 0;
    assert_eq!(
        MaterialList::read(&bytes, &mut pos),
        Err(Error::TruncatedInput)
    );
}

#[test]
fn padding_blocks_are_written_as_filler_and_skipped_on_read() {
    let mut sink: Vec<u8> = vec![7];
    write_padding(&mut sink, 3);
    assert_eq!(sink, vec![7, 0xFF, 0xFF, 0xFF]);
    let mut pos: usize = 1;
    assert_eq!(skip_padding(&sink, &mut pos, 3), Ok(()));
    assert_eq!(pos, 4);
    // Skipping is not validated: arbitrary content passes.
    let junk: Vec<u8> = vec![1, 2, 3];
    let mut pos: usize = 0;
    assert_eq!(skip_padding(&junk, &mut pos, 2), Ok(()));
    assert_eq!(pos, 2);
    // But it must fit what is left.
    assert_eq!(skip_padding(&junk, &mut pos, 2), Err(Error::TruncatedInput));
    assert_eq!(pos, 2);
}

#[test]
fn align_rounds_up_to_the_next_multiple() {
    assert_eq!(align(0, 16), 0);
    assert_eq!(align(1, 16), 16);
    assert_eq!(align(16, 16), 16);
    assert_eq!(align(17, 16), 32);
    assert_eq!(align(4096, 4096), 4096);
    assert_eq!(align(4097, 4096), 8192);
    assert_eq!(align(10, 3), 12);
}
