//! Round trips, exact wire bytes and size accuracy for every record type.

use heapstore::heap::NIL;
use heapstore::material::{Material, MaterialList};
use heapstore::meta::Meta;
use heapstore::storage::{Storage, StorageDevice, StorageItem, StorageList, StoragePage};
use heapstore::util::Serializable;

fn encode<T: Serializable>(x: &T) -> Vec<u8> {
    let mut sink: Vec<u8> = Vec::new();
    x.write(&mut sink).expect("encoding a well-formed record succeeds");
    sink
}

fn decode<T: Serializable>(bytes: &Vec<u8>) -> T {
    let mut pos: usize = 0;
    let r = T::read(bytes, &mut pos).expect("decoding an encoded record succeeds");
    assert_eq!(pos, bytes.len(), "decode consumes exactly the encoded bytes");
    r
}

#[test]
fn meta_round_trip() {
    let m = Meta::new(1, 0, NIL);
    let bytes = encode(&m);
    assert_eq!(bytes.len(), m.size());
    let back: Meta = decode(&bytes);
    assert_eq!(back, m);
}

#[test]
fn meta_exact_bytes() {
    let m = Meta::new(1, 2, NIL);
    let bytes = encode(&m);
    let expected: Vec<u8> = vec![
        0x00, 0x01, // version 1
        0x00, 0x00, 0x00, 0x00, 0x00, 0x00, 0x00, 0x02, // material list at 2
        0xFF, 0xFF, 0xFF, 0xFF, 0xFF, 0xFF, 0xFF, 0xFF, // storage list NIL
    ];
    assert_eq!(bytes, expected);
    assert_eq!(m.size(), 18);
}

#[test]
fn material_round_trip() {
    let m = Material::new(b"minecraft:stone".to_vec());
    let bytes = encode(&m);
    assert_eq!(bytes.len(), m.size());
    let back: Material = decode(&bytes);
    assert_eq!(back, m);
}

#[test]
fn material_exact_bytes() {
    let m = Material::new(vec![b'a', b'b']);
    let bytes = encode(&m);
    assert_eq!(bytes, vec![0x00, 0x00, 0x00, 0x02, b'a', b'b']);
    assert_eq!(m.size(), 6);
}

#[test]
fn material_list_round_trip() {
    let m = MaterialList::new(vec![
        Material::new(b"minecraft:stone".to_vec()),
        Material::new(Vec::new()),
        Material::new(b"minecraft:dirt".to_vec()),
    ]);
    let bytes = encode(&m);
    assert_eq!(bytes.len(), m.size());
    let back: MaterialList = decode(&bytes);
    assert_eq!(back, m);
}

#[test]
fn empty_material_list_exact_bytes() {
    let m = MaterialList::default();
    let bytes = encode(&m);
    assert_eq!(bytes, vec![0x00, 0x00, 0x00, 0x00]);
    assert_eq!(m.size(), 4);
}

#[test]
fn storage_device_round_trip() {
    let d = StorageDevice::new(4096, 3);
    let bytes = encode(&d);
    assert_eq!(bytes.len(), d.size());
    assert_eq!(d.size(), 9);
    let back: StorageDevice = decode(&bytes);
    assert_eq!(back, d);
}

#[test]
fn storage_device_exact_bytes() {
    let d = StorageDevice::new(NIL, -2);
    let bytes = encode(&d);
    assert_eq!(
        bytes,
        vec![0xFF, 0xFF, 0xFF, 0xFF, 0xFF, 0xFF, 0xFF, 0xFF, 0xFE]
    );
}

#[test]
fn storage_round_trip() {
    let s = Storage::new(vec![StorageDevice::new(0, 0), StorageDevice::new(8192, 1)]);
    let bytes = encode(&s);
    assert_eq!(bytes.len(), s.size());
    assert_eq!(s.size(), 4 + 2 * 9);
    let back: Storage = decode(&bytes);
    assert_eq!(back, s);
}

#[test]
fn storage_item_round_trip() {
    let it = StorageItem::new(0, 64000, NIL);
    let bytes = encode(&it);
    assert_eq!(bytes.len(), it.size());
    assert_eq!(it.size(), 20);
    let back: StorageItem = decode(&bytes);
    assert_eq!(back, it);
}

#[test]
fn storage_item_exact_bytes() {
    let it = StorageItem::new(1, 2, NIL);
    let bytes = encode(&it);
    let expected: Vec<u8> = vec![
        0x00, 0x00, 0x00, 0x01, // material index 1
        0x00, 0x00, 0x00, 0x00, 0x00, 0x00, 0x00, 0x02, // count 2
        0xFF, 0xFF, 0xFF, 0xFF, 0xFF, 0xFF, 0xFF, 0xFF, // metadata NIL
    ];
    assert_eq!(bytes, expected);
}

#[test]
fn storage_page_round_trip() {
    let p = StoragePage::new(vec![
        StorageItem::new(0, 1, NIL),
        StorageItem::new(7, 64000, 4096),
    ]);
    let bytes = encode(&p);
    assert_eq!(bytes.len(), p.size());
    assert_eq!(p.size(), 4 + 2 * 20);
    let back: StoragePage = decode(&bytes);
    assert_eq!(back, p);
}

#[test]
fn storage_list_round_trip() {
    let l = StorageList::new(vec![0, 4096, NIL, 123456789]);
    let bytes = encode(&l);
    assert_eq!(bytes.len(), l.size());
    assert_eq!(l.size(), 4 + 4 * 8);
    let back: StorageList = decode(&bytes);
    assert_eq!(back, l);
}

#[test]
fn default_records_are_empty() {
    let ml = MaterialList::default();
    assert_eq!(ml.materials.len(), 0);
    let s = Storage::default();
    assert_eq!(s.devices.len(), 0);
    let p = StoragePage::default();
    assert_eq!(p.items.len(), 0);
    let sl = StorageList::default();
    assert_eq!(sl.storages.len(), 0);
    let m = Meta::default();
    assert_eq!(m.version, 1);
    assert_eq!(m.material_list_ptr, NIL);
    assert_eq!(m.storage_list_ptr, NIL);
}

#[test]
fn negative_values_round_trip_in_unconstrained_fields() {
    // The version and the page type are opaque tags: any value round-trips.
    let m = Meta::new(-12345, NIL, NIL);
    let back: Meta = decode(&encode(&m));
    assert_eq!(back, m);
    let d = StorageDevice::new(0, -128);
    let back: StorageDevice = decode(&encode(&d));
    assert_eq!(back, d);
}
