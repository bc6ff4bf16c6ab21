//! Aligned appends into the heap and the end-to-end write/read scenario.

use heapstore::heap::{Heap, NIL};
use heapstore::material::{Material, MaterialList};
use heapstore::meta::Meta;
use heapstore::storage::{Storage, StorageDevice, StorageItem, StorageList, StoragePage};
use heapstore::util::Serializable;

const HEAP_ALIGN: usize = 4096;

#[test]
fn write_aligned_pads_to_a_block_boundary() {
    let m = Material::new(b"ab".to_vec());
    let mut sink: Vec<u8> = Vec::new();
    let blocks = m.write_aligned(&mut sink, 16).unwrap();
    assert_eq!(blocks, 1);
    assert_eq!(sink.len(), 16);
    assert_eq!(&sink[..6], &[0x00, 0x00, 0x00, 0x02, b'a', b'b']);
    assert!(sink[6..].iter().all(|&b| b == 0xFF));
}

#[test]
fn write_aligned_cursor_is_a_multiple_of_the_alignment() {
    let p = StoragePage::new(vec![StorageItem::new(0, 1, NIL); 3]);
    for alignment in [1usize, 2, 7, 64, 4096] {
        let mut sink: Vec<u8> = vec![9, 9, 9]; // unaligned prior content
        let before = sink.len();
        let blocks = p.write_aligned(&mut sink, alignment).unwrap();
        let appended = sink.len() - before;
        assert_eq!(appended % alignment, 0);
        assert_eq!(blocks * alignment, appended);
        assert!(appended >= p.size());
        assert!(appended - p.size() < alignment);
    }
}

#[test]
fn write_aligned_with_exact_fit_adds_no_padding() {
    // A storage list of three pointers occupies 28 bytes exactly.
    let l = StorageList::new(vec![0, 4096, NIL]);
    assert_eq!(l.size(), 28);
    let mut sink: Vec<u8> = Vec::new();
    let blocks = l.write_aligned(&mut sink, 28).unwrap();
    assert_eq!(blocks, 1);
    assert_eq!(sink.len(), 28);
}

#[test]
fn write_aligned_propagates_the_records_error() {
    let s = Storage::new(vec![StorageDevice::new(-9, 0)]);
    let mut sink: Vec<u8> = Vec::new();
    assert!(s.write_aligned(&mut sink, 4096).is_err());
}

#[test]
fn three_records() {
    // Write side: append each record at the heap's end, aligned, keeping
    // the offset where it began as its pointer.
    let mut heap = Heap::new(Vec::new());
    let mut meta = Meta::default();

    let material_list = MaterialList::new(vec![Material::new(b"minecraft:stone".to_vec())]);
    let p0 = heap.alloc_end() as i64;
    material_list.write_aligned(&mut heap.source, HEAP_ALIGN).unwrap();
    meta.material_list_ptr = p0;

    let storage_page = StoragePage::new(vec![StorageItem::new(0, 64000, NIL)]);
    let p1 = heap.alloc_end() as i64;
    storage_page.write_aligned(&mut heap.source, HEAP_ALIGN).unwrap();

    let storage = Storage::new(vec![StorageDevice::new(p1, 0)]);
    let p2 = heap.alloc_end() as i64;
    storage.write_aligned(&mut heap.source, HEAP_ALIGN).unwrap();

    let storage_list = StorageList::new(vec![p2]);
    let p3 = heap.alloc_end() as i64;
    storage_list.write_aligned(&mut heap.source, HEAP_ALIGN).unwrap();
    meta.storage_list_ptr = p3;

    let mut meta_sink: Vec<u8> = Vec::new();
    meta.write(&mut meta_sink).unwrap();

    // Every record starts on an alignment boundary.
    assert_eq!(p0, 0);
    assert_eq!(p1 as usize % HEAP_ALIGN, 0);
    assert_eq!(p2 as usize % HEAP_ALIGN, 0);
    assert_eq!(p3 as usize % HEAP_ALIGN, 0);

    // Read side: decode Meta, follow both pointers, and reconstruct the
    // identical five records.
    let mut meta_pos: usize = 0;
    let meta_back = Meta::read(&meta_sink, &mut meta_pos).unwrap();
    assert_eq!(meta_back, meta);

    heap.seek(meta_back.material_list_ptr as usize);
    let ml_back = MaterialList::read(&heap.source, &mut heap.pos).unwrap();
    assert_eq!(ml_back, material_list);

    heap.seek(meta_back.storage_list_ptr as usize);
    let sl_back = StorageList::read(&heap.source, &mut heap.pos).unwrap();
    assert_eq!(sl_back, storage_list);

    heap.seek(sl_back.storages[0] as usize);
    let storage_back = Storage::read(&heap.source, &mut heap.pos).unwrap();
    assert_eq!(storage_back, storage);

    heap.seek(storage_back.devices[0].ptr as usize);
    let page_back = StoragePage::read(&heap.source, &mut heap.pos).unwrap();
    assert_eq!(page_back, storage_page);

    // Resolving the item's material index against the decoded material
    // list yields the original key.
    let item = &page_back.items[0];
    assert_eq!(item.count, 64000);
    assert_eq!(item.meta_ptr, NIL);
    let key = &ml_back.materials[item.material_index as usize].key;
    assert_eq!(key, &b"minecraft:stone".to_vec());
}
