//! Storages: the storage list (pointers to storages), storages (device
//! sequences with a hard ceiling), devices, pages and items.

use crate::errors::Error;
use crate::util::{
    lemma_parse_n_of_bytes, lemma_parse_n_ok, lemma_prefix_of_concat, lemma_prefix_trans,
    lemma_subrange_join, lemma_subrange_split, read_ptr, read_ptrs, read_slice, slice_size,
    spec_slice_err_bytes,
    spec_elems_bytes, spec_elems_wf, spec_first_elem_err, spec_parse_ptr, spec_parse_slice,
    spec_ptr_valid, spec_slice_bytes, spec_slice_wf, spec_slice_write_err, write_ptr, write_ptrs,
    write_slice, Serializable,
};
use crate::wire::{
    lemma_parse_i32_exact, lemma_parse_i32_of_bytes, lemma_parse_i64_exact,
    lemma_parse_i64_of_bytes, lemma_parse_i8_exact, lemma_parse_i8_of_bytes, read_i32_be,
    read_i64_be, read_i8, spec_i32_bytes, spec_i64_bytes, spec_i8_bytes, spec_parse_i32,
    spec_parse_i64, spec_parse_i8, write_i32_be, write_i64_be, write_i8,
};
use vstd::prelude::*;

verus! {

/// The hard ceiling on the number of devices a single storage may hold.
pub const MAX_DEVICES: i32 = 454;

// ---------------------------------------------------------------------------
// StorageList
// ---------------------------------------------------------------------------

/// The ordered sequence of pointers to Storage records; each pointer is
/// validated on both encode and decode.
#[derive(Clone, Debug, PartialEq, Eq)]
pub struct StorageList {
    pub storages: Vec<i64>,
}

impl StorageList {
    pub fn new(storages: Vec<i64>) -> (m: StorageList)
        ensures
            m.storages@ == storages@,
    {
        StorageList { storages }
    }
}

impl Default for StorageList {
    /// An empty storage list.
    fn default() -> (m: StorageList)
        ensures
            m.deep_view() == Seq::<i64>::empty(),
    {
        let m = StorageList { storages: Vec::new() };
        proof {
            assert(m.deep_view() =~= Seq::<i64>::empty());
        }
        m
    }
}

impl DeepView for StorageList {
    type V = Seq<i64>;

    open spec fn deep_view(&self) -> Seq<i64> {
        self.storages.deep_view()
    }
}

impl Serializable for StorageList {
    open spec fn spec_wf(m: Seq<i64>) -> bool {
        spec_slice_wf::<i64>(m)
    }

    open spec fn spec_bytes(m: Seq<i64>) -> Seq<u8> {
        spec_slice_bytes::<i64>(m)
    }

    open spec fn spec_write_err(m: Seq<i64>) -> Error {
        spec_slice_write_err::<i64>(m)
    }

    open spec fn spec_err_bytes(m: Seq<i64>) -> Seq<u8> {
        spec_slice_err_bytes::<i64>(m)
    }

    open spec fn spec_parse(s: Seq<u8>, pos: int) -> Result<(Seq<i64>, int), Error> {
        spec_parse_slice::<i64>(s, pos, -1i32)
    }

    proof fn lemma_parse_bytes(m: Seq<i64>, s: Seq<u8>, pos: int) {
        lemma_subrange_split(s, pos, spec_i32_bytes(m.len() as i32), spec_elems_bytes::<i64>(m));
        lemma_parse_i32_of_bytes(m.len() as i32, s, pos);
        lemma_parse_n_of_bytes::<i64>(m, s, pos + 4);
    }

    proof fn lemma_parse_ok(s: Seq<u8>, pos: int) {
        if Self::spec_parse(s, pos) is Ok {
            lemma_parse_i32_exact(s, pos);
            let (n, p) = spec_parse_i32(s, pos)->Ok_0;
            lemma_parse_n_ok::<i64>(s, p, n as nat);
            let (ms, q) = Self::spec_parse(s, pos)->Ok_0;
            if n == 0 {
                assert(ms =~= Seq::<i64>::empty());
                assert(s.subrange(p, q) =~= spec_elems_bytes::<i64>(ms));
            }
            lemma_subrange_join(s, pos, p, q);
        }
    }

    fn size(&self) -> (n: usize) {
        slice_size(&self.storages)
    }

    fn read(src: &Vec<u8>, pos: &mut usize) -> (r: Result<StorageList, Error>) {
        match read_ptrs(src, pos, -1) {
            Ok(storages) => Ok(StorageList { storages }),
            Err(e) => Err(e),
        }
    }

    fn write(&self, sink: &mut Vec<u8>) -> (r: Result<(), Error>) {
        write_ptrs(sink, &self.storages)
    }
}

// ---------------------------------------------------------------------------
// StorageDevice
// ---------------------------------------------------------------------------

/// One device of a storage: an optional pointer to its page of items and
/// an opaque page-type tag.
#[derive(Clone, Copy, Debug, PartialEq, Eq, Structural)]
pub struct StorageDevice {
    pub ptr: i64,
    pub page_type: i8,
}

impl StorageDevice {
    pub fn new(ptr: i64, page_type: i8) -> (m: StorageDevice)
        ensures
            m == (StorageDevice { ptr, page_type }),
    {
        StorageDevice { ptr, page_type }
    }
}

impl DeepView for StorageDevice {
    type V = StorageDevice;

    open spec fn deep_view(&self) -> StorageDevice {
        *self
    }
}

impl Serializable for StorageDevice {
    open spec fn spec_wf(m: StorageDevice) -> bool {
        spec_ptr_valid(m.ptr)
    }

    open spec fn spec_bytes(m: StorageDevice) -> Seq<u8> {
        spec_i64_bytes(m.ptr) + spec_i8_bytes(m.page_type)
    }

    open spec fn spec_write_err(m: StorageDevice) -> Error {
        Error::InvalidPointer
    }

    open spec fn spec_err_bytes(m: StorageDevice) -> Seq<u8> {
        Seq::empty()
    }

    open spec fn spec_parse(s: Seq<u8>, pos: int) -> Result<(StorageDevice, int), Error> {
        match spec_parse_ptr(s, pos) {
            Err(e) => Err(e),
            Ok((ptr, p1)) => match spec_parse_i8(s, p1) {
                Err(e) => Err(e),
                Ok((page_type, p2)) => Ok((StorageDevice { ptr, page_type }, p2)),
            },
        }
    }

    proof fn lemma_parse_bytes(m: StorageDevice, s: Seq<u8>, pos: int) {
        lemma_subrange_split(s, pos, spec_i64_bytes(m.ptr), spec_i8_bytes(m.page_type));
        lemma_parse_i64_of_bytes(m.ptr, s, pos);
        lemma_parse_i8_of_bytes(m.page_type, s, pos + 8);
    }

    proof fn lemma_parse_ok(s: Seq<u8>, pos: int) {
        if Self::spec_parse(s, pos) is Ok {
            crate::util::lemma_parse_ptr_exact(s, pos);
            lemma_parse_i8_exact(s, pos + 8);
            lemma_subrange_join(s, pos, pos + 8, pos + 9);
        }
    }

    fn size(&self) -> (n: usize) {
        9
    }

    fn read(src: &Vec<u8>, pos: &mut usize) -> (r: Result<StorageDevice, Error>) {
        let ptr = match read_ptr(src, pos) {
            Ok(v) => v,
            Err(e) => {
                return Err(e);
            },
        };
        let page_type = match read_i8(src, pos) {
            Ok(v) => v,
            Err(e) => {
                return Err(e);
            },
        };
        Ok(StorageDevice { ptr, page_type })
    }

    fn write(&self, sink: &mut Vec<u8>) -> (r: Result<(), Error>) {
        let ghost a = spec_i64_bytes(self.ptr);
        let ghost b = spec_i8_bytes(self.page_type);
        match write_ptr(sink, self.ptr) {
            Ok(()) => {},
            Err(e) => {
                proof {
                    assert(sink@.subrange(0, sink@.len() as int) =~= sink@);
                    assert(sink@ =~= old(sink)@ + Seq::<u8>::empty());
                }
                return Err(e);
            },
        }
        write_i8(sink, self.page_type);
        proof {
            assert(sink@ =~= old(sink)@ + (a + b));
            lemma_prefix_of_concat(old(sink)@, a + b);
        }
        Ok(())
    }
}

// ---------------------------------------------------------------------------
// Storage
// ---------------------------------------------------------------------------

/// One storage: an ordered sequence of devices, at most `MAX_DEVICES` of
/// them.
#[derive(Clone, Debug, PartialEq, Eq)]
pub struct Storage {
    pub devices: Vec<StorageDevice>,
}

impl Storage {
    /// A storage over the given devices. The constructor itself is
    /// infallible; the `MAX_DEVICES` ceiling is enforced, provably, on
    /// both encode and decode.
    pub fn new(devices: Vec<StorageDevice>) -> (m: Storage)
        ensures
            m.devices@ == devices@,
    {
        Storage { devices }
    }
}

impl Default for Storage {
    /// A storage with no devices.
    fn default() -> (m: Storage)
        ensures
            m.deep_view() == Seq::<StorageDevice>::empty(),
    {
        let m = Storage { devices: Vec::new() };
        proof {
            assert(m.deep_view() =~= Seq::<StorageDevice>::empty());
        }
        m
    }
}

impl DeepView for Storage {
    type V = Seq<StorageDevice>;

    open spec fn deep_view(&self) -> Seq<StorageDevice> {
        self.devices.deep_view()
    }
}

impl Serializable for Storage {
    open spec fn spec_wf(m: Seq<StorageDevice>) -> bool {
        m.len() <= MAX_DEVICES && spec_elems_wf::<StorageDevice>(m)
    }

    open spec fn spec_bytes(m: Seq<StorageDevice>) -> Seq<u8> {
        spec_slice_bytes::<StorageDevice>(m)
    }

    open spec fn spec_write_err(m: Seq<StorageDevice>) -> Error {
        if m.len() > MAX_DEVICES {
            Error::LengthExceeded
        } else {
            spec_first_elem_err::<StorageDevice>(m)
        }
    }

    open spec fn spec_err_bytes(m: Seq<StorageDevice>) -> Seq<u8> {
        if m.len() > MAX_DEVICES {
            Seq::empty()
        } else {
            spec_slice_err_bytes::<StorageDevice>(m)
        }
    }

    open spec fn spec_parse(s: Seq<u8>, pos: int) -> Result<(Seq<StorageDevice>, int), Error> {
        spec_parse_slice::<StorageDevice>(s, pos, MAX_DEVICES)
    }

    proof fn lemma_parse_bytes(m: Seq<StorageDevice>, s: Seq<u8>, pos: int) {
        lemma_subrange_split(
            s,
            pos,
            spec_i32_bytes(m.len() as i32),
            spec_elems_bytes::<StorageDevice>(m),
        );
        lemma_parse_i32_of_bytes(m.len() as i32, s, pos);
        lemma_parse_n_of_bytes::<StorageDevice>(m, s, pos + 4);
    }

    proof fn lemma_parse_ok(s: Seq<u8>, pos: int) {
        if Self::spec_parse(s, pos) is Ok {
            lemma_parse_i32_exact(s, pos);
            let (n, p) = spec_parse_i32(s, pos)->Ok_0;
            lemma_parse_n_ok::<StorageDevice>(s, p, n as nat);
            let (ms, q) = Self::spec_parse(s, pos)->Ok_0;
            if n == 0 {
                assert(ms =~= Seq::<StorageDevice>::empty());
                assert(s.subrange(p, q) =~= spec_elems_bytes::<StorageDevice>(ms));
            }
            lemma_subrange_join(s, pos, p, q);
        }
    }

    fn size(&self) -> (n: usize) {
        slice_size(&self.devices)
    }

    fn read(src: &Vec<u8>, pos: &mut usize) -> (r: Result<Storage, Error>) {
        match read_slice(src, pos, MAX_DEVICES) {
            Ok(devices) => Ok(Storage { devices }),
            Err(e) => Err(e),
        }
    }

    fn write(&self, sink: &mut Vec<u8>) -> (r: Result<(), Error>) {
        if self.devices.len() > (MAX_DEVICES as usize) {
            proof {
                assert(sink@.subrange(0, sink@.len() as int) =~= sink@);
                assert(sink@ =~= old(sink)@ + Seq::<u8>::empty());
            }
            return Err(Error::LengthExceeded);
        }
        write_slice(sink, &self.devices)
    }
}

// ---------------------------------------------------------------------------
// StorageItem
// ---------------------------------------------------------------------------

/// One stored stack of items: a non-negative index into the material
/// list, a count of at least one, and an optional metadata pointer.
#[derive(Clone, Copy, Debug, PartialEq, Eq, Structural)]
pub struct StorageItem {
    pub material_index: i32,
    pub count: i64,
    pub meta_ptr: i64,
}

impl StorageItem {
    pub fn new(material_index: i32, count: i64, meta_ptr: i64) -> (m: StorageItem)
        ensures
            m == (StorageItem { material_index, count, meta_ptr }),
    {
        StorageItem { material_index, count, meta_ptr }
    }
}

impl DeepView for StorageItem {
    type V = StorageItem;

    open spec fn deep_view(&self) -> StorageItem {
        *self
    }
}

impl Serializable for StorageItem {
    open spec fn spec_wf(m: StorageItem) -> bool {
        m.material_index >= 0 && m.count >= 1 && spec_ptr_valid(m.meta_ptr)
    }

    open spec fn spec_bytes(m: StorageItem) -> Seq<u8> {
        spec_i32_bytes(m.material_index) + spec_i64_bytes(m.count) + spec_i64_bytes(m.meta_ptr)
    }

    open spec fn spec_write_err(m: StorageItem) -> Error {
        if m.material_index < 0 {
            Error::InvalidField
        } else if m.count < 1 {
            Error::InvalidField
        } else {
            Error::InvalidPointer
        }
    }

    open spec fn spec_err_bytes(m: StorageItem) -> Seq<u8> {
        if m.material_index < 0 || m.count < 1 {
            Seq::empty()
        } else {
            spec_i32_bytes(m.material_index) + spec_i64_bytes(m.count)
        }
    }

    open spec fn spec_parse(s: Seq<u8>, pos: int) -> Result<(StorageItem, int), Error> {
        match spec_parse_i32(s, pos) {
            Err(e) => Err(e),
            Ok((material_index, p1)) => if material_index < 0 {
                Err(Error::InvalidField)
            } else {
                match spec_parse_i64(s, p1) {
                    Err(e) => Err(e),
                    Ok((count, p2)) => if count < 1 {
                        Err(Error::InvalidField)
                    } else {
                        match spec_parse_ptr(s, p2) {
                            Err(e) => Err(e),
                            Ok((meta_ptr, p3)) => Ok(
                                (StorageItem { material_index, count, meta_ptr }, p3),
                            ),
                        }
                    },
                }
            },
        }
    }

    proof fn lemma_parse_bytes(m: StorageItem, s: Seq<u8>, pos: int) {
        let a = spec_i32_bytes(m.material_index);
        let b = spec_i64_bytes(m.count);
        let c = spec_i64_bytes(m.meta_ptr);
        lemma_subrange_split(s, pos, a + b, c);
        lemma_subrange_split(s, pos, a, b);
        lemma_parse_i32_of_bytes(m.material_index, s, pos);
        lemma_parse_i64_of_bytes(m.count, s, pos + 4);
        lemma_parse_i64_of_bytes(m.meta_ptr, s, pos + 12);
    }

    proof fn lemma_parse_ok(s: Seq<u8>, pos: int) {
        if Self::spec_parse(s, pos) is Ok {
            lemma_parse_i32_exact(s, pos);
            lemma_parse_i64_exact(s, pos + 4);
            crate::util::lemma_parse_ptr_exact(s, pos + 12);
            lemma_subrange_join(s, pos, pos + 4, pos + 12);
            lemma_subrange_join(s, pos, pos + 12, pos + 20);
        }
    }

    fn size(&self) -> (n: usize) {
        20
    }

    fn read(src: &Vec<u8>, pos: &mut usize) -> (r: Result<StorageItem, Error>) {
        let material_index = match read_i32_be(src, pos) {
            Ok(v) => v,
            Err(e) => {
                return Err(e);
            },
        };
        if material_index < 0 {
            return Err(Error::InvalidField);
        }
        let count = match read_i64_be(src, pos) {
            Ok(v) => v,
            Err(e) => {
                return Err(e);
            },
        };
        if count < 1 {
            return Err(Error::InvalidField);
        }
        let meta_ptr = match read_ptr(src, pos) {
            Ok(v) => v,
            Err(e) => {
                return Err(e);
            },
        };
        Ok(StorageItem { material_index, count, meta_ptr })
    }

    fn write(&self, sink: &mut Vec<u8>) -> (r: Result<(), Error>) {
        let ghost a = spec_i32_bytes(self.material_index);
        let ghost b = spec_i64_bytes(self.count);
        let ghost c = spec_i64_bytes(self.meta_ptr);
        proof {
            assert(sink@.subrange(0, sink@.len() as int) =~= sink@);
            assert(sink@ =~= old(sink)@ + Seq::<u8>::empty());
        }
        if self.material_index < 0 {
            return Err(Error::InvalidField);
        }
        if self.count < 1 {
            return Err(Error::InvalidField);
        }
        write_i32_be(sink, self.material_index);
        write_i64_be(sink, self.count);
        let ghost s2 = sink@;
        proof {
            assert(s2 =~= old(sink)@ + (a + b));
            lemma_prefix_of_concat(old(sink)@, a + b);
        }
        match write_ptr(sink, self.meta_ptr) {
            Ok(()) => {},
            Err(e) => {
                proof {
                    lemma_prefix_trans(old(sink)@, s2, sink@);
                }
                return Err(e);
            },
        }
        proof {
            assert(sink@ =~= old(sink)@ + (a + b + c));
            lemma_prefix_of_concat(old(sink)@, a + b + c);
        }
        Ok(())
    }
}

// ---------------------------------------------------------------------------
// StoragePage
// ---------------------------------------------------------------------------

/// One page of stored items.
#[derive(Clone, Debug, PartialEq, Eq)]
pub struct StoragePage {
    pub items: Vec<StorageItem>,
}

impl StoragePage {
    pub fn new(items: Vec<StorageItem>) -> (m: StoragePage)
        ensures
            m.items@ == items@,
    {
        StoragePage { items }
    }
}

impl Default for StoragePage {
    /// A page with no items.
    fn default() -> (m: StoragePage)
        ensures
            m.deep_view() == Seq::<StorageItem>::empty(),
    {
        let m = StoragePage { items: Vec::new() };
        proof {
            assert(m.deep_view() =~= Seq::<StorageItem>::empty());
        }
        m
    }
}

impl DeepView for StoragePage {
    type V = Seq<StorageItem>;

    open spec fn deep_view(&self) -> Seq<StorageItem> {
        self.items.deep_view()
    }
}

impl Serializable for StoragePage {
    open spec fn spec_wf(m: Seq<StorageItem>) -> bool {
        spec_slice_wf::<StorageItem>(m)
    }

    open spec fn spec_bytes(m: Seq<StorageItem>) -> Seq<u8> {
        spec_slice_bytes::<StorageItem>(m)
    }

    open spec fn spec_write_err(m: Seq<StorageItem>) -> Error {
        spec_slice_write_err::<StorageItem>(m)
    }

    open spec fn spec_err_bytes(m: Seq<StorageItem>) -> Seq<u8> {
        spec_slice_err_bytes::<StorageItem>(m)
    }

    open spec fn spec_parse(s: Seq<u8>, pos: int) -> Result<(Seq<StorageItem>, int), Error> {
        spec_parse_slice::<StorageItem>(s, pos, -1i32)
    }

    proof fn lemma_parse_bytes(m: Seq<StorageItem>, s: Seq<u8>, pos: int) {
        lemma_subrange_split(
            s,
            pos,
            spec_i32_bytes(m.len() as i32),
            spec_elems_bytes::<StorageItem>(m),
        );
        lemma_parse_i32_of_bytes(m.len() as i32, s, pos);
        lemma_parse_n_of_bytes::<StorageItem>(m, s, pos + 4);
    }

    proof fn lemma_parse_ok(s: Seq<u8>, pos: int) {
        if Self::spec_parse(s, pos) is Ok {
            lemma_parse_i32_exact(s, pos);
            let (n, p) = spec_parse_i32(s, pos)->Ok_0;
            lemma_parse_n_ok::<StorageItem>(s, p, n as nat);
            let (ms, q) = Self::spec_parse(s, pos)->Ok_0;
            if n == 0 {
                assert(ms =~= Seq::<StorageItem>::empty());
                assert(s.subrange(p, q) =~= spec_elems_bytes::<StorageItem>(ms));
            }
            lemma_subrange_join(s, pos, p, q);
        }
    }

    fn size(&self) -> (n: usize) {
        slice_size(&self.items)
    }

    fn read(src: &Vec<u8>, pos: &mut usize) -> (r: Result<StoragePage, Error>) {
        match read_slice(src, pos, -1) {
            Ok(items) => Ok(StoragePage { items }),
            Err(e) => Err(e),
        }
    }

    fn write(&self, sink: &mut Vec<u8>) -> (r: Result<(), Error>) {
        write_slice(sink, &self.items)
    }
}

} // verus!
