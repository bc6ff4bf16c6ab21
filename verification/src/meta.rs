//! The root record: a fixed 18-byte layout holding the format version and
//! the pointers to the material list and the storage list.

use crate::errors::Error;
use crate::util::{
    lemma_prefix_of_concat, lemma_prefix_trans, lemma_subrange_join, lemma_subrange_split,
    read_ptr, spec_parse_ptr, spec_ptr_valid, write_ptr, Serializable,
};
use crate::wire::{
    lemma_parse_i16_exact, lemma_parse_i16_of_bytes, lemma_parse_i64_of_bytes, read_i16_be,
    spec_i16_bytes, spec_i64_bytes, spec_parse_i16, write_i16_be,
};
use vstd::prelude::*;

verus! {

/// The fixed-size root record. Both pointers are independently nullable
/// via NIL; the version is stored but not interpreted.
#[derive(Clone, Copy, Debug, PartialEq, Eq, Structural)]
pub struct Meta {
    pub version: i16,
    pub material_list_ptr: i64,
    pub storage_list_ptr: i64,
}

impl Meta {
    pub fn new(version: i16, material_list_ptr: i64, storage_list_ptr: i64) -> (m: Meta)
        ensures
            m == (Meta { version, material_list_ptr, storage_list_ptr }),
    {
        Meta { version, material_list_ptr, storage_list_ptr }
    }
}

impl Default for Meta {
    /// Version 1 with both pointers absent.
    fn default() -> (m: Meta)
        ensures
            m == (Meta {
                version: 1i16,
                material_list_ptr: crate::heap::NIL,
                storage_list_ptr: crate::heap::NIL,
            }),
    {
        Meta { version: 1, material_list_ptr: crate::heap::NIL, storage_list_ptr: crate::heap::NIL }
    }
}

impl DeepView for Meta {
    type V = Meta;

    open spec fn deep_view(&self) -> Meta {
        *self
    }
}

impl Serializable for Meta {
    open spec fn spec_wf(m: Meta) -> bool {
        spec_ptr_valid(m.material_list_ptr) && spec_ptr_valid(m.storage_list_ptr)
    }

    open spec fn spec_bytes(m: Meta) -> Seq<u8> {
        spec_i16_bytes(m.version) + spec_i64_bytes(m.material_list_ptr) + spec_i64_bytes(
            m.storage_list_ptr,
        )
    }

    open spec fn spec_write_err(m: Meta) -> Error {
        Error::InvalidPointer
    }

    open spec fn spec_err_bytes(m: Meta) -> Seq<u8> {
        if !spec_ptr_valid(m.material_list_ptr) {
            spec_i16_bytes(m.version)
        } else {
            spec_i16_bytes(m.version) + spec_i64_bytes(m.material_list_ptr)
        }
    }

    open spec fn spec_parse(s: Seq<u8>, pos: int) -> Result<(Meta, int), Error> {
        match spec_parse_i16(s, pos) {
            Err(e) => Err(e),
            Ok((version, p1)) => match spec_parse_ptr(s, p1) {
                Err(e) => Err(e),
                Ok((material_list_ptr, p2)) => match spec_parse_ptr(s, p2) {
                    Err(e) => Err(e),
                    Ok((storage_list_ptr, p3)) => Ok(
                        (Meta { version, material_list_ptr, storage_list_ptr }, p3),
                    ),
                },
            },
        }
    }

    proof fn lemma_parse_bytes(m: Meta, s: Seq<u8>, pos: int) {
        let a = spec_i16_bytes(m.version);
        let b = spec_i64_bytes(m.material_list_ptr);
        let c = spec_i64_bytes(m.storage_list_ptr);
        lemma_subrange_split(s, pos, a + b, c);
        lemma_subrange_split(s, pos, a, b);
        lemma_parse_i16_of_bytes(m.version, s, pos);
        lemma_parse_i64_of_bytes(m.material_list_ptr, s, pos + 2);
        lemma_parse_i64_of_bytes(m.storage_list_ptr, s, pos + 10);
    }

    proof fn lemma_parse_ok(s: Seq<u8>, pos: int) {
        if Self::spec_parse(s, pos) is Ok {
            lemma_parse_i16_exact(s, pos);
            crate::util::lemma_parse_ptr_exact(s, pos + 2);
            crate::util::lemma_parse_ptr_exact(s, pos + 10);
            lemma_subrange_join(s, pos, pos + 2, pos + 10);
            lemma_subrange_join(s, pos, pos + 10, pos + 18);
        }
    }

    fn size(&self) -> (n: usize) {
        18
    }

    fn read(src: &Vec<u8>, pos: &mut usize) -> (r: Result<Meta, Error>) {
        let version = match read_i16_be(src, pos) {
            Ok(v) => v,
            Err(e) => {
                return Err(e);
            },
        };
        let material_list_ptr = match read_ptr(src, pos) {
            Ok(v) => v,
            Err(e) => {
                return Err(e);
            },
        };
        let storage_list_ptr = match read_ptr(src, pos) {
            Ok(v) => v,
            Err(e) => {
                return Err(e);
            },
        };
        Ok(Meta { version, material_list_ptr, storage_list_ptr })
    }

    fn write(&self, sink: &mut Vec<u8>) -> (r: Result<(), Error>) {
        let ghost a = spec_i16_bytes(self.version);
        let ghost b = spec_i64_bytes(self.material_list_ptr);
        let ghost c = spec_i64_bytes(self.storage_list_ptr);
        write_i16_be(sink, self.version);
        proof {
            lemma_prefix_of_concat(old(sink)@, a);
        }
        let ghost s1 = sink@;
        match write_ptr(sink, self.material_list_ptr) {
            Ok(()) => {},
            Err(e) => {
                proof {
                    lemma_prefix_trans(old(sink)@, s1, sink@);
                }
                return Err(e);
            },
        }
        let ghost s2 = sink@;
        match write_ptr(sink, self.storage_list_ptr) {
            Ok(()) => {},
            Err(e) => {
                proof {
                    assert(sink@ =~= old(sink)@ + (a + b));
                    lemma_prefix_trans(old(sink)@, s1, s2);
                    lemma_prefix_trans(old(sink)@, s2, sink@);
                }
                return Err(e);
            },
        }
        proof {
            assert(sink@ =~= old(sink)@ + (a + b + c));
            lemma_prefix_of_concat(old(sink)@, a + b + c);
        }
        Ok(())
    }
}

} // verus!
