//! Materials: named item types, referenced elsewhere by their positional
//! index within a MaterialList.

use crate::errors::Error;
use crate::util::{
    lemma_parse_n_of_bytes, lemma_subrange_join, lemma_subrange_split, read_bytes, read_slice,
    slice_size, spec_lp_bytes, spec_parse_lp_bytes, spec_parse_slice, spec_slice_bytes,
    spec_slice_wf, spec_slice_write_err, write_bytes, write_slice, Serializable,
};
use crate::wire::{lemma_parse_i32_exact, lemma_parse_i32_of_bytes, spec_i32_bytes};
use vstd::prelude::*;

verus! {

/// A named item type. The key holds the UTF-8 bytes of the name,
/// length-prefixed on the wire and not validated beyond the length match.
#[derive(Clone, Debug, PartialEq, Eq)]
pub struct Material {
    pub key: Vec<u8>,
}

impl Material {
    pub fn new(key: Vec<u8>) -> (m: Material)
        ensures
            m.key@ == key@,
    {
        Material { key }
    }
}

impl DeepView for Material {
    type V = Seq<u8>;

    open spec fn deep_view(&self) -> Seq<u8> {
        self.key@
    }
}

impl Serializable for Material {
    open spec fn spec_wf(m: Seq<u8>) -> bool {
        m.len() <= i32::MAX
    }

    open spec fn spec_bytes(m: Seq<u8>) -> Seq<u8> {
        spec_lp_bytes(m)
    }

    open spec fn spec_write_err(m: Seq<u8>) -> Error {
        Error::LengthExceeded
    }

    open spec fn spec_err_bytes(m: Seq<u8>) -> Seq<u8> {
        Seq::empty()
    }

    open spec fn spec_parse(s: Seq<u8>, pos: int) -> Result<(Seq<u8>, int), Error> {
        spec_parse_lp_bytes(s, pos)
    }

    proof fn lemma_parse_bytes(m: Seq<u8>, s: Seq<u8>, pos: int) {
        lemma_subrange_split(s, pos, spec_i32_bytes(m.len() as i32), m);
        lemma_parse_i32_of_bytes(m.len() as i32, s, pos);
    }

    proof fn lemma_parse_ok(s: Seq<u8>, pos: int) {
        if Self::spec_parse(s, pos) is Ok {
            lemma_parse_i32_exact(s, pos);
            let (n, p) = crate::wire::spec_parse_i32(s, pos)->Ok_0;
            let (m, q) = Self::spec_parse(s, pos)->Ok_0;
            lemma_subrange_join(s, pos, p, q);
        }
    }

    fn size(&self) -> (n: usize) {
        4 + self.key.len()
    }

    fn read(src: &Vec<u8>, pos: &mut usize) -> (r: Result<Material, Error>) {
        match read_bytes(src, pos) {
            Ok(key) => Ok(Material { key }),
            Err(e) => Err(e),
        }
    }

    fn write(&self, sink: &mut Vec<u8>) -> (r: Result<(), Error>) {
        let r = write_bytes(sink, &self.key);
        proof {
            assert(old(sink)@ + Seq::<u8>::empty() =~= old(sink)@);
        }
        r
    }
}

/// The ordered sequence of materials; a material's position in it is the
/// index other records use to refer to it.
#[derive(Clone, Debug, PartialEq, Eq)]
pub struct MaterialList {
    pub materials: Vec<Material>,
}

impl MaterialList {
    pub fn new(materials: Vec<Material>) -> (m: MaterialList)
        ensures
            m.materials@ == materials@,
    {
        MaterialList { materials }
    }
}

impl Default for MaterialList {
    /// An empty material list.
    fn default() -> (m: MaterialList)
        ensures
            m.deep_view() == Seq::<Seq<u8>>::empty(),
    {
        let m = MaterialList { materials: Vec::new() };
        proof {
            assert(m.deep_view() =~= Seq::<Seq<u8>>::empty());
        }
        m
    }
}

impl DeepView for MaterialList {
    type V = Seq<Seq<u8>>;

    open spec fn deep_view(&self) -> Seq<Seq<u8>> {
        self.materials.deep_view()
    }
}

impl Serializable for MaterialList {
    open spec fn spec_wf(m: Seq<Seq<u8>>) -> bool {
        spec_slice_wf::<Material>(m)
    }

    open spec fn spec_bytes(m: Seq<Seq<u8>>) -> Seq<u8> {
        spec_slice_bytes::<Material>(m)
    }

    open spec fn spec_write_err(m: Seq<Seq<u8>>) -> Error {
        spec_slice_write_err::<Material>(m)
    }

    open spec fn spec_err_bytes(m: Seq<Seq<u8>>) -> Seq<u8> {
        crate::util::spec_slice_err_bytes::<Material>(m)
    }

    open spec fn spec_parse(s: Seq<u8>, pos: int) -> Result<(Seq<Seq<u8>>, int), Error> {
        spec_parse_slice::<Material>(s, pos, -1i32)
    }

    proof fn lemma_parse_bytes(m: Seq<Seq<u8>>, s: Seq<u8>, pos: int) {
        lemma_subrange_split(
            s,
            pos,
            spec_i32_bytes(m.len() as i32),
            crate::util::spec_elems_bytes::<Material>(m),
        );
        lemma_parse_i32_of_bytes(m.len() as i32, s, pos);
        lemma_parse_n_of_bytes::<Material>(m, s, pos + 4);
    }

    proof fn lemma_parse_ok(s: Seq<u8>, pos: int) {
        if Self::spec_parse(s, pos) is Ok {
            lemma_parse_i32_exact(s, pos);
            let (n, p) = crate::wire::spec_parse_i32(s, pos)->Ok_0;
            crate::util::lemma_parse_n_ok::<Material>(s, p, n as nat);
            let (ms, q) = Self::spec_parse(s, pos)->Ok_0;
            if n == 0 {
                assert(ms =~= Seq::<Seq<u8>>::empty());
                assert(s.subrange(p, q) =~= crate::util::spec_elems_bytes::<Material>(ms));
            }
            lemma_subrange_join(s, pos, p, q);
        }
    }

    fn size(&self) -> (n: usize) {
        slice_size(&self.materials)
    }

    fn read(src: &Vec<u8>, pos: &mut usize) -> (r: Result<MaterialList, Error>) {
        match read_slice(src, pos, -1) {
            Ok(materials) => Ok(MaterialList { materials }),
            Err(e) => Err(e),
        }
    }

    fn write(&self, sink: &mut Vec<u8>) -> (r: Result<(), Error>) {
        write_slice(sink, &self.materials)
    }
}

} // verus!
