//! The codec contract every record type implements, the pointer validity
//! rule, and the length-prefixed wire shapes (raw bytes, homogeneous
//! sequences, pointer sequences) shared across record types.

use crate::errors::Error;
use crate::wire::{
    read_i32_be, read_i64_be, spec_i32_bytes, spec_i64_bytes, spec_parse_i32, spec_parse_i64,
    write_i32_be, write_i64_be,
};
use vstd::prelude::*;

verus! {

// ---------------------------------------------------------------------------
// Pointer domain
// ---------------------------------------------------------------------------

/// A stored offset is valid when it is the NIL sentinel or non-negative.
pub open spec fn spec_ptr_valid(ptr: i64) -> bool {
    ptr == crate::heap::NIL || ptr >= 0
}

/// Returns the pointer unchanged when it is NIL or non-negative; any other
/// negative value is rejected with `InvalidPointer`. Applied to every
/// pointer-typed field on both encode and decode.
pub fn verify_ptr(ptr: i64) -> (r: Result<i64, Error>)
    ensures
        r is Ok <==> spec_ptr_valid(ptr),
        r is Ok ==> r->Ok_0 == ptr,
        r is Err ==> r->Err_0 == Error::InvalidPointer,
{
    if ptr != crate::heap::NIL && ptr < 0 {
        Err(Error::InvalidPointer)
    } else {
        Ok(ptr)
    }
}

/// What decoding a pointer finds: the eight-byte value when it is valid,
/// `InvalidPointer` when it is negative and not NIL.
pub open spec fn spec_parse_ptr(s: Seq<u8>, pos: int) -> Result<(i64, int), Error> {
    match spec_parse_i64(s, pos) {
        Err(e) => Err(e),
        Ok((p, q)) => if spec_ptr_valid(p) {
            Ok((p, q))
        } else {
            Err(Error::InvalidPointer)
        },
    }
}

// ---------------------------------------------------------------------------
// The codec contract
// ---------------------------------------------------------------------------

/// The encode/decode capability every record type implements.
///
/// A record's content is its `deep_view`; `spec_wf` are the type's
/// invariants over that content and `spec_bytes` its canonical encoding.
/// `spec_parse` pins decoding down completely: the content found at a
/// position, the position one past its encoding, or the first violated
/// invariant.
pub trait Serializable: DeepView + Sized {
    /// The invariants the record's content must satisfy.
    spec fn spec_wf(m: Self::V) -> bool;

    /// The canonical encoding of the content.
    spec fn spec_bytes(m: Self::V) -> Seq<u8>;

    /// The first violated invariant that `write` reports when `!spec_wf(m)`.
    spec fn spec_write_err(m: Self::V) -> Error;

    /// The bytes a failed `write` leaves appended: every field before the
    /// first violated invariant. Each constrained field is validated before
    /// any of its bytes are emitted, so a failed encode writes no corrupt
    /// trailing state for that field, though prior fields of the same
    /// record may already be flushed.
    spec fn spec_err_bytes(m: Self::V) -> Seq<u8>;

    /// What decoding finds at `pos` in `s`.
    spec fn spec_parse(s: Seq<u8>, pos: int) -> Result<(Self::V, int), Error>;

    /// Round trip: decoding a well-formed record's canonical encoding,
    /// wherever it sits in a byte sequence, yields exactly that record's
    /// content and consumes exactly its bytes.
    proof fn lemma_parse_bytes(m: Self::V, s: Seq<u8>, pos: int)
        requires
            Self::spec_wf(m),
            0 <= pos,
            pos + Self::spec_bytes(m).len() <= s.len(),
            s.subrange(pos, pos + Self::spec_bytes(m).len() as int) == Self::spec_bytes(m),
        ensures
            Self::spec_parse(s, pos) == Ok::<(Self::V, int), Error>(
                (m, pos + Self::spec_bytes(m).len() as int),
            ),
    ;

    /// Decoding never hands back content that violates the type's
    /// invariants, and a successful decode consumes exactly the canonical
    /// encoding of the content it returns: every decodable byte range is a
    /// canonical encoding, so encodings are unambiguous.
    proof fn lemma_parse_ok(s: Seq<u8>, pos: int)
        ensures
            Self::spec_parse(s, pos) is Ok ==> {
                let (m, p) = Self::spec_parse(s, pos)->Ok_0;
                &&& Self::spec_wf(m)
                &&& 0 <= pos
                &&& p == pos + Self::spec_bytes(m).len()
                &&& p <= s.len()
                &&& s.subrange(pos, p) == Self::spec_bytes(m)
            },
    ;

    /// The exact byte length the record will occupy, computed without
    /// performing any writing.
    fn size(&self) -> (n: usize)
        requires
            Self::spec_bytes(self.deep_view()).len() <= usize::MAX,
        ensures
            n == Self::spec_bytes(self.deep_view()).len(),
    ;

    /// Decodes one record starting at `*pos`, advancing `*pos` past it;
    /// fails on the first violated invariant with no partial record. The
    /// cursor never moves backward; after a failed decode its position is
    /// otherwise unspecified.
    fn read(src: &Vec<u8>, pos: &mut usize) -> (r: Result<Self, Error>)
        ensures
            (match Self::spec_parse(src@, *old(pos) as int) {
                Ok((m, p)) => r is Ok && r->Ok_0.deep_view() == m && *final(pos) as int == p,
                Err(e) => r is Err && r->Err_0 == e && *old(pos) <= *final(pos),
            }),
    ;

    /// Appends the record's canonical bytes to the sink; on failure it has
    /// appended exactly `spec_err_bytes`: the fields before the first
    /// violated invariant.
    fn write(&self, sink: &mut Vec<u8>) -> (r: Result<(), Error>)
        ensures
            old(sink)@.is_prefix_of(final(sink)@),
            r is Ok <==> Self::spec_wf(self.deep_view()),
            r is Ok ==> final(sink)@ == old(sink)@ + Self::spec_bytes(self.deep_view()),
            r is Err ==> r->Err_0 == Self::spec_write_err(self.deep_view()) && final(sink)@
                == old(sink)@ + Self::spec_err_bytes(self.deep_view()),
    ;

    /// Writes the record, then pads with 0xFF filler bytes until the bytes
    /// appended by this call are a whole number of alignment blocks;
    /// returns that number of blocks.
    fn write_aligned(&self, sink: &mut Vec<u8>, alignment: usize) -> (r: Result<usize, Error>)
        requires
            alignment >= 1,
            Self::spec_bytes(self.deep_view()).len() + alignment <= usize::MAX,
        ensures
            old(sink)@.is_prefix_of(final(sink)@),
            r is Ok <==> Self::spec_wf(self.deep_view()),
            r is Err ==> r->Err_0 == Self::spec_write_err(self.deep_view()) && final(sink)@
                == old(sink)@ + Self::spec_err_bytes(self.deep_view()),
            r is Ok ==> ({
                let n = Self::spec_bytes(self.deep_view()).len();
                let padded = spec_align(n, alignment as nat);
                &&& final(sink)@ == old(sink)@ + Self::spec_bytes(self.deep_view()) + Seq::new(
                    (padded - n) as nat,
                    |j: int| 0xFFu8,
                )
                &&& (final(sink)@.len() - old(sink)@.len()) % (alignment as int) == 0
                &&& r->Ok_0 == padded / (alignment as nat)
            }),
    {
        let start = sink.len();
        match self.write(sink) {
            Err(e) => {
                return Err(e);
            },
            Ok(()) => {},
        }
        let written = sink.len() - start;
        let padded = align(written, alignment);
        let padding = padded - written;
        write_padding(sink, padding);
        proof {
            let bytes = Self::spec_bytes(self.deep_view());
            let pad = Seq::new((padded - written) as nat, |j: int| 0xFFu8);
            assert(sink@ =~= old(sink)@ + bytes + pad);
            assert(sink@ =~= old(sink)@ + (bytes + pad));
            lemma_prefix_of_concat(old(sink)@, bytes + pad);
        }
        Ok(padded / alignment)
    }
}

// ---------------------------------------------------------------------------
// Alignment
// ---------------------------------------------------------------------------

/// `num` rounded up to the next multiple of `alignment`.
pub open spec fn spec_align(num: nat, alignment: nat) -> nat
    recommends
        alignment >= 1,
{
    if num % alignment == 0 {
        num
    } else {
        (num - (num % alignment) + alignment) as nat
    }
}

/// Rounds `num` up to the next multiple of `alignment`.
pub fn align(num: usize, alignment: usize) -> (r: usize)
    requires
        alignment >= 1,
        num as int % alignment as int != 0 ==> num - (num as int % alignment as int) + alignment
            <= usize::MAX,
    ensures
        r == spec_align(num as nat, alignment as nat),
        r as int % alignment as int == 0,
        num <= r < num + alignment,
{
    let rem = num % alignment;
    proof {
        let n = num as int;
        let d = alignment as int;
        vstd::arithmetic::div_mod::lemma_fundamental_div_mod(n, d);
        assert(d * (n / d) >= 0) by (nonlinear_arith)
            requires
                d >= 1,
                n >= 0,
        ;
        if rem != 0 {
            assert(n - (n % d) + d == d * (n / d + 1)) by (nonlinear_arith)
                requires
                    n == d * (n / d) + (n % d),
            ;
            vstd::arithmetic::div_mod::lemma_mod_multiples_basic(n / d + 1, d);
            assert((d * (n / d + 1)) % d == 0) by (nonlinear_arith)
                requires
                    ((n / d + 1) * d) % d == 0,
            ;
        }
    }
    if rem == 0 {
        num
    } else {
        num - rem + alignment
    }
}

// ---------------------------------------------------------------------------
// Sequence helpers
// ---------------------------------------------------------------------------

pub proof fn lemma_prefix_of_concat(a: Seq<u8>, b: Seq<u8>)
    ensures
        a.is_prefix_of(a + b),
{
    assert((a + b).subrange(0, a.len() as int) =~= a);
}

/// A subrange equal to a concatenation splits into subranges equal to the
/// two parts.
pub proof fn lemma_subrange_split(s: Seq<u8>, pos: int, a: Seq<u8>, b: Seq<u8>)
    requires
        0 <= pos,
        pos + a.len() + b.len() <= s.len(),
        s.subrange(pos, pos + a.len() + b.len()) == a + b,
    ensures
        s.subrange(pos, pos + a.len() as int) == a,
        s.subrange(pos + a.len() as int, pos + a.len() + b.len()) == b,
{
    assert forall|i: int| 0 <= i < a.len() implies s.subrange(pos, pos + a.len() as int)[i]
        == a[i] by {
        assert(s.subrange(pos, pos + a.len() + b.len())[i] == (a + b)[i]);
    }
    assert(s.subrange(pos, pos + a.len() as int) =~= a);
    assert forall|i: int| 0 <= i < b.len() implies s.subrange(
        pos + a.len() as int,
        pos + a.len() + b.len(),
    )[i] == b[i] by {
        assert(s.subrange(pos + a.len() as int, pos + a.len() + b.len())[i] == s[pos + a.len()
            + i]);
        assert(s.subrange(pos, pos + a.len() + b.len())[a.len() + i] == s[pos + a.len() + i]);
        assert((a + b)[a.len() + i] == b[i]);
    }
    assert(s.subrange(pos + a.len() as int, pos + a.len() + b.len()) =~= b);
}

/// A subrange splits at any interior position into the concatenation of
/// the two halves.
pub proof fn lemma_subrange_join(s: Seq<u8>, a: int, b: int, c: int)
    requires
        0 <= a <= b <= c <= s.len(),
    ensures
        s.subrange(a, c) == s.subrange(a, b) + s.subrange(b, c),
{
    assert(s.subrange(a, c) =~= s.subrange(a, b) + s.subrange(b, c));
}

pub proof fn lemma_prefix_trans(a: Seq<u8>, b: Seq<u8>, c: Seq<u8>)
    requires
        a.is_prefix_of(b),
        b.is_prefix_of(c),
    ensures
        a.is_prefix_of(c),
{
    assert(a =~= c.subrange(0, a.len() as int)) by {
        assert(forall|i: int|
            0 <= i < a.len() ==> a[i] == #[trigger] b.subrange(0, a.len() as int)[i]);
    }
}

// ---------------------------------------------------------------------------
// Fixed padding blocks
// ---------------------------------------------------------------------------

/// Appends a run of `n` filler bytes (0xFF): a fixed padding block with no
/// semantic content.
pub fn write_padding(sink: &mut Vec<u8>, n: usize)
    ensures
        final(sink)@ == old(sink)@ + Seq::new(n as nat, |j: int| 0xFFu8),
{
    let ghost orig = sink@;
    let mut i: usize = 0;
    while i < n
        invariant
            i <= n,
            sink@ == orig + Seq::new(i as nat, |j: int| 0xFFu8),
        decreases n - i,
    {
        sink.push(0xFF);
        proof {
            assert(sink@ =~= orig + Seq::new((i + 1) as nat, |j: int| 0xFFu8));
        }
        i = i + 1;
    }
}

/// Skips a fixed padding block of `n` bytes without validating its
/// content; `TruncatedInput` when the input ends first.
pub fn skip_padding(src: &Vec<u8>, pos: &mut usize, n: usize) -> (r: Result<(), Error>)
    ensures
        r is Ok <==> *old(pos) + n <= src@.len(),
        r is Ok ==> *final(pos) == *old(pos) + n,
        r is Err ==> r->Err_0 == Error::TruncatedInput && *final(pos) == *old(pos),
{
    if src.len() >= n && *pos <= src.len() - n {
        *pos = *pos + n;
        Ok(())
    } else {
        Err(Error::TruncatedInput)
    }
}

// ---------------------------------------------------------------------------
// Length-prefixed raw bytes
// ---------------------------------------------------------------------------

/// A 32-bit byte count followed by the bytes themselves.
pub open spec fn spec_lp_bytes(b: Seq<u8>) -> Seq<u8> {
    spec_i32_bytes(b.len() as i32) + b
}

pub open spec fn spec_parse_lp_bytes(s: Seq<u8>, pos: int) -> Result<(Seq<u8>, int), Error> {
    match spec_parse_i32(s, pos) {
        Err(e) => Err(e),
        Ok((n, p)) => if n < 0 {
            Err(Error::NegativeLength)
        } else if p + n <= s.len() {
            Ok((s.subrange(p, p + n), p + n))
        } else {
            Err(Error::TruncatedInput)
        },
    }
}

/// Appends the length prefix and the bytes; `LengthExceeded` when the byte
/// count does not fit the 32-bit prefix.
pub fn write_bytes(sink: &mut Vec<u8>, bytes: &Vec<u8>) -> (r: Result<(), Error>)
    ensures
        old(sink)@.is_prefix_of(final(sink)@),
        r is Ok <==> bytes@.len() <= i32::MAX,
        r is Ok ==> final(sink)@ == old(sink)@ + spec_lp_bytes(bytes@),
        r is Err ==> r->Err_0 == Error::LengthExceeded && final(sink)@ == old(sink)@,
{
    if bytes.len() > (i32::MAX as usize) {
        proof {
            assert(sink@.subrange(0, sink@.len() as int) =~= sink@);
        }
        return Err(Error::LengthExceeded);
    }
    write_i32_be(sink, bytes.len() as i32);
    let ghost mid = sink@;
    let mut i: usize = 0;
    while i < bytes.len()
        invariant
            i <= bytes@.len(),
            sink@ == mid + bytes@.subrange(0, i as int),
        decreases bytes@.len() - i,
    {
        let b = bytes[i];
        sink.push(b);
        proof {
            assert(sink@ =~= mid + bytes@.subrange(0, i as int + 1));
        }
        i = i + 1;
    }
    proof {
        assert(bytes@.subrange(0, bytes@.len() as int) =~= bytes@);
        assert(sink@ =~= old(sink)@ + spec_lp_bytes(bytes@));
        lemma_prefix_of_concat(old(sink)@, spec_lp_bytes(bytes@));
    }
    Ok(())
}

/// Reads a 32-bit byte count and that many raw bytes. On failure the
/// cursor rests just past the count prefix when that prefix itself was
/// read, else where it started.
pub fn read_bytes(src: &Vec<u8>, pos: &mut usize) -> (r: Result<Vec<u8>, Error>)
    ensures
        (match spec_parse_lp_bytes(src@, *old(pos) as int) {
            Ok((b, p)) => r is Ok && r->Ok_0@ == b && *final(pos) as int == p,
            Err(e) => r is Err && r->Err_0 == e && (match spec_parse_i32(
                src@,
                *old(pos) as int,
            ) {
                Ok((count, q)) => *final(pos) as int == q,
                Err(_) => *final(pos) == *old(pos),
            }),
        }),
{
    let n = match read_i32_be(src, pos) {
        Ok(n) => n,
        Err(e) => {
            return Err(e);
        },
    };
    if n < 0 {
        return Err(Error::NegativeLength);
    }
    let n = n as usize;
    if src.len() < n || *pos > src.len() - n {
        return Err(Error::TruncatedInput);
    }
    let start = *pos;
    let end = start + n;
    let mut buf: Vec<u8> = Vec::new();
    let mut j: usize = start;
    while j < end
        invariant
            start <= j <= end,
            end <= src@.len(),
            buf@ == src@.subrange(start as int, j as int),
        decreases end - j,
    {
        let b = src[j];
        buf.push(b);
        proof {
            assert(buf@ =~= src@.subrange(start as int, j as int + 1));
        }
        j = j + 1;
    }
    *pos = end;
    Ok(buf)
}

// ---------------------------------------------------------------------------
// Length-prefixed homogeneous sequences
// ---------------------------------------------------------------------------

/// Every element's content satisfies its type's invariants.
pub open spec fn spec_elems_wf<T: Serializable>(ms: Seq<T::V>) -> bool {
    forall|i: int| 0 <= i < ms.len() ==> T::spec_wf(#[trigger] ms[i])
}

/// The elements' encodings, one after another.
pub open spec fn spec_elems_bytes<T: Serializable>(ms: Seq<T::V>) -> Seq<u8>
    decreases ms.len(),
{
    if ms.len() == 0 {
        Seq::empty()
    } else {
        T::spec_bytes(ms[0]) + spec_elems_bytes::<T>(ms.skip(1))
    }
}

/// The bytes a failed sequence write leaves behind after its count prefix:
/// the encodings of the well-formed elements before the first ill-formed
/// one, then whatever that element's own failed write flushed.
pub open spec fn spec_elems_err_bytes<T: Serializable>(ms: Seq<T::V>) -> Seq<u8>
    decreases ms.len(),
{
    if ms.len() == 0 {
        Seq::empty()
    } else if !T::spec_wf(ms[0]) {
        T::spec_err_bytes(ms[0])
    } else {
        T::spec_bytes(ms[0]) + spec_elems_err_bytes::<T>(ms.skip(1))
    }
}

/// The error the first element that violates its invariants reports.
pub open spec fn spec_first_elem_err<T: Serializable>(ms: Seq<T::V>) -> Error
    decreases ms.len(),
{
    if ms.len() == 0 {
        arbitrary()
    } else if !T::spec_wf(ms[0]) {
        T::spec_write_err(ms[0])
    } else {
        spec_first_elem_err::<T>(ms.skip(1))
    }
}

/// A 32-bit element count followed by the elements' encodings.
pub open spec fn spec_slice_bytes<T: Serializable>(ms: Seq<T::V>) -> Seq<u8> {
    spec_i32_bytes(ms.len() as i32) + spec_elems_bytes::<T>(ms)
}

/// A sequence encodes when its count fits the 32-bit prefix and every
/// element is well-formed.
pub open spec fn spec_slice_wf<T: Serializable>(ms: Seq<T::V>) -> bool {
    ms.len() <= i32::MAX && spec_elems_wf::<T>(ms)
}

pub open spec fn spec_slice_write_err<T: Serializable>(ms: Seq<T::V>) -> Error {
    if ms.len() > i32::MAX {
        Error::LengthExceeded
    } else {
        spec_first_elem_err::<T>(ms)
    }
}

/// What a failed sequence write leaves appended: nothing when the count
/// prefix is refused, otherwise the count prefix and the elements up to
/// and into the first failure.
pub open spec fn spec_slice_err_bytes<T: Serializable>(ms: Seq<T::V>) -> Seq<u8> {
    if ms.len() > i32::MAX {
        Seq::empty()
    } else {
        spec_i32_bytes(ms.len() as i32) + spec_elems_err_bytes::<T>(ms)
    }
}

/// Parses exactly `n` consecutive elements.
pub open spec fn spec_parse_n<T: Serializable>(s: Seq<u8>, pos: int, n: nat) -> Result<
    (Seq<T::V>, int),
    Error,
>
    decreases n,
{
    if n == 0 {
        Ok((Seq::empty(), pos))
    } else {
        match T::spec_parse(s, pos) {
            Err(e) => Err(e),
            Ok((m, p)) => match spec_parse_n::<T>(s, p, (n - 1) as nat) {
                Err(e) => Err(e),
                Ok((ms, q)) => Ok((seq![m] + ms, q)),
            },
        }
    }
}

/// Parses a 32-bit element count (`NegativeLength` when negative,
/// `LengthExceeded` when over a caller-given ceiling; ceiling -1 means
/// none) and then that many elements.
pub open spec fn spec_parse_slice<T: Serializable>(
    s: Seq<u8>,
    pos: int,
    max_length: i32,
) -> Result<(Seq<T::V>, int), Error> {
    match spec_parse_i32(s, pos) {
        Err(e) => Err(e),
        Ok((n, p)) => if n < 0 {
            Err(Error::NegativeLength)
        } else if max_length != -1 && n > max_length {
            Err(Error::LengthExceeded)
        } else {
            spec_parse_n::<T>(s, p, n as nat)
        },
    }
}

pub proof fn lemma_elems_bytes_concat<T: Serializable>(a: Seq<T::V>, b: Seq<T::V>)
    ensures
        spec_elems_bytes::<T>(a + b) == spec_elems_bytes::<T>(a) + spec_elems_bytes::<T>(b),
    decreases a.len(),
{
    if a.len() == 0 {
        assert(a + b =~= b);
        assert(spec_elems_bytes::<T>(a) + spec_elems_bytes::<T>(b) =~= spec_elems_bytes::<T>(b));
    } else {
        assert((a + b).skip(1) =~= a.skip(1) + b);
        assert((a + b)[0] == a[0]);
        lemma_elems_bytes_concat::<T>(a.skip(1), b);
        assert(T::spec_bytes(a[0]) + (spec_elems_bytes::<T>(a.skip(1)) + spec_elems_bytes::<T>(b))
            =~= (T::spec_bytes(a[0]) + spec_elems_bytes::<T>(a.skip(1))) + spec_elems_bytes::<T>(
            b,
        ));
    }
}

pub proof fn lemma_elems_bytes_push<T: Serializable>(ms: Seq<T::V>, m: T::V)
    ensures
        spec_elems_bytes::<T>(ms.push(m)) == spec_elems_bytes::<T>(ms) + T::spec_bytes(m),
{
    assert(ms.push(m) =~= ms + seq![m]);
    lemma_elems_bytes_concat::<T>(ms, seq![m]);
    assert(seq![m].skip(1) =~= Seq::<T::V>::empty());
    assert(spec_elems_bytes::<T>(seq![m].skip(1)) == spec_elems_bytes::<T>(
        Seq::<T::V>::empty(),
    ));
    assert(spec_elems_bytes::<T>(Seq::<T::V>::empty()) == Seq::<u8>::empty());
    assert(spec_elems_bytes::<T>(seq![m]) == T::spec_bytes(m) + Seq::<u8>::empty());
    assert(T::spec_bytes(m) + Seq::<u8>::empty() =~= T::spec_bytes(m));
}

pub proof fn lemma_first_elem_err_at<T: Serializable>(ms: Seq<T::V>, i: int)
    requires
        0 <= i < ms.len(),
        forall|j: int| 0 <= j < i ==> T::spec_wf(#[trigger] ms[j]),
        !T::spec_wf(ms[i]),
    ensures
        spec_first_elem_err::<T>(ms) == T::spec_write_err(ms[i]),
    decreases i,
{
    if i > 0 {
        assert(T::spec_wf(ms[0]));
        assert(forall|j: int| 0 <= j < i - 1 ==> ms.skip(1)[j] == #[trigger] ms[j + 1]);
        assert(ms.skip(1)[i - 1] == ms[i]);
        lemma_first_elem_err_at::<T>(ms.skip(1), i - 1);
    }
}

/// When the first ill-formed element sits at index `i`, a failed sequence
/// write has flushed the encodings of the `i` elements before it and then
/// that element's own partial bytes.
pub proof fn lemma_elems_err_bytes_at<T: Serializable>(ms: Seq<T::V>, i: int)
    requires
        0 <= i < ms.len(),
        forall|j: int| 0 <= j < i ==> T::spec_wf(#[trigger] ms[j]),
        !T::spec_wf(ms[i]),
    ensures
        spec_elems_err_bytes::<T>(ms) == spec_elems_bytes::<T>(ms.take(i)) + T::spec_err_bytes(
            ms[i],
        ),
    decreases i,
{
    if i == 0 {
        assert(ms.take(0) =~= Seq::<T::V>::empty());
        assert(spec_elems_bytes::<T>(ms.take(0)) == Seq::<u8>::empty());
        assert(Seq::<u8>::empty() + T::spec_err_bytes(ms[0]) =~= T::spec_err_bytes(ms[0]));
    } else {
        assert(T::spec_wf(ms[0]));
        assert(forall|j: int| 0 <= j < i - 1 ==> ms.skip(1)[j] == #[trigger] ms[j + 1]);
        assert(ms.skip(1)[i - 1] == ms[i]);
        lemma_elems_err_bytes_at::<T>(ms.skip(1), i - 1);
        assert(ms.take(i)[0] == ms[0]);
        assert(ms.take(i).skip(1) =~= ms.skip(1).take(i - 1));
        assert(spec_elems_bytes::<T>(ms.take(i)) == T::spec_bytes(ms[0]) + spec_elems_bytes::<T>(
            ms.skip(1).take(i - 1),
        ));
        assert(T::spec_bytes(ms[0]) + (spec_elems_bytes::<T>(ms.skip(1).take(i - 1))
            + T::spec_err_bytes(ms[i])) =~= (T::spec_bytes(ms[0]) + spec_elems_bytes::<T>(
            ms.skip(1).take(i - 1),
        )) + T::spec_err_bytes(ms[i]));
    }
}

/// Parsing `n` elements yields `n` elements, each well-formed, and
/// consumes exactly their concatenated canonical encodings.
pub proof fn lemma_parse_n_ok<T: Serializable>(s: Seq<u8>, pos: int, n: nat)
    ensures
        spec_parse_n::<T>(s, pos, n) is Ok ==> {
            let (ms, q) = spec_parse_n::<T>(s, pos, n)->Ok_0;
            &&& ms.len() == n
            &&& spec_elems_wf::<T>(ms)
            &&& q == pos + spec_elems_bytes::<T>(ms).len()
            &&& (n > 0 ==> 0 <= pos && q <= s.len() && s.subrange(pos, q) == spec_elems_bytes::<
            T,
            >(ms))
        },
    decreases n,
{
    if n > 0 && spec_parse_n::<T>(s, pos, n) is Ok {
        T::lemma_parse_ok(s, pos);
        let (m, p) = T::spec_parse(s, pos)->Ok_0;
        let head = T::spec_bytes(m);
        lemma_parse_n_ok::<T>(s, p, (n - 1) as nat);
        let (ms1, q) = spec_parse_n::<T>(s, p, (n - 1) as nat)->Ok_0;
        let ms = seq![m] + ms1;
        let tail = spec_elems_bytes::<T>(ms1);
        assert(ms[0] == m);
        assert(ms.skip(1) =~= ms1);
        assert(spec_elems_bytes::<T>(ms) == head + tail);
        assert forall|i: int| 0 <= i < ms.len() implies T::spec_wf(#[trigger] ms[i]) by {
            if i > 0 {
                assert(ms[i] == ms1[i - 1]);
                assert(T::spec_wf(ms1[i - 1]));
            }
        }
        if n == 1 {
            assert(ms1 =~= Seq::<T::V>::empty());
            assert(q == p);
            assert(head + tail =~= head);
        } else {
            lemma_subrange_join(s, pos, p, q);
        }
    }
}

/// Parsing the concatenated encodings of well-formed elements yields
/// exactly those elements.
pub proof fn lemma_parse_n_of_bytes<T: Serializable>(ms: Seq<T::V>, s: Seq<u8>, pos: int)
    requires
        spec_elems_wf::<T>(ms),
        0 <= pos,
        pos + spec_elems_bytes::<T>(ms).len() <= s.len(),
        s.subrange(pos, pos + spec_elems_bytes::<T>(ms).len() as int) == spec_elems_bytes::<T>(ms),
    ensures
        spec_parse_n::<T>(s, pos, ms.len()) == Ok::<(Seq<T::V>, int), Error>(
            (ms, pos + spec_elems_bytes::<T>(ms).len() as int),
        ),
    decreases ms.len(),
{
    if ms.len() == 0 {
        assert(ms =~= Seq::<T::V>::empty());
    } else {
        let head = T::spec_bytes(ms[0]);
        let tail = spec_elems_bytes::<T>(ms.skip(1));
        lemma_subrange_split(s, pos, head, tail);
        T::lemma_parse_bytes(ms[0], s, pos);
        assert forall|j: int| 0 <= j < ms.skip(1).len() implies T::spec_wf(
            #[trigger] ms.skip(1)[j],
        ) by {
            assert(ms.skip(1)[j] == ms[j + 1]);
        }
        lemma_parse_n_of_bytes::<T>(ms.skip(1), s, pos + head.len());
        assert(seq![ms[0]] + ms.skip(1) =~= ms);
    }
}

/// The exact encoded size of a length-prefixed sequence: the 32-bit count
/// plus each element's exact size.
pub fn slice_size<T: Serializable>(slice: &Vec<T>) -> (n: usize)
    requires
        spec_slice_bytes::<T>(slice.deep_view()).len() <= usize::MAX,
    ensures
        n == spec_slice_bytes::<T>(slice.deep_view()).len(),
{
    let ghost ms = slice.deep_view();
    let mut n: usize = 4;
    let mut i: usize = 0;
    while i < slice.len()
        invariant
            i <= slice@.len(),
            ms == slice.deep_view(),
            ms.len() == slice@.len(),
            spec_slice_bytes::<T>(ms).len() <= usize::MAX,
            n == 4 + spec_elems_bytes::<T>(ms.take(i as int)).len(),
        decreases slice@.len() - i,
    {
        proof {
            assert(ms.take(i as int).push(ms[i as int]) =~= ms.take(i as int + 1));
            lemma_elems_bytes_push::<T>(ms.take(i as int), ms[i as int]);
            assert(ms.take(i as int + 1) + ms.skip(i as int + 1) =~= ms);
            lemma_elems_bytes_concat::<T>(ms.take(i as int + 1), ms.skip(i as int + 1));
        }
        let es = slice[i].size();
        n = n + es;
        i = i + 1;
    }
    proof {
        assert(ms.take(ms.len() as int) =~= ms);
    }
    n
}

/// Appends the element count and each element in order; `LengthExceeded`
/// when the count does not fit the 32-bit prefix, otherwise the first
/// ill-formed element's error.
pub fn write_slice<T: Serializable>(sink: &mut Vec<u8>, slice: &Vec<T>) -> (r: Result<(), Error>)
    ensures
        old(sink)@.is_prefix_of(final(sink)@),
        r is Ok <==> spec_slice_wf::<T>(slice.deep_view()),
        r is Ok ==> final(sink)@ == old(sink)@ + spec_slice_bytes::<T>(slice.deep_view()),
        r is Err ==> r->Err_0 == spec_slice_write_err::<T>(slice.deep_view()) && final(sink)@
            == old(sink)@ + spec_slice_err_bytes::<T>(slice.deep_view()),
{
    let ghost ms = slice.deep_view();
    if slice.len() > (i32::MAX as usize) {
        proof {
            assert(sink@.subrange(0, sink@.len() as int) =~= sink@);
            assert(sink@ =~= old(sink)@ + spec_slice_err_bytes::<T>(ms));
        }
        return Err(Error::LengthExceeded);
    }
    write_i32_be(sink, slice.len() as i32);
    let ghost mid = sink@;
    proof {
        lemma_prefix_of_concat(old(sink)@, spec_i32_bytes(ms.len() as i32));
    }
    let mut i: usize = 0;
    while i < slice.len()
        invariant
            i <= slice@.len(),
            ms == slice.deep_view(),
            ms.len() == slice@.len(),
            slice@.len() <= i32::MAX,
            mid == old(sink)@ + spec_i32_bytes(ms.len() as i32),
            old(sink)@.is_prefix_of(mid),
            spec_elems_wf::<T>(ms.take(i as int)),
            sink@ == mid + spec_elems_bytes::<T>(ms.take(i as int)),
        decreases slice@.len() - i,
    {
        let ghost prev = sink@;
        proof {
            lemma_prefix_of_concat(mid, spec_elems_bytes::<T>(ms.take(i as int)));
        }
        match slice[i].write(sink) {
            Ok(()) => {},
            Err(e) => {
                proof {
                    assert(!T::spec_wf(ms[i as int]));
                    assert forall|j: int| 0 <= j < i as int implies T::spec_wf(
                        #[trigger] ms[j],
                    ) by {
                        assert(ms.take(i as int)[j] == ms[j]);
                        assert(T::spec_wf(ms.take(i as int)[j]));
                    }
                    lemma_first_elem_err_at::<T>(ms, i as int);
                    lemma_elems_err_bytes_at::<T>(ms, i as int);
                    assert(sink@ =~= old(sink)@ + spec_slice_err_bytes::<T>(ms));
                    lemma_prefix_trans(old(sink)@, mid, prev);
                    lemma_prefix_trans(old(sink)@, prev, sink@);
                }
                return Err(e);
            },
        }
        proof {
            assert(ms.take(i as int).push(ms[i as int]) =~= ms.take(i as int + 1));
            lemma_elems_bytes_push::<T>(ms.take(i as int), ms[i as int]);
            assert(sink@ =~= mid + spec_elems_bytes::<T>(ms.take(i as int + 1)));
            assert forall|j: int| 0 <= j < i as int + 1 implies T::spec_wf(
                #[trigger] ms.take(i as int + 1)[j],
            ) by {
                if j < i as int {
                    assert(ms.take(i as int + 1)[j] == ms.take(i as int)[j]);
                    assert(T::spec_wf(ms.take(i as int)[j]));
                } else {
                    assert(ms.take(i as int + 1)[j] == ms[i as int]);
                }
            }
        }
        i = i + 1;
    }
    proof {
        assert(ms.take(ms.len() as int) =~= ms);
        assert(sink@ =~= old(sink)@ + spec_slice_bytes::<T>(ms));
        lemma_prefix_of_concat(old(sink)@, spec_slice_bytes::<T>(ms));
    }
    Ok(())
}

/// Decodes an element count and that many elements, enforcing the
/// caller's ceiling (-1 means none).
pub fn read_slice<T: Serializable>(src: &Vec<u8>, pos: &mut usize, max_length: i32) -> (r: Result<
    Vec<T>,
    Error,
>)
    ensures
        (match spec_parse_slice::<T>(src@, *old(pos) as int, max_length) {
            Ok((ms, p)) => r is Ok && r->Ok_0.deep_view() == ms && *final(pos) as int == p,
            Err(e) => r is Err && r->Err_0 == e && *old(pos) <= *final(pos),
        }),
{
    let n = match read_i32_be(src, pos) {
        Ok(n) => n,
        Err(e) => {
            return Err(e);
        },
    };
    if n < 0 {
        return Err(Error::NegativeLength);
    }
    if max_length != -1 && n > max_length {
        return Err(Error::LengthExceeded);
    }
    let ghost start = *pos as int;
    let mut buf: Vec<T> = Vec::new();
    let mut i: i32 = 0;
    proof {
        assert(buf.deep_view() =~= Seq::<T::V>::empty());
    }
    while i < n
        invariant
            0 <= i <= n,
            *old(pos) <= *pos,
            buf.deep_view().len() == i as int,
            spec_parse_slice::<T>(src@, *old(pos) as int, max_length) == spec_parse_n::<T>(
                src@,
                start,
                n as nat,
            ),
            spec_parse_n::<T>(src@, start, n as nat) == (match spec_parse_n::<T>(
                src@,
                *pos as int,
                (n - i) as nat,
            ) {
                Ok((ms, p)) => Ok::<(Seq<T::V>, int), Error>((buf.deep_view() + ms, p)),
                Err(e) => Err::<(Seq<T::V>, int), Error>(e),
            }),
        decreases n - i,
    {
        let ghost prev_pos = *pos as int;
        let ghost prev_view = buf.deep_view();
        let x = match T::read(src, pos) {
            Ok(x) => x,
            Err(e) => {
                proof {
                    assert(spec_parse_n::<T>(src@, prev_pos, (n - i) as nat)
                        == Err::<(Seq<T::V>, int), Error>(e));
                }
                return Err(e);
            },
        };
        buf.push(x);
        proof {
            T::lemma_parse_ok(src@, prev_pos);
            let (m, p) = T::spec_parse(src@, prev_pos)->Ok_0;
            assert(buf.deep_view() =~= prev_view.push(m));
            if spec_parse_n::<T>(src@, p, (n - i - 1) as nat) is Ok {
                let (ms, q) = spec_parse_n::<T>(src@, p, (n - i - 1) as nat)->Ok_0;
                assert(prev_view + (seq![m] + ms) =~= prev_view.push(m) + ms);
            }
        }
        i = i + 1;
    }
    proof {
        assert(buf.deep_view() + Seq::<T::V>::empty() =~= buf.deep_view());
    }
    Ok(buf)
}

// ---------------------------------------------------------------------------
// Pointers as records: an eight-byte offset validated on both encode and
// decode, so pointer sequences are ordinary length-prefixed sequences.
// ---------------------------------------------------------------------------

/// A successfully parsed pointer is valid and occupies exactly its eight
/// canonical bytes.
pub proof fn lemma_parse_ptr_exact(s: Seq<u8>, pos: int)
    ensures
        spec_parse_ptr(s, pos) is Ok ==> {
            let (v, p) = spec_parse_ptr(s, pos)->Ok_0;
            &&& spec_ptr_valid(v)
            &&& 0 <= pos
            &&& p == pos + 8
            &&& p <= s.len()
            &&& s.subrange(pos, p) == spec_i64_bytes(v)
        },
{
    crate::wire::lemma_parse_i64_exact(s, pos);
}

/// Decodes one pointer, rejecting any negative value other than NIL.
pub fn read_ptr(src: &Vec<u8>, pos: &mut usize) -> (r: Result<i64, Error>)
    ensures
        (match spec_parse_ptr(src@, *old(pos) as int) {
            Ok((x, p)) => r is Ok && r->Ok_0 == x && *final(pos) as int == p,
            Err(e) => r is Err && r->Err_0 == e && *old(pos) <= *final(pos),
        }),
{
    let p = match read_i64_be(src, pos) {
        Ok(p) => p,
        Err(e) => {
            return Err(e);
        },
    };
    verify_ptr(p)
}

/// Validates and then appends one pointer; an invalid pointer leaves the
/// sink untouched.
pub fn write_ptr(sink: &mut Vec<u8>, ptr: i64) -> (r: Result<(), Error>)
    ensures
        old(sink)@.is_prefix_of(final(sink)@),
        r is Ok <==> spec_ptr_valid(ptr),
        r is Ok ==> final(sink)@ == old(sink)@ + spec_i64_bytes(ptr),
        r is Err ==> r->Err_0 == Error::InvalidPointer && final(sink)@ == old(sink)@,
{
    match verify_ptr(ptr) {
        Ok(_) => {},
        Err(e) => {
            proof {
                assert(sink@.subrange(0, sink@.len() as int) =~= sink@);
            }
            return Err(e);
        },
    }
    write_i64_be(sink, ptr);
    proof {
        lemma_prefix_of_concat(old(sink)@, spec_i64_bytes(ptr));
    }
    Ok(())
}

impl Serializable for i64 {
    open spec fn spec_wf(m: i64) -> bool {
        spec_ptr_valid(m)
    }

    open spec fn spec_bytes(m: i64) -> Seq<u8> {
        spec_i64_bytes(m)
    }

    open spec fn spec_write_err(m: i64) -> Error {
        Error::InvalidPointer
    }

    open spec fn spec_err_bytes(m: i64) -> Seq<u8> {
        Seq::empty()
    }

    open spec fn spec_parse(s: Seq<u8>, pos: int) -> Result<(i64, int), Error> {
        spec_parse_ptr(s, pos)
    }

    proof fn lemma_parse_bytes(m: i64, s: Seq<u8>, pos: int) {
        crate::wire::lemma_parse_i64_of_bytes(m, s, pos);
    }

    proof fn lemma_parse_ok(s: Seq<u8>, pos: int) {
        lemma_parse_ptr_exact(s, pos);
    }

    fn size(&self) -> (n: usize) {
        8
    }

    fn read(src: &Vec<u8>, pos: &mut usize) -> (r: Result<i64, Error>) {
        read_ptr(src, pos)
    }

    fn write(&self, sink: &mut Vec<u8>) -> (r: Result<(), Error>) {
        let r = write_ptr(sink, *self);
        proof {
            assert(old(sink)@ + Seq::<u8>::empty() =~= old(sink)@);
        }
        r
    }
}

/// Appends a pointer sequence: a 32-bit count, then each offset, every one
/// validated before it is written.
pub fn write_ptrs(sink: &mut Vec<u8>, ptrs: &Vec<i64>) -> (r: Result<(), Error>)
    ensures
        old(sink)@.is_prefix_of(final(sink)@),
        r is Ok <==> spec_slice_wf::<i64>(ptrs.deep_view()),
        r is Ok ==> final(sink)@ == old(sink)@ + spec_slice_bytes::<i64>(ptrs.deep_view()),
        r is Err ==> r->Err_0 == spec_slice_write_err::<i64>(ptrs.deep_view()) && final(sink)@
            == old(sink)@ + spec_slice_err_bytes::<i64>(ptrs.deep_view()),
{
    write_slice(sink, ptrs)
}

/// Decodes a pointer sequence, validating every offset, enforcing the
/// caller's ceiling (-1 means none).
pub fn read_ptrs(src: &Vec<u8>, pos: &mut usize, max_length: i32) -> (r: Result<Vec<i64>, Error>)
    ensures
        (match spec_parse_slice::<i64>(src@, *old(pos) as int, max_length) {
            Ok((ms, p)) => r is Ok && r->Ok_0.deep_view() == ms && *final(pos) as int == p,
            Err(e) => r is Err && r->Err_0 == e && *old(pos) <= *final(pos),
        }),
{
    read_slice(src, pos, max_length)
}

} // verus!
