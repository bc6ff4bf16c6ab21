//! Fixed-width big-endian integers: the wire encoding every record is built
//! from, with specification-level byte layouts, parsers, and round-trip
//! proofs.

use crate::errors::Error;
use vstd::prelude::*;

verus! {

// ---------------------------------------------------------------------------
// Byte layouts
// ---------------------------------------------------------------------------

pub open spec fn spec_i8_bytes(v: i8) -> Seq<u8> {
    seq![v as u8]
}

pub open spec fn spec_i16_bytes(v: i16) -> Seq<u8> {
    seq![((v as u16) >> 8) as u8, (v as u16) as u8]
}

pub open spec fn spec_i32_bytes(v: i32) -> Seq<u8> {
    seq![
        ((v as u32) >> 24) as u8,
        ((v as u32) >> 16) as u8,
        ((v as u32) >> 8) as u8,
        (v as u32) as u8,
    ]
}

pub open spec fn spec_i64_bytes(v: i64) -> Seq<u8> {
    seq![
        ((v as u64) >> 56) as u8,
        ((v as u64) >> 48) as u8,
        ((v as u64) >> 40) as u8,
        ((v as u64) >> 32) as u8,
        ((v as u64) >> 24) as u8,
        ((v as u64) >> 16) as u8,
        ((v as u64) >> 8) as u8,
        (v as u64) as u8,
    ]
}

// ---------------------------------------------------------------------------
// Values recovered from bytes
// ---------------------------------------------------------------------------

pub open spec fn spec_i8_of(b0: u8) -> i8 {
    b0 as i8
}

pub open spec fn spec_i16_of(b0: u8, b1: u8) -> i16 {
    (((b0 as u16) << 8) | (b1 as u16)) as i16
}

pub open spec fn spec_i32_of(b0: u8, b1: u8, b2: u8, b3: u8) -> i32 {
    (((b0 as u32) << 24) | ((b1 as u32) << 16) | ((b2 as u32) << 8) | (b3 as u32)) as i32
}

pub open spec fn spec_i64_of(
    b0: u8,
    b1: u8,
    b2: u8,
    b3: u8,
    b4: u8,
    b5: u8,
    b6: u8,
    b7: u8,
) -> i64 {
    (((b0 as u64) << 56) | ((b1 as u64) << 48) | ((b2 as u64) << 40) | ((b3 as u64) << 32) | (
    (b4 as u64) << 24) | ((b5 as u64) << 16) | ((b6 as u64) << 8) | (b7 as u64)) as i64
}

// ---------------------------------------------------------------------------
// Specification-level parsers: the value, and the position one past it,
// or `TruncatedInput` when the input ends first.
// ---------------------------------------------------------------------------

pub open spec fn spec_parse_i8(s: Seq<u8>, pos: int) -> Result<(i8, int), Error> {
    if 0 <= pos && pos + 1 <= s.len() {
        Ok((spec_i8_of(s[pos]), pos + 1))
    } else {
        Err(Error::TruncatedInput)
    }
}

pub open spec fn spec_parse_i16(s: Seq<u8>, pos: int) -> Result<(i16, int), Error> {
    if 0 <= pos && pos + 2 <= s.len() {
        Ok((spec_i16_of(s[pos], s[pos + 1]), pos + 2))
    } else {
        Err(Error::TruncatedInput)
    }
}

pub open spec fn spec_parse_i32(s: Seq<u8>, pos: int) -> Result<(i32, int), Error> {
    if 0 <= pos && pos + 4 <= s.len() {
        Ok((spec_i32_of(s[pos], s[pos + 1], s[pos + 2], s[pos + 3]), pos + 4))
    } else {
        Err(Error::TruncatedInput)
    }
}

pub open spec fn spec_parse_i64(s: Seq<u8>, pos: int) -> Result<(i64, int), Error> {
    if 0 <= pos && pos + 8 <= s.len() {
        Ok(
            (
                spec_i64_of(
                    s[pos],
                    s[pos + 1],
                    s[pos + 2],
                    s[pos + 3],
                    s[pos + 4],
                    s[pos + 5],
                    s[pos + 6],
                    s[pos + 7],
                ),
                pos + 8,
            ),
        )
    } else {
        Err(Error::TruncatedInput)
    }
}

// ---------------------------------------------------------------------------
// Round trips: recovering a value from its own bytes gives the value back.
// ---------------------------------------------------------------------------

pub proof fn lemma_i8_round_trip(v: i8)
    ensures
        spec_i8_of(v as u8) == v,
{
    assert((v as u8) as i8 == v) by (bit_vector);
}

pub proof fn lemma_i16_round_trip(v: i16)
    ensures
        spec_i16_of(((v as u16) >> 8) as u8, (v as u16) as u8) == v,
{
    assert(((((((v as u16) >> 8) as u8) as u16) << 8) | (((v as u16) as u8) as u16)) as i16
        == v) by (bit_vector);
}

pub proof fn lemma_i32_round_trip(v: i32)
    ensures
        spec_i32_of(
            ((v as u32) >> 24) as u8,
            ((v as u32) >> 16) as u8,
            ((v as u32) >> 8) as u8,
            (v as u32) as u8,
        ) == v,
{
    assert(((((((v as u32) >> 24) as u8) as u32) << 24) | (((((v as u32) >> 16) as u8) as u32)
        << 16) | (((((v as u32) >> 8) as u8) as u32) << 8) | (((v as u32) as u8) as u32)) as i32
        == v) by (bit_vector);
}

pub proof fn lemma_i64_round_trip(v: i64)
    ensures
        spec_i64_of(
            ((v as u64) >> 56) as u8,
            ((v as u64) >> 48) as u8,
            ((v as u64) >> 40) as u8,
            ((v as u64) >> 32) as u8,
            ((v as u64) >> 24) as u8,
            ((v as u64) >> 16) as u8,
            ((v as u64) >> 8) as u8,
            (v as u64) as u8,
        ) == v,
{
    assert(((((((v as u64) >> 56) as u8) as u64) << 56) | (((((v as u64) >> 48) as u8) as u64)
        << 48) | (((((v as u64) >> 40) as u8) as u64) << 40) | (((((v as u64) >> 32) as u8) as u64)
        << 32) | (((((v as u64) >> 24) as u8) as u64) << 24) | (((((v as u64) >> 16) as u8) as u64)
        << 16) | (((((v as u64) >> 8) as u8) as u64) << 8) | (((v as u64) as u8) as u64)) as i64
        == v) by (bit_vector);
}

// ---------------------------------------------------------------------------
// The other direction: encoding a recovered value gives the bytes back, so
// the encodings are canonical.
// ---------------------------------------------------------------------------

pub proof fn lemma_i8_bytes_of(b0: u8)
    ensures
        spec_i8_bytes(spec_i8_of(b0)) == seq![b0],
{
    assert((b0 as i8) as u8 == b0) by (bit_vector);
    assert(spec_i8_bytes(spec_i8_of(b0)) =~= seq![b0]);
}

pub proof fn lemma_i16_bytes_of(b0: u8, b1: u8)
    ensures
        spec_i16_bytes(spec_i16_of(b0, b1)) == seq![b0, b1],
{
    assert(((((((b0 as u16) << 8) | (b1 as u16)) as i16) as u16 >> 8) as u8 == b0) && ((((((
    b0 as u16) << 8) | (b1 as u16)) as i16) as u16) as u8 == b1)) by (bit_vector);
    assert(spec_i16_bytes(spec_i16_of(b0, b1)) =~= seq![b0, b1]);
}

pub proof fn lemma_i32_bytes_of(b0: u8, b1: u8, b2: u8, b3: u8)
    ensures
        spec_i32_bytes(spec_i32_of(b0, b1, b2, b3)) == seq![b0, b1, b2, b3],
{
    let u = ((b0 as u32) << 24) | ((b1 as u32) << 16) | ((b2 as u32) << 8) | (b3 as u32);
    assert((((u as i32) as u32 >> 24) as u8 == b0) && (((u as i32) as u32 >> 16) as u8 == b1)
        && (((u as i32) as u32 >> 8) as u8 == b2) && (((u as i32) as u32) as u8
        == b3)) by (bit_vector)
        requires
            u == ((b0 as u32) << 24) | ((b1 as u32) << 16) | ((b2 as u32) << 8) | (b3 as u32),
    ;
    assert(spec_i32_bytes(spec_i32_of(b0, b1, b2, b3)) =~= seq![b0, b1, b2, b3]);
}

pub proof fn lemma_i64_bytes_of(b0: u8, b1: u8, b2: u8, b3: u8, b4: u8, b5: u8, b6: u8, b7: u8)
    ensures
        spec_i64_bytes(spec_i64_of(b0, b1, b2, b3, b4, b5, b6, b7)) == seq![
            b0,
            b1,
            b2,
            b3,
            b4,
            b5,
            b6,
            b7,
        ],
{
    let u = ((b0 as u64) << 56) | ((b1 as u64) << 48) | ((b2 as u64) << 40) | ((b3 as u64) << 32)
        | ((b4 as u64) << 24) | ((b5 as u64) << 16) | ((b6 as u64) << 8) | (b7 as u64);
    assert((((u as i64) as u64 >> 56) as u8 == b0) && (((u as i64) as u64 >> 48) as u8 == b1)
        && (((u as i64) as u64 >> 40) as u8 == b2) && (((u as i64) as u64 >> 32) as u8 == b3)
        && (((u as i64) as u64 >> 24) as u8 == b4) && (((u as i64) as u64 >> 16) as u8 == b5)
        && (((u as i64) as u64 >> 8) as u8 == b6) && (((u as i64) as u64) as u8
        == b7)) by (bit_vector)
        requires
            u == ((b0 as u64) << 56) | ((b1 as u64) << 48) | ((b2 as u64) << 40) | ((b3 as u64)
                << 32) | ((b4 as u64) << 24) | ((b5 as u64) << 16) | ((b6 as u64) << 8) | (
            b7 as u64),
    ;
    assert(spec_i64_bytes(spec_i64_of(b0, b1, b2, b3, b4, b5, b6, b7)) =~= seq![
        b0,
        b1,
        b2,
        b3,
        b4,
        b5,
        b6,
        b7,
    ]);
}

// A successful parse consumes exactly the canonical encoding of the value
// it returns.

pub proof fn lemma_parse_i8_exact(s: Seq<u8>, pos: int)
    ensures
        spec_parse_i8(s, pos) is Ok ==> {
            let (v, p) = spec_parse_i8(s, pos)->Ok_0;
            &&& 0 <= pos
            &&& p == pos + 1
            &&& p <= s.len()
            &&& s.subrange(pos, p) == spec_i8_bytes(v)
        },
{
    if spec_parse_i8(s, pos) is Ok {
        lemma_i8_bytes_of(s[pos]);
        assert(s.subrange(pos, pos + 1) =~= seq![s[pos]]);
    }
}

pub proof fn lemma_parse_i16_exact(s: Seq<u8>, pos: int)
    ensures
        spec_parse_i16(s, pos) is Ok ==> {
            let (v, p) = spec_parse_i16(s, pos)->Ok_0;
            &&& 0 <= pos
            &&& p == pos + 2
            &&& p <= s.len()
            &&& s.subrange(pos, p) == spec_i16_bytes(v)
        },
{
    if spec_parse_i16(s, pos) is Ok {
        lemma_i16_bytes_of(s[pos], s[pos + 1]);
        assert(s.subrange(pos, pos + 2) =~= seq![s[pos], s[pos + 1]]);
    }
}

pub proof fn lemma_parse_i32_exact(s: Seq<u8>, pos: int)
    ensures
        spec_parse_i32(s, pos) is Ok ==> {
            let (v, p) = spec_parse_i32(s, pos)->Ok_0;
            &&& 0 <= pos
            &&& p == pos + 4
            &&& p <= s.len()
            &&& s.subrange(pos, p) == spec_i32_bytes(v)
        },
{
    if spec_parse_i32(s, pos) is Ok {
        lemma_i32_bytes_of(s[pos], s[pos + 1], s[pos + 2], s[pos + 3]);
        assert(s.subrange(pos, pos + 4) =~= seq![s[pos], s[pos + 1], s[pos + 2], s[pos + 3]]);
    }
}

pub proof fn lemma_parse_i64_exact(s: Seq<u8>, pos: int)
    ensures
        spec_parse_i64(s, pos) is Ok ==> {
            let (v, p) = spec_parse_i64(s, pos)->Ok_0;
            &&& 0 <= pos
            &&& p == pos + 8
            &&& p <= s.len()
            &&& s.subrange(pos, p) == spec_i64_bytes(v)
        },
{
    if spec_parse_i64(s, pos) is Ok {
        lemma_i64_bytes_of(
            s[pos],
            s[pos + 1],
            s[pos + 2],
            s[pos + 3],
            s[pos + 4],
            s[pos + 5],
            s[pos + 6],
            s[pos + 7],
        );
        assert(s.subrange(pos, pos + 8) =~= seq![
            s[pos],
            s[pos + 1],
            s[pos + 2],
            s[pos + 3],
            s[pos + 4],
            s[pos + 5],
            s[pos + 6],
            s[pos + 7],
        ]);
    }
}

// ---------------------------------------------------------------------------
// Parsing an encoding found inside a larger byte sequence.
// ---------------------------------------------------------------------------

pub proof fn lemma_parse_i8_of_bytes(v: i8, s: Seq<u8>, pos: int)
    requires
        0 <= pos,
        pos + 1 <= s.len(),
        s.subrange(pos, pos + 1) == spec_i8_bytes(v),
    ensures
        spec_parse_i8(s, pos) == Ok::<(i8, int), Error>((v, pos + 1)),
{
    assert(s[pos] == s.subrange(pos, pos + 1)[0]);
    lemma_i8_round_trip(v);
}

pub proof fn lemma_parse_i16_of_bytes(v: i16, s: Seq<u8>, pos: int)
    requires
        0 <= pos,
        pos + 2 <= s.len(),
        s.subrange(pos, pos + 2) == spec_i16_bytes(v),
    ensures
        spec_parse_i16(s, pos) == Ok::<(i16, int), Error>((v, pos + 2)),
{
    assert(s[pos] == s.subrange(pos, pos + 2)[0]);
    assert(s[pos + 1] == s.subrange(pos, pos + 2)[1]);
    lemma_i16_round_trip(v);
}

pub proof fn lemma_parse_i32_of_bytes(v: i32, s: Seq<u8>, pos: int)
    requires
        0 <= pos,
        pos + 4 <= s.len(),
        s.subrange(pos, pos + 4) == spec_i32_bytes(v),
    ensures
        spec_parse_i32(s, pos) == Ok::<(i32, int), Error>((v, pos + 4)),
{
    assert(s[pos] == s.subrange(pos, pos + 4)[0]);
    assert(s[pos + 1] == s.subrange(pos, pos + 4)[1]);
    assert(s[pos + 2] == s.subrange(pos, pos + 4)[2]);
    assert(s[pos + 3] == s.subrange(pos, pos + 4)[3]);
    lemma_i32_round_trip(v);
}

pub proof fn lemma_parse_i64_of_bytes(v: i64, s: Seq<u8>, pos: int)
    requires
        0 <= pos,
        pos + 8 <= s.len(),
        s.subrange(pos, pos + 8) == spec_i64_bytes(v),
    ensures
        spec_parse_i64(s, pos) == Ok::<(i64, int), Error>((v, pos + 8)),
{
    assert(s[pos] == s.subrange(pos, pos + 8)[0]);
    assert(s[pos + 1] == s.subrange(pos, pos + 8)[1]);
    assert(s[pos + 2] == s.subrange(pos, pos + 8)[2]);
    assert(s[pos + 3] == s.subrange(pos, pos + 8)[3]);
    assert(s[pos + 4] == s.subrange(pos, pos + 8)[4]);
    assert(s[pos + 5] == s.subrange(pos, pos + 8)[5]);
    assert(s[pos + 6] == s.subrange(pos, pos + 8)[6]);
    assert(s[pos + 7] == s.subrange(pos, pos + 8)[7]);
    lemma_i64_round_trip(v);
}

// ---------------------------------------------------------------------------
// Executable writers
// ---------------------------------------------------------------------------

pub fn write_i8(sink: &mut Vec<u8>, v: i8)
    ensures
        final(sink)@ == old(sink)@ + spec_i8_bytes(v),
{
    sink.push(v as u8);
    proof {
        assert(sink@ =~= old(sink)@ + spec_i8_bytes(v));
    }
}

pub fn write_i16_be(sink: &mut Vec<u8>, v: i16)
    ensures
        final(sink)@ == old(sink)@ + spec_i16_bytes(v),
{
    let u = v as u16;
    sink.push((u >> 8) as u8);
    sink.push(u as u8);
    proof {
        assert(sink@ =~= old(sink)@ + spec_i16_bytes(v));
    }
}

pub fn write_i32_be(sink: &mut Vec<u8>, v: i32)
    ensures
        final(sink)@ == old(sink)@ + spec_i32_bytes(v),
{
    let u = v as u32;
    sink.push((u >> 24) as u8);
    sink.push((u >> 16) as u8);
    sink.push((u >> 8) as u8);
    sink.push(u as u8);
    proof {
        assert(sink@ =~= old(sink)@ + spec_i32_bytes(v));
    }
}

pub fn write_i64_be(sink: &mut Vec<u8>, v: i64)
    ensures
        final(sink)@ == old(sink)@ + spec_i64_bytes(v),
{
    let u = v as u64;
    sink.push((u >> 56) as u8);
    sink.push((u >> 48) as u8);
    sink.push((u >> 40) as u8);
    sink.push((u >> 32) as u8);
    sink.push((u >> 24) as u8);
    sink.push((u >> 16) as u8);
    sink.push((u >> 8) as u8);
    sink.push(u as u8);
    proof {
        assert(sink@ =~= old(sink)@ + spec_i64_bytes(v));
    }
}

// ---------------------------------------------------------------------------
// Executable readers
// ---------------------------------------------------------------------------

pub fn read_i8(src: &Vec<u8>, pos: &mut usize) -> (r: Result<i8, Error>)
    ensures
        (match spec_parse_i8(src@, *old(pos) as int) {
            Ok((x, p)) => r == Ok::<i8, Error>(x) && *final(pos) as int == p,
            Err(e) => r == Err::<i8, Error>(e) && *final(pos) == *old(pos),
        }),
{
    if src.len() >= 1 && *pos <= src.len() - 1 {
        let b0 = src[*pos];
        *pos = *pos + 1;
        Ok(b0 as i8)
    } else {
        Err(Error::TruncatedInput)
    }
}

pub fn read_i16_be(src: &Vec<u8>, pos: &mut usize) -> (r: Result<i16, Error>)
    ensures
        (match spec_parse_i16(src@, *old(pos) as int) {
            Ok((x, p)) => r == Ok::<i16, Error>(x) && *final(pos) as int == p,
            Err(e) => r == Err::<i16, Error>(e) && *final(pos) == *old(pos),
        }),
{
    if src.len() >= 2 && *pos <= src.len() - 2 {
        let p = *pos;
        let b0 = src[p];
        let b1 = src[p + 1];
        *pos = p + 2;
        Ok((((b0 as u16) << 8) | (b1 as u16)) as i16)
    } else {
        Err(Error::TruncatedInput)
    }
}

pub fn read_i32_be(src: &Vec<u8>, pos: &mut usize) -> (r: Result<i32, Error>)
    ensures
        (match spec_parse_i32(src@, *old(pos) as int) {
            Ok((x, p)) => r == Ok::<i32, Error>(x) && *final(pos) as int == p,
            Err(e) => r == Err::<i32, Error>(e) && *final(pos) == *old(pos),
        }),
{
    if src.len() >= 4 && *pos <= src.len() - 4 {
        let p = *pos;
        let b0 = src[p];
        let b1 = src[p + 1];
        let b2 = src[p + 2];
        let b3 = src[p + 3];
        *pos = p + 4;
        Ok((((b0 as u32) << 24) | ((b1 as u32) << 16) | ((b2 as u32) << 8) | (b3 as u32)) as i32)
    } else {
        Err(Error::TruncatedInput)
    }
}

pub fn read_i64_be(src: &Vec<u8>, pos: &mut usize) -> (r: Result<i64, Error>)
    ensures
        (match spec_parse_i64(src@, *old(pos) as int) {
            Ok((x, p)) => r == Ok::<i64, Error>(x) && *final(pos) as int == p,
            Err(e) => r == Err::<i64, Error>(e) && *final(pos) == *old(pos),
        }),
{
    if src.len() >= 8 && *pos <= src.len() - 8 {
        let p = *pos;
        let b0 = src[p];
        let b1 = src[p + 1];
        let b2 = src[p + 2];
        let b3 = src[p + 3];
        let b4 = src[p + 4];
        let b5 = src[p + 5];
        let b6 = src[p + 6];
        let b7 = src[p + 7];
        *pos = p + 8;
        Ok(
            (((b0 as u64) << 56) | ((b1 as u64) << 48) | ((b2 as u64) << 40) | ((b3 as u64) << 32)
                | ((b4 as u64) << 24) | ((b5 as u64) << 16) | ((b6 as u64) << 8) | (
            b7 as u64)) as i64,
        )
    } else {
        Err(Error::TruncatedInput)
    }
}

} // verus!
