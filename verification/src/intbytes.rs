//! Little-endian (and, for the envelope length, big-endian) encodings of the
//! fixed-width integers the wire format uses, together with the two's-complement
//! correspondence between signed and unsigned values of the same width.
use vstd::prelude::*;

verus! {

broadcast use vstd::std_specs::vec::group_vec_axioms;

use vstd::bytes::{
    spec_u16_to_le_bytes,
    spec_u16_from_le_bytes,
    spec_u32_to_le_bytes,
    spec_u32_from_le_bytes,
    spec_u64_to_le_bytes,
    spec_u64_from_le_bytes,
    lemma_auto_spec_u16_to_from_le_bytes,
    lemma_auto_spec_u32_to_from_le_bytes,
    lemma_auto_spec_u64_to_from_le_bytes,
    u16_from_le_bytes,
    u32_from_le_bytes,
    u64_from_le_bytes,
    u16_to_le_bytes,
    u32_to_le_bytes,
    u64_to_le_bytes,
};
use vstd::slice::{slice_subrange, slice_to_vec};

// Two's-complement views of signed values, and back.
pub open spec fn i16_as_u16(x: i16) -> u16 {
    if x >= 0 {
        x as u16
    } else {
        (x + 0x1_0000) as u16
    }
}

pub open spec fn u16_as_i16(x: u16) -> i16 {
    if x < 0x8000 {
        x as i16
    } else {
        (x - 0x1_0000) as i16
    }
}

pub open spec fn i32_as_u32(x: i32) -> u32 {
    if x >= 0 {
        x as u32
    } else {
        (x + 0x1_0000_0000) as u32
    }
}

pub open spec fn u32_as_i32(x: u32) -> i32 {
    if x < 0x8000_0000 {
        x as i32
    } else {
        (x - 0x1_0000_0000) as i32
    }
}

pub open spec fn i64_as_u64(x: i64) -> u64 {
    if x >= 0 {
        x as u64
    } else {
        (x + 0x1_0000_0000_0000_0000) as u64
    }
}

pub open spec fn u64_as_i64(x: u64) -> i64 {
    if x < 0x8000_0000_0000_0000 {
        x as i64
    } else {
        (x - 0x1_0000_0000_0000_0000) as i64
    }
}

// Byte layouts of the signed widths.
pub open spec fn le2_bytes(x: i16) -> Seq<u8> {
    spec_u16_to_le_bytes(i16_as_u16(x))
}

pub open spec fn le4_bytes(x: i32) -> Seq<u8> {
    spec_u32_to_le_bytes(i32_as_u32(x))
}

pub open spec fn le8_bytes(x: i64) -> Seq<u8> {
    spec_u64_to_le_bytes(i64_as_u64(x))
}

pub open spec fn ule4_bytes(x: u32) -> Seq<u8> {
    spec_u32_to_le_bytes(x)
}

pub open spec fn ule8_bytes(x: u64) -> Seq<u8> {
    spec_u64_to_le_bytes(x)
}

// Values read back out of a byte window.
pub open spec fn le2_val(s: Seq<u8>, pos: int) -> i16 {
    u16_as_i16(spec_u16_from_le_bytes(s.subrange(pos, pos + 2)))
}

pub open spec fn le4_val(s: Seq<u8>, pos: int) -> i32 {
    u32_as_i32(spec_u32_from_le_bytes(s.subrange(pos, pos + 4)))
}

pub open spec fn le8_val(s: Seq<u8>, pos: int) -> i64 {
    u64_as_i64(spec_u64_from_le_bytes(s.subrange(pos, pos + 8)))
}

pub open spec fn ule4_val(s: Seq<u8>, pos: int) -> u32 {
    spec_u32_from_le_bytes(s.subrange(pos, pos + 4))
}

pub open spec fn ule8_val(s: Seq<u8>, pos: int) -> u64 {
    spec_u64_from_le_bytes(s.subrange(pos, pos + 8))
}

/// The envelope length when the peer flags big-endian framing.
pub open spec fn ube4_val(s: Seq<u8>, pos: int) -> u32 {
    (((s[pos] as int) * 0x100_0000) + ((s[pos + 1] as int) * 0x1_0000) + ((s[pos + 2] as int)
        * 0x100) + (s[pos + 3] as int)) as u32
}

/// `bs` appears in `s` starting at `pos`.
pub open spec fn bytes_at(s: Seq<u8>, pos: int, bs: Seq<u8>) -> bool {
    &&& 0 <= pos
    &&& pos + bs.len() <= s.len()
    &&& forall|j: int| 0 <= j < bs.len() ==> s[pos + j] == bs[j]
}

pub proof fn lemma_bytes_at_concat(s: Seq<u8>, pos: int, a: Seq<u8>, b: Seq<u8>)
    requires
        bytes_at(s, pos, a + b),
    ensures
        bytes_at(s, pos, a),
        bytes_at(s, pos + a.len(), b),
{
    assert forall|j: int| 0 <= j < a.len() implies s[pos + j] == a[j] by {
        assert((a + b)[j] == a[j]);
    }
    assert forall|j: int| 0 <= j < b.len() implies s[pos + a.len() + j] == b[j] by {
        assert((a + b)[a.len() + j] == b[j]);
    }
}

pub proof fn lemma_bytes_at_index(s: Seq<u8>, pos: int, bs: Seq<u8>, j: int)
    requires
        bytes_at(s, pos, bs),
        0 <= j < bs.len(),
    ensures
        s[pos + j] == bs[j],
{
}

pub proof fn lemma_bytes_at_subrange(s: Seq<u8>, pos: int, bs: Seq<u8>)
    requires
        bytes_at(s, pos, bs),
    ensures
        s.subrange(pos, pos + bs.len()) == bs,
{
    assert(s.subrange(pos, pos + bs.len()) =~= bs);
}

// Round trips between the signed byte layouts and the values read back.
pub proof fn lemma_le2_rt(x: i16)
    ensures
        le2_bytes(x).len() == 2,
        forall|s: Seq<u8>, pos: int|
            bytes_at(s, pos, le2_bytes(x)) ==> #[trigger] le2_val(s, pos) == x,
{
    lemma_auto_spec_u16_to_from_le_bytes();
    assert forall|s: Seq<u8>, pos: int| bytes_at(s, pos, le2_bytes(x)) implies #[trigger] le2_val(
        s,
        pos,
    ) == x by {
        lemma_bytes_at_subrange(s, pos, le2_bytes(x));
    }
}

pub proof fn lemma_le4_rt(x: i32)
    ensures
        le4_bytes(x).len() == 4,
        forall|s: Seq<u8>, pos: int|
            bytes_at(s, pos, le4_bytes(x)) ==> #[trigger] le4_val(s, pos) == x,
{
    lemma_auto_spec_u32_to_from_le_bytes();
    assert forall|s: Seq<u8>, pos: int| bytes_at(s, pos, le4_bytes(x)) implies #[trigger] le4_val(
        s,
        pos,
    ) == x by {
        lemma_bytes_at_subrange(s, pos, le4_bytes(x));
    }
}

pub proof fn lemma_le8_rt(x: i64)
    ensures
        le8_bytes(x).len() == 8,
        forall|s: Seq<u8>, pos: int|
            bytes_at(s, pos, le8_bytes(x)) ==> #[trigger] le8_val(s, pos) == x,
{
    lemma_auto_spec_u64_to_from_le_bytes();
    assert forall|s: Seq<u8>, pos: int| bytes_at(s, pos, le8_bytes(x)) implies #[trigger] le8_val(
        s,
        pos,
    ) == x by {
        lemma_bytes_at_subrange(s, pos, le8_bytes(x));
    }
}

pub proof fn lemma_ule4_rt(x: u32)
    ensures
        ule4_bytes(x).len() == 4,
        forall|s: Seq<u8>, pos: int|
            bytes_at(s, pos, ule4_bytes(x)) ==> #[trigger] ule4_val(s, pos) == x,
{
    lemma_auto_spec_u32_to_from_le_bytes();
    assert forall|s: Seq<u8>, pos: int| bytes_at(s, pos, ule4_bytes(x)) implies #[trigger] ule4_val(
        s,
        pos,
    ) == x by {
        lemma_bytes_at_subrange(s, pos, ule4_bytes(x));
    }
}

// Exec conversions between same-width signed and unsigned values.
pub fn i16_to_u16(x: i16) -> (r: u16)
    ensures
        r == i16_as_u16(x),
{
    if x >= 0 {
        x as u16
    } else {
        ((x - i16::MIN) as u16) + 0x8000
    }
}

pub fn u16_to_i16(x: u16) -> (r: i16)
    ensures
        r == u16_as_i16(x),
{
    if x < 0x8000 {
        x as i16
    } else {
        ((x - 0x8000) as i16) + i16::MIN
    }
}

pub fn i32_to_u32(x: i32) -> (r: u32)
    ensures
        r == i32_as_u32(x),
{
    if x >= 0 {
        x as u32
    } else {
        ((x - i32::MIN) as u32) + 0x8000_0000
    }
}

pub fn u32_to_i32(x: u32) -> (r: i32)
    ensures
        r == u32_as_i32(x),
{
    if x < 0x8000_0000 {
        x as i32
    } else {
        ((x - 0x8000_0000) as i32) + i32::MIN
    }
}

pub fn i64_to_u64(x: i64) -> (r: u64)
    ensures
        r == i64_as_u64(x),
{
    if x >= 0 {
        x as u64
    } else {
        ((x - i64::MIN) as u64) + 0x8000_0000_0000_0000
    }
}

pub fn u64_to_i64(x: u64) -> (r: i64)
    ensures
        r == u64_as_i64(x),
{
    if x < 0x8000_0000_0000_0000 {
        x as i64
    } else {
        ((x - 0x8000_0000_0000_0000) as i64) + i64::MIN
    }
}

// Exec writers: append an encoded integer to a byte buffer.
pub fn push_u32_le(out: &mut Vec<u8>, x: u32)
    ensures
        final(out)@ == old(out)@ + ule4_bytes(x),
{
    let mut bs = u32_to_le_bytes(x);
    out.append(&mut bs);
}

pub fn push_i16_le(out: &mut Vec<u8>, x: i16)
    ensures
        final(out)@ == old(out)@ + le2_bytes(x),
{
    let mut bs = u16_to_le_bytes(i16_to_u16(x));
    out.append(&mut bs);
}

pub fn push_i32_le(out: &mut Vec<u8>, x: i32)
    ensures
        final(out)@ == old(out)@ + le4_bytes(x),
{
    let mut bs = u32_to_le_bytes(i32_to_u32(x));
    out.append(&mut bs);
}

pub fn push_i64_le(out: &mut Vec<u8>, x: i64)
    ensures
        final(out)@ == old(out)@ + le8_bytes(x),
{
    let mut bs = u64_to_le_bytes(i64_to_u64(x));
    out.append(&mut bs);
}

/// A vector never holds more than `usize::MAX` bytes.
pub proof fn lemma_vec_len_bound(v: &Vec<u8>)
    ensures
        v@.len() <= usize::MAX,
{
    vstd::std_specs::vec::axiom_spec_len(v);
}

// Exec readers: decode an integer out of a byte buffer window.
pub fn read_u32_le(bytes: &Vec<u8>, pos: usize) -> (r: u32)
    requires
        pos + 4 <= bytes@.len(),
    ensures
        r == ule4_val(bytes@, pos as int),
{
    proof {
        lemma_vec_len_bound(bytes);
    }
    u32_from_le_bytes(slice_subrange(bytes.as_slice(), pos, pos + 4))
}

pub fn read_u64_le(bytes: &Vec<u8>, pos: usize) -> (r: u64)
    requires
        pos + 8 <= bytes@.len(),
    ensures
        r == ule8_val(bytes@, pos as int),
{
    proof {
        lemma_vec_len_bound(bytes);
    }
    u64_from_le_bytes(slice_subrange(bytes.as_slice(), pos, pos + 8))
}

pub fn read_i16_le(bytes: &Vec<u8>, pos: usize) -> (r: i16)
    requires
        pos + 2 <= bytes@.len(),
    ensures
        r == le2_val(bytes@, pos as int),
{
    proof {
        lemma_vec_len_bound(bytes);
    }
    u16_to_i16(u16_from_le_bytes(slice_subrange(bytes.as_slice(), pos, pos + 2)))
}

pub fn read_i32_le(bytes: &Vec<u8>, pos: usize) -> (r: i32)
    requires
        pos + 4 <= bytes@.len(),
    ensures
        r == le4_val(bytes@, pos as int),
{
    u32_to_i32(read_u32_le(bytes, pos))
}

pub fn read_i64_le(bytes: &Vec<u8>, pos: usize) -> (r: i64)
    requires
        pos + 8 <= bytes@.len(),
    ensures
        r == le8_val(bytes@, pos as int),
{
    u64_to_i64(read_u64_le(bytes, pos))
}

pub fn read_u32_be(bytes: &Vec<u8>, pos: usize) -> (r: u32)
    requires
        pos + 4 <= bytes@.len(),
    ensures
        r == ube4_val(bytes@, pos as int),
{
    proof {
        lemma_vec_len_bound(bytes);
    }
    let b0 = bytes[pos] as u32;
    let b1 = bytes[pos + 1] as u32;
    let b2 = bytes[pos + 2] as u32;
    let b3 = bytes[pos + 3] as u32;
    b0 * 0x100_0000 + b1 * 0x1_0000 + b2 * 0x100 + b3
}

/// Copy a window of the buffer out as a fresh vector.
pub fn copy_range(bytes: &Vec<u8>, pos: usize, len: usize) -> (r: Vec<u8>)
    requires
        pos + len <= bytes@.len(),
    ensures
        r@ == bytes@.subrange(pos as int, pos + len),
{
    proof {
        lemma_vec_len_bound(bytes);
    }
    slice_to_vec(slice_subrange(bytes.as_slice(), pos, pos + len))
}

} // verus!
