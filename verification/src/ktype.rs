//! The atomic value model: one variant per protocol scalar kind, each holding
//! the plain value the wire carries. Temporal kinds hold their offsets from the
//! protocol's epochs as integers (dates as days from the common era, instants as
//! nanoseconds since the Unix epoch); the two floating-point kinds hold their
//! IEEE 754 bit patterns; text kinds hold their UTF-8 bytes.
use vstd::prelude::*;

verus! {

use crate::intbytes::{
    le2_bytes,
    le4_bytes,
    le8_bytes,
    ule4_bytes,
    ule8_bytes,
    le2_val,
    le4_val,
    le8_val,
    ule4_val,
    ule8_val,
    push_i16_le,
    push_i32_le,
    push_i64_le,
    push_u32_le,
    read_i16_le,
    read_i32_le,
    read_i64_le,
    read_u32_le,
    read_u64_le,
    lemma_vec_len_bound,
};
use vstd::wrapping::{i32_specs, i64_specs};

/// Nanoseconds from the Unix epoch to the protocol's day zero, 2000-01-01.
pub const EPOCH_OFFSET_NANOS: i64 = 946_684_800_000_000_000;

/// Days from the common era to 2000-01-01.
pub const EPOCH_OFFSET_DAYS: i32 = 730_119;

pub const NANOS_PER_SECOND: i64 = 1_000_000_000;

pub const NANOS_PER_MINUTE: i64 = 60_000_000_000;

#[derive(Debug, Clone, PartialEq)]
pub enum KType {
    Boolean(bool),
    Guid(Vec<u8>),
    Byte(u8),
    Short(i16),
    Int(i32),
    Long(i64),
    Real(u32),
    Float(u64),
    Char(u8),
    String(Vec<u8>),
    Symbol(Vec<u8>),
    Timestamp(i64),
    Month(i32),
    Date(i32),
    Datetime(i64),
    Timespan(i64),
    Minute(i32),
    Second(i32),
    Time(i32),
    Unary(u8),
    Operator(u8),
}

/// The mathematical model of a scalar: the same variants over `Seq<u8>`.
pub enum KTypeV {
    Boolean(bool),
    Guid(Seq<u8>),
    Byte(u8),
    Short(i16),
    Int(i32),
    Long(i64),
    Real(u32),
    Float(u64),
    Char(u8),
    String(Seq<u8>),
    Symbol(Seq<u8>),
    Timestamp(i64),
    Month(i32),
    Date(i32),
    Datetime(i64),
    Timespan(i64),
    Minute(i32),
    Second(i32),
    Time(i32),
    Unary(u8),
    Operator(u8),
}

impl View for KType {
    type V = KTypeV;

    open spec fn view(&self) -> KTypeV {
        match self {
            KType::Boolean(x) => KTypeV::Boolean(*x),
            KType::Guid(x) => KTypeV::Guid(x@),
            KType::Byte(x) => KTypeV::Byte(*x),
            KType::Short(x) => KTypeV::Short(*x),
            KType::Int(x) => KTypeV::Int(*x),
            KType::Long(x) => KTypeV::Long(*x),
            KType::Real(x) => KTypeV::Real(*x),
            KType::Float(x) => KTypeV::Float(*x),
            KType::Char(x) => KTypeV::Char(*x),
            KType::String(x) => KTypeV::String(x@),
            KType::Symbol(x) => KTypeV::Symbol(x@),
            KType::Timestamp(x) => KTypeV::Timestamp(*x),
            KType::Month(x) => KTypeV::Month(*x),
            KType::Date(x) => KTypeV::Date(*x),
            KType::Datetime(x) => KTypeV::Datetime(*x),
            KType::Timespan(x) => KTypeV::Timespan(*x),
            KType::Minute(x) => KTypeV::Minute(*x),
            KType::Second(x) => KTypeV::Second(*x),
            KType::Time(x) => KTypeV::Time(*x),
            KType::Unary(x) => KTypeV::Unary(*x),
            KType::Operator(x) => KTypeV::Operator(*x),
        }
    }
}

/// The protocol type code of an atom of this kind. Character atoms share the
/// magnitude of the string code: -10 is a character, +10 a string.
pub open spec fn scalar_code(k: KTypeV) -> i8 {
    match k {
        KTypeV::Boolean(_) => -1i8,
        KTypeV::Guid(_) => -2i8,
        KTypeV::Byte(_) => -4i8,
        KTypeV::Short(_) => -5i8,
        KTypeV::Int(_) => -6i8,
        KTypeV::Long(_) => -7i8,
        KTypeV::Real(_) => -8i8,
        KTypeV::Float(_) => -9i8,
        KTypeV::Char(_) => -10i8,
        KTypeV::String(_) => 10i8,
        KTypeV::Symbol(_) => -11i8,
        KTypeV::Timestamp(_) => -12i8,
        KTypeV::Month(_) => -13i8,
        KTypeV::Date(_) => -14i8,
        KTypeV::Datetime(_) => -15i8,
        KTypeV::Timespan(_) => -16i8,
        KTypeV::Minute(_) => -17i8,
        KTypeV::Second(_) => -18i8,
        KTypeV::Time(_) => -19i8,
        KTypeV::Unary(_) => 101i8,
        KTypeV::Operator(_) => 102i8,
    }
}

/// Structural validity of a scalar: a GUID is 16 bytes, a symbol holds no NUL
/// (the wire terminates it with one), and a string fits the signed 32-bit
/// length field the wire carries.
pub open spec fn scalar_wf(k: KTypeV) -> bool {
    match k {
        KTypeV::Guid(bs) => bs.len() == 16,
        KTypeV::Symbol(bs) => forall|i: int| 0 <= i < bs.len() ==> bs[i] != 0,
        KTypeV::String(bs) => bs.len() <= 0x7fff_ffff,
        _ => true,
    }
}

/// The payload bytes of an atom, exactly as the encoder lays them out.
pub open spec fn atom_bytes(k: KTypeV) -> Seq<u8> {
    match k {
        KTypeV::Boolean(b) => seq![if b { 1u8 } else { 0u8 }],
        KTypeV::Guid(bs) => bs,
        KTypeV::Byte(x) => seq![x],
        KTypeV::Short(x) => le2_bytes(x),
        KTypeV::Int(x) => le4_bytes(x),
        KTypeV::Long(x) => le8_bytes(x),
        KTypeV::Real(x) => ule4_bytes(x),
        KTypeV::Float(x) => ule8_bytes(x),
        KTypeV::Char(x) => seq![x],
        KTypeV::String(bs) => seq![0u8] + ule4_bytes(bs.len() as u32) + bs,
        KTypeV::Symbol(bs) => bs + seq![0u8],
        KTypeV::Timestamp(n) => le8_bytes(i64_specs::wrapping_sub(n, EPOCH_OFFSET_NANOS)),
        KTypeV::Month(d) => le4_bytes(i32_specs::wrapping_sub(d, EPOCH_OFFSET_DAYS)),
        KTypeV::Date(d) => le4_bytes(i32_specs::wrapping_sub(d, EPOCH_OFFSET_DAYS)),
        KTypeV::Datetime(n) => le8_bytes(i64_specs::wrapping_sub(n, EPOCH_OFFSET_NANOS)),
        KTypeV::Timespan(n) => le8_bytes(i64_specs::wrapping_sub(n, EPOCH_OFFSET_NANOS)),
        KTypeV::Minute(m) => le8_bytes(
            i64_specs::wrapping_sub(
                i64_specs::wrapping_mul(m as i64, NANOS_PER_MINUTE),
                EPOCH_OFFSET_NANOS,
            ),
        ),
        KTypeV::Second(sv) => le8_bytes(
            i64_specs::wrapping_sub(
                i64_specs::wrapping_mul(sv as i64, NANOS_PER_SECOND),
                EPOCH_OFFSET_NANOS,
            ),
        ),
        KTypeV::Time(t) => le4_bytes(t),
        KTypeV::Unary(x) => seq![x],
        KTypeV::Operator(x) => seq![x],
    }
}

/// How many payload bytes the decoder consumes for an atom of this kind;
/// strings and symbols frame themselves and have no fixed width.
pub open spec fn atom_fixed_width(k: KTypeV) -> int {
    match k {
        KTypeV::Boolean(_) => 1,
        KTypeV::Guid(_) => 16,
        KTypeV::Byte(_) => 1,
        KTypeV::Short(_) => 2,
        KTypeV::Int(_) => 4,
        KTypeV::Long(_) => 8,
        KTypeV::Real(_) => 4,
        KTypeV::Float(_) => 8,
        KTypeV::Char(_) => 1,
        KTypeV::String(_) => 0,
        KTypeV::Symbol(_) => 0,
        KTypeV::Timestamp(_) => 8,
        KTypeV::Month(_) => 4,
        KTypeV::Date(_) => 4,
        KTypeV::Datetime(_) => 8,
        KTypeV::Timespan(_) => 8,
        KTypeV::Minute(_) => 4,
        KTypeV::Second(_) => 4,
        KTypeV::Time(_) => 4,
        KTypeV::Unary(_) => 1,
        KTypeV::Operator(_) => 1,
    }
}

/// What a payload window of the right width decodes to, per kind. A month on
/// the wire comes back as a date, thirty days to the month from the epoch:
/// that is the protocol's own asymmetry, kept as it stands.
pub open spec fn atom_from_window(tag: KTypeV, w: Seq<u8>) -> KTypeV {
    match tag {
        KTypeV::Boolean(_) => KTypeV::Boolean(w[0] == 1),
        KTypeV::Guid(_) => KTypeV::Guid(w),
        KTypeV::Byte(_) => KTypeV::Byte(w[0]),
        KTypeV::Short(_) => KTypeV::Short(le2_val(w, 0)),
        KTypeV::Int(_) => KTypeV::Int(le4_val(w, 0)),
        KTypeV::Long(_) => KTypeV::Long(le8_val(w, 0)),
        KTypeV::Real(_) => KTypeV::Real(ule4_val(w, 0)),
        KTypeV::Float(_) => KTypeV::Float(ule8_val(w, 0)),
        KTypeV::Char(_) => KTypeV::Char(w[0]),
        KTypeV::String(_) => KTypeV::String(w),
        KTypeV::Symbol(_) => KTypeV::Symbol(w),
        KTypeV::Timestamp(_) => KTypeV::Timestamp(
            i64_specs::wrapping_add(le8_val(w, 0), EPOCH_OFFSET_NANOS),
        ),
        KTypeV::Month(_) => KTypeV::Date(
            i32_specs::wrapping_add(i32_specs::wrapping_mul(le4_val(w, 0), 30), EPOCH_OFFSET_DAYS),
        ),
        KTypeV::Date(_) => KTypeV::Date(i32_specs::wrapping_add(le4_val(w, 0), EPOCH_OFFSET_DAYS)),
        KTypeV::Datetime(_) => KTypeV::Datetime(
            i64_specs::wrapping_add(le8_val(w, 0), EPOCH_OFFSET_NANOS),
        ),
        KTypeV::Timespan(_) => KTypeV::Timespan(le8_val(w, 0)),
        KTypeV::Minute(_) => KTypeV::Minute(le4_val(w, 0)),
        KTypeV::Second(_) => KTypeV::Second(le4_val(w, 0)),
        KTypeV::Time(_) => KTypeV::Time(le4_val(w, 0)),
        KTypeV::Unary(_) => KTypeV::Unary(w[0]),
        KTypeV::Operator(_) => KTypeV::Operator(w[0]),
    }
}

impl KType {
    /// The protocol type code of this atom.
    pub fn type_as_code(&self) -> (r: i8)
        ensures
            r == scalar_code(self@),
    {
        match self {
            KType::Boolean(_) => -1,
            KType::Guid(_) => -2,
            KType::Byte(_) => -4,
            KType::Short(_) => -5,
            KType::Int(_) => -6,
            KType::Long(_) => -7,
            KType::Real(_) => -8,
            KType::Float(_) => -9,
            KType::Char(_) => -10,
            KType::String(_) => 10,
            KType::Symbol(_) => -11,
            KType::Timestamp(_) => -12,
            KType::Month(_) => -13,
            KType::Date(_) => -14,
            KType::Datetime(_) => -15,
            KType::Timespan(_) => -16,
            KType::Minute(_) => -17,
            KType::Second(_) => -18,
            KType::Time(_) => -19,
            KType::Unary(_) => 101,
            KType::Operator(_) => 102,
        }
    }

    /// Encode this atom's payload bytes.
    pub fn serialize(&self) -> (r: Vec<u8>)
        requires
            scalar_wf(self@),
        ensures
            r@ == atom_bytes(self@),
    {
        let mut out: Vec<u8> = Vec::new();
        match self {
            KType::Boolean(b) => {
                out.push(if *b {
                    1
                } else {
                    0
                });
                assert(out@ =~= atom_bytes(self@));
            },
            KType::Guid(bs) => {
                let mut payload = crate::intbytes::copy_range(bs, 0, bs.len());
                out.append(&mut payload);
                assert(out@ =~= atom_bytes(self@));
            },
            KType::Byte(x) => {
                out.push(*x);
                assert(out@ =~= atom_bytes(self@));
            },
            KType::Short(x) => {
                push_i16_le(&mut out, *x);
                assert(out@ =~= atom_bytes(self@));
            },
            KType::Int(x) => {
                push_i32_le(&mut out, *x);
                assert(out@ =~= atom_bytes(self@));
            },
            KType::Long(x) => {
                push_i64_le(&mut out, *x);
                assert(out@ =~= atom_bytes(self@));
            },
            KType::Real(x) => {
                push_u32_le(&mut out, *x);
                assert(out@ =~= atom_bytes(self@));
            },
            KType::Float(x) => {
                let mut bs = vstd::bytes::u64_to_le_bytes(*x);
                out.append(&mut bs);
                assert(out@ =~= atom_bytes(self@));
            },
            KType::Char(x) => {
                out.push(*x);
                assert(out@ =~= atom_bytes(self@));
            },
            KType::String(bs) => {
                proof {
                    lemma_vec_len_bound(bs);
                }
                out.push(0);
                push_u32_le(&mut out, bs.len() as u32);
                let mut payload = crate::intbytes::copy_range(bs, 0, bs.len());
                out.append(&mut payload);
                assert(out@ =~= atom_bytes(self@));
            },
            KType::Symbol(bs) => {
                let mut payload = crate::intbytes::copy_range(bs, 0, bs.len());
                out.append(&mut payload);
                out.push(0);
                assert(out@ =~= atom_bytes(self@));
            },
            KType::Timestamp(n) => {
                push_i64_le(&mut out, n.wrapping_sub(EPOCH_OFFSET_NANOS));
                assert(out@ =~= atom_bytes(self@));
            },
            KType::Month(d) => {
                push_i32_le(&mut out, d.wrapping_sub(EPOCH_OFFSET_DAYS));
                assert(out@ =~= atom_bytes(self@));
            },
            KType::Date(d) => {
                push_i32_le(&mut out, d.wrapping_sub(EPOCH_OFFSET_DAYS));
                assert(out@ =~= atom_bytes(self@));
            },
            KType::Datetime(n) => {
                push_i64_le(&mut out, n.wrapping_sub(EPOCH_OFFSET_NANOS));
                assert(out@ =~= atom_bytes(self@));
            },
            KType::Timespan(n) => {
                push_i64_le(&mut out, n.wrapping_sub(EPOCH_OFFSET_NANOS));
                assert(out@ =~= atom_bytes(self@));
            },
            KType::Minute(m) => {
                push_i64_le(
                    &mut out,
                    (*m as i64).wrapping_mul(NANOS_PER_MINUTE).wrapping_sub(EPOCH_OFFSET_NANOS),
                );
                assert(out@ =~= atom_bytes(self@));
            },
            KType::Second(sv) => {
                push_i64_le(
                    &mut out,
                    (*sv as i64).wrapping_mul(NANOS_PER_SECOND).wrapping_sub(EPOCH_OFFSET_NANOS),
                );
                assert(out@ =~= atom_bytes(self@));
            },
            KType::Time(t) => {
                push_i32_le(&mut out, *t);
                assert(out@ =~= atom_bytes(self@));
            },
            KType::Unary(x) => {
                out.push(*x);
                assert(out@ =~= atom_bytes(self@));
            },
            KType::Operator(x) => {
                out.push(*x);
                assert(out@ =~= atom_bytes(self@));
            },
        }
        out
    }

    /// Decode a payload window of exactly the width this kind's atoms occupy
    /// (for a string or symbol, the already unframed text bytes).
    pub fn deserialize(&self, data: &Vec<u8>) -> (r: KType)
        requires
            data@.len() == match self@ {
                KTypeV::String(_) | KTypeV::Symbol(_) => data@.len() as int,
                k => atom_fixed_width(k),
            },
        ensures
            r@ == atom_from_window(self@, data@),
    {
        proof {
            assert(data@.subrange(0, data@.len() as int) =~= data@);
        }
        match self {
            KType::Boolean(_) => KType::Boolean(data[0] == 1),
            KType::Guid(_) => KType::Guid(crate::intbytes::copy_range(data, 0, data.len())),
            KType::Byte(_) => KType::Byte(data[0]),
            KType::Short(_) => KType::Short(read_i16_le(data, 0)),
            KType::Int(_) => KType::Int(read_i32_le(data, 0)),
            KType::Long(_) => KType::Long(read_i64_le(data, 0)),
            KType::Real(_) => KType::Real(read_u32_le(data, 0)),
            KType::Float(_) => KType::Float(read_u64_le(data, 0)),
            KType::Char(_) => KType::Char(data[0]),
            KType::String(_) => KType::String(crate::intbytes::copy_range(data, 0, data.len())),
            KType::Symbol(_) => KType::Symbol(crate::intbytes::copy_range(data, 0, data.len())),
            KType::Timestamp(_) => KType::Timestamp(
                read_i64_le(data, 0).wrapping_add(EPOCH_OFFSET_NANOS),
            ),
            KType::Month(_) => KType::Date(
                read_i32_le(data, 0).wrapping_mul(30).wrapping_add(EPOCH_OFFSET_DAYS),
            ),
            KType::Date(_) => KType::Date(read_i32_le(data, 0).wrapping_add(EPOCH_OFFSET_DAYS)),
            KType::Datetime(_) => KType::Datetime(
                read_i64_le(data, 0).wrapping_add(EPOCH_OFFSET_NANOS),
            ),
            KType::Timespan(_) => KType::Timespan(read_i64_le(data, 0)),
            KType::Minute(_) => KType::Minute(read_i32_le(data, 0)),
            KType::Second(_) => KType::Second(read_i32_le(data, 0)),
            KType::Time(_) => KType::Time(read_i32_le(data, 0)),
            KType::Unary(_) => KType::Unary(data[0]),
            KType::Operator(_) => KType::Operator(data[0]),
        }
    }
}

} // verus!
