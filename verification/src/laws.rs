//! The codec's laws: what decoding gives back of what the encoder laid out,
//! how the envelope's length field relates to the payload, and how many bytes
//! a vector decode consumes.
use vstd::prelude::*;

verus! {

broadcast use vstd::seq::axiom_seq_index_decreases;

use crate::ktype::{KTypeV, scalar_code, scalar_wf, atom_bytes, atom_fixed_width, atom_from_window};
use crate::kobj::{KObjV, default_obj, obj_code, obj_bytes, code_to_byte, byte_to_code,
    list_bytes, glist_bytes};
use crate::wire::{sym_scan, dec_atom, dec_data, dec_uniform, dec_generic, frame_bytes};
use crate::intbytes::{bytes_at, lemma_bytes_at_concat, lemma_bytes_at_index,
    lemma_bytes_at_subrange, lemma_le2_rt,
    lemma_le4_rt, lemma_le8_rt, lemma_ule4_rt, le2_bytes, le4_bytes, le8_bytes, ule4_bytes,
    ule8_bytes, ule4_val};
use vstd::wrapping::{i32_specs, i64_specs};

/// Wrapping subtraction of a constant is undone by wrapping addition of it.
pub proof fn lemma_wrap_inverse_i64(x: i64, c: i64)
    ensures
        i64_specs::wrapping_add(i64_specs::wrapping_sub(x, c), c) == x,
{
}

/// Wrapping subtraction of a constant is undone by wrapping addition of it.
pub proof fn lemma_wrap_inverse_i32(x: i32, c: i32)
    ensures
        i32_specs::wrapping_add(i32_specs::wrapping_sub(x, c), c) == x,
{
}

/// A type byte carries its signed code faithfully.
pub proof fn lemma_code_byte_rt(c: i8)
    ensures
        byte_to_code(code_to_byte(c)) == c,
{
}

/// How long each atom's payload is on the wire.
pub proof fn lemma_atom_bytes_len(k: KTypeV)
    requires
        scalar_wf(k),
    ensures
        atom_bytes(k).len() == match k {
            KTypeV::String(bs) => 5 + bs.len() as int,
            KTypeV::Symbol(bs) => bs.len() + 1 as int,
            KTypeV::Minute(_) => 8int,
            KTypeV::Second(_) => 8int,
            kk => atom_fixed_width(kk),
        },
        atom_bytes(k).len() >= 1,
{
    vstd::bytes::lemma_auto_spec_u16_to_from_le_bytes();
    vstd::bytes::lemma_auto_spec_u32_to_from_le_bytes();
    vstd::bytes::lemma_auto_spec_u64_to_from_le_bytes();
    match k {
        KTypeV::Boolean(_) => {
            assert(atom_bytes(k).len() == 1);
        },
        KTypeV::Guid(bs) => {
            assert(atom_bytes(k).len() == bs.len());
        },
        KTypeV::Byte(_) => {
            assert(atom_bytes(k).len() == 1);
        },
        KTypeV::Short(_) => {
            assert(atom_bytes(k).len() == 2);
        },
        KTypeV::Int(_) => {
            assert(atom_bytes(k).len() == 4);
        },
        KTypeV::Long(_) => {
            assert(atom_bytes(k).len() == 8);
        },
        KTypeV::Real(_) => {
            assert(atom_bytes(k).len() == 4);
        },
        KTypeV::Float(_) => {
            assert(atom_bytes(k).len() == 8);
        },
        KTypeV::Char(_) => {
            assert(atom_bytes(k).len() == 1);
        },
        KTypeV::String(bs) => {
            assert(atom_bytes(k).len() == 5 + bs.len());
        },
        KTypeV::Symbol(bs) => {
            assert(atom_bytes(k).len() == bs.len() + 1);
        },
        KTypeV::Timestamp(_) => {
            assert(atom_bytes(k).len() == 8);
        },
        KTypeV::Month(_) => {
            assert(atom_bytes(k).len() == 4);
        },
        KTypeV::Date(_) => {
            assert(atom_bytes(k).len() == 4);
        },
        KTypeV::Datetime(_) => {
            assert(atom_bytes(k).len() == 8);
        },
        KTypeV::Timespan(_) => {
            assert(atom_bytes(k).len() == 8);
        },
        KTypeV::Minute(_) => {
            assert(atom_bytes(k).len() == 8);
        },
        KTypeV::Second(_) => {
            assert(atom_bytes(k).len() == 8);
        },
        KTypeV::Time(_) => {
            assert(atom_bytes(k).len() == 4);
        },
        KTypeV::Unary(_) => {
            assert(atom_bytes(k).len() == 1);
        },
        KTypeV::Operator(_) => {
            assert(atom_bytes(k).len() == 1);
        },
    }
}

/// A NUL-free run of bytes followed by a NUL scans to exactly that NUL.
pub proof fn lemma_sym_scan_exact(s: Seq<u8>, pos: int, end: int)
    requires
        0 <= pos <= end < s.len(),
        forall|i: int| pos <= i < end ==> #[trigger] s[i] != 0,
        s[end] == 0,
    ensures
        sym_scan(s, pos) == Some(end),
    decreases end - pos,
{
    if pos < end {
        lemma_sym_scan_exact(s, pos + 1, end);
    }
}

/// The scalar kinds whose wire encoding the decoder inverts exactly, on the
/// values the encoder is given. A month comes back as a date, and the three
/// kinds whose encoded width differs from their decoded width (timespan,
/// minute, second) come back changed: the protocol itself is asymmetric
/// there, and they are left out.
pub open spec fn scalar_rt(k: KTypeV) -> bool {
    &&& scalar_wf(k)
    &&& match k {
        KTypeV::Month(_) => false,
        KTypeV::Timespan(_) => false,
        KTypeV::Minute(_) => false,
        KTypeV::Second(_) => false,
        _ => true,
    }
}

/// Round trip for one atom: decoding the encoder's bytes at their position,
/// under the kind's own type code, gives back exactly the scalar that was
/// encoded, consuming exactly its bytes.
pub proof fn lemma_atom_rt(s: Seq<u8>, pos: int, k: KTypeV)
    requires
        scalar_rt(k),
        bytes_at(s, pos, atom_bytes(k)),
    ensures
        default_obj(scalar_code(k)) is Atom,
        dec_atom(s, pos, default_obj(scalar_code(k))->Atom_0) == Some(
            (k, pos + atom_bytes(k).len()),
        ),
{
    lemma_atom_bytes_len(k);
    let tag = default_obj(scalar_code(k))->Atom_0;
    match k {
        KTypeV::String(bs) => {
            let header = seq![0u8] + ule4_bytes(bs.len() as u32);
            assert(atom_bytes(k) =~= header + bs);
            lemma_bytes_at_concat(s, pos, header, bs);
            lemma_bytes_at_concat(s, pos, seq![0u8], ule4_bytes(bs.len() as u32));
            lemma_ule4_rt(bs.len() as u32);
            assert(ule4_val(s, pos + 1) == bs.len() as u32);
            lemma_bytes_at_subrange(s, pos + 5, bs);
            assert(s.subrange(pos + 5, pos + 5 + bs.len()) == bs);
            assert(atom_from_window(tag, bs) == k);
        },
        KTypeV::Symbol(bs) => {
            assert(atom_bytes(k) =~= bs + seq![0u8]);
            lemma_bytes_at_concat(s, pos, bs, seq![0u8]);
            lemma_bytes_at_index(s, pos + bs.len(), seq![0u8], 0);
            assert(s[pos + bs.len()] == 0);
            assert forall|i: int| pos <= i < pos + bs.len() implies #[trigger] s[i] != 0 by {
                lemma_bytes_at_index(s, pos, bs, i - pos);
            }
            lemma_sym_scan_exact(s, pos, pos + bs.len());
            lemma_bytes_at_subrange(s, pos, bs);
            assert(s.subrange(pos, pos + bs.len()) == bs);
            assert(atom_from_window(tag, bs) == k);
        },
        _ => {
            let w = atom_fixed_width(k);
            let window = s.subrange(pos, pos + w);
            lemma_bytes_at_subrange(s, pos, atom_bytes(k));
            assert(window == atom_bytes(k));
            match k {
                KTypeV::Boolean(b) => {
                    assert(window[0] == (if b { 1u8 } else { 0u8 }));
                    assert(dec_atom(s, pos, tag) == Some(
                        (atom_from_window(tag, window), pos + w),
                    ));
                    assert(atom_from_window(tag, window) == k);
                },
                KTypeV::Guid(bs) => {
                    assert(window == bs);
                    assert(dec_atom(s, pos, tag) == Some(
                        (atom_from_window(tag, window), pos + w),
                    ));
                    assert(atom_from_window(tag, window) == k);
                },
                KTypeV::Byte(x) => {
                    assert(window[0] == x);
                    assert(dec_atom(s, pos, tag) == Some(
                        (atom_from_window(tag, window), pos + w),
                    ));
                    assert(atom_from_window(tag, window) == k);
                },
                KTypeV::Short(x) => {
                    lemma_le2_rt(x);
                    assert(bytes_at(window, 0, le2_bytes(x)));
                    assert(dec_atom(s, pos, tag) == Some(
                        (atom_from_window(tag, window), pos + w),
                    ));
                    assert(atom_from_window(tag, window) == k);
                },
                KTypeV::Int(x) => {
                    lemma_le4_rt(x);
                    assert(bytes_at(window, 0, le4_bytes(x)));
                    assert(dec_atom(s, pos, tag) == Some(
                        (atom_from_window(tag, window), pos + w),
                    ));
                    assert(atom_from_window(tag, window) == k);
                },
                KTypeV::Long(x) => {
                    lemma_le8_rt(x);
                    assert(bytes_at(window, 0, le8_bytes(x)));
                    assert(dec_atom(s, pos, tag) == Some(
                        (atom_from_window(tag, window), pos + w),
                    ));
                    assert(atom_from_window(tag, window) == k);
                },
                KTypeV::Real(x) => {
                    vstd::bytes::lemma_auto_spec_u32_to_from_le_bytes();
                    assert(window =~= ule4_bytes(x));
                    assert(window.subrange(0, 4) =~= window);
                    assert(dec_atom(s, pos, tag) == Some(
                        (atom_from_window(tag, window), pos + w),
                    ));
                    assert(atom_from_window(tag, window) == k);
                },
                KTypeV::Float(x) => {
                    vstd::bytes::lemma_auto_spec_u64_to_from_le_bytes();
                    assert(window =~= ule8_bytes(x));
                    assert(window.subrange(0, 8) =~= window);
                    assert(dec_atom(s, pos, tag) == Some(
                        (atom_from_window(tag, window), pos + w),
                    ));
                    assert(atom_from_window(tag, window) == k);
                },
                KTypeV::Char(x) => {
                    assert(window[0] == x);
                    assert(dec_atom(s, pos, tag) == Some(
                        (atom_from_window(tag, window), pos + w),
                    ));
                    assert(atom_from_window(tag, window) == k);
                },
                KTypeV::Timestamp(n) => {
                    lemma_le8_rt(i64_specs::wrapping_sub(n, crate::ktype::EPOCH_OFFSET_NANOS));
                    assert(bytes_at(
                        window,
                        0,
                        le8_bytes(i64_specs::wrapping_sub(n, crate::ktype::EPOCH_OFFSET_NANOS)),
                    ));
                    lemma_wrap_inverse_i64(n, crate::ktype::EPOCH_OFFSET_NANOS);
                    assert(dec_atom(s, pos, tag) == Some(
                        (atom_from_window(tag, window), pos + w),
                    ));
                    assert(atom_from_window(tag, window) == k);
                },
                KTypeV::Date(d) => {
                    lemma_le4_rt(i32_specs::wrapping_sub(d, crate::ktype::EPOCH_OFFSET_DAYS));
                    assert(bytes_at(
                        window,
                        0,
                        le4_bytes(i32_specs::wrapping_sub(d, crate::ktype::EPOCH_OFFSET_DAYS)),
                    ));
                    lemma_wrap_inverse_i32(d, crate::ktype::EPOCH_OFFSET_DAYS);
                    assert(dec_atom(s, pos, tag) == Some(
                        (atom_from_window(tag, window), pos + w),
                    ));
                    assert(atom_from_window(tag, window) == k);
                },
                KTypeV::Datetime(n) => {
                    lemma_le8_rt(i64_specs::wrapping_sub(n, crate::ktype::EPOCH_OFFSET_NANOS));
                    assert(bytes_at(
                        window,
                        0,
                        le8_bytes(i64_specs::wrapping_sub(n, crate::ktype::EPOCH_OFFSET_NANOS)),
                    ));
                    lemma_wrap_inverse_i64(n, crate::ktype::EPOCH_OFFSET_NANOS);
                    assert(dec_atom(s, pos, tag) == Some(
                        (atom_from_window(tag, window), pos + w),
                    ));
                    assert(atom_from_window(tag, window) == k);
                },
                KTypeV::Time(t) => {
                    lemma_le4_rt(t);
                    assert(bytes_at(window, 0, le4_bytes(t)));
                    assert(dec_atom(s, pos, tag) == Some(
                        (atom_from_window(tag, window), pos + w),
                    ));
                    assert(atom_from_window(tag, window) == k);
                },
                KTypeV::Unary(x) => {
                    assert(window[0] == x);
                    assert(dec_atom(s, pos, tag) == Some(
                        (atom_from_window(tag, window), pos + w),
                    ));
                    assert(atom_from_window(tag, window) == k);
                },
                KTypeV::Operator(x) => {
                    assert(window[0] == x);
                    assert(dec_atom(s, pos, tag) == Some(
                        (atom_from_window(tag, window), pos + w),
                    ));
                    assert(atom_from_window(tag, window) == k);
                },
                _ => {},
            }
        },
    }
}

/// A vector element: an atom of the one kind the vector's code announces,
/// itself round-trippable, of a kind whose negated code is a vector code
/// (which excludes characters, strings and the operator markers, whose codes
/// collide or fall outside the vector range).
pub open spec fn vector_elem_ok(e: KObjV, code: i8) -> bool {
    match e {
        KObjV::Atom(k) => scalar_rt(k) && scalar_code(k) == code && code < 0 && code != -10,
        _ => false,
    }
}

pub open spec fn rt_elems_vec(t: Seq<KObjV>, i: int, code: i8) -> bool
    decreases t.len() - i,
{
    if i < 0 || i >= t.len() {
        true
    } else {
        vector_elem_ok(t[i], code) && rt_elems_vec(t, i + 1, code)
    }
}

/// The values whose wire encoding the decoder inverts exactly: round-trippable
/// atoms, homogeneous nonempty vectors of them, and generic lists of such
/// values. Dictionaries, tables, lambdas and errors have no outbound
/// encoding, and are not included.
pub open spec fn rt_ok(v: KObjV) -> bool
    decreases v, 0int,
{
    match v {
        KObjV::Atom(k) => scalar_rt(k),
        KObjV::List(t) => {
            &&& 1 <= t.len() <= 0x7fff_ffff
            &&& t[0] is Atom
            &&& rt_elems_vec(t, 0, scalar_code(t[0]->Atom_0))
        },
        KObjV::GenericList(t) => t.len() <= 0x7fff_ffff && rt_elems_gen(t, 0),
        _ => false,
    }
}

pub open spec fn rt_elems_gen(t: Seq<KObjV>, i: int) -> bool
    decreases t, t.len() - i,
{
    if i < 0 || i >= t.len() {
        true
    } else {
        rt_ok(t[i]) && rt_elems_gen(t, i + 1)
    }
}

/// Decoding a run of untagged elements of one kind gives back exactly the
/// encoded atoms, consuming exactly their bytes.
pub proof fn lemma_uniform_rt(s: Seq<u8>, pos: int, t: Seq<KObjV>, i: int, code: i8)
    requires
        0 <= i <= t.len(),
        rt_elems_vec(t, i, code),
        bytes_at(s, pos, list_bytes(t, i)),
    ensures
        dec_uniform(s, pos, code, t.len() - i) == Some((t.skip(i), pos + list_bytes(t, i).len())),
    decreases t.len() - i,
{
    if i == t.len() {
        assert(list_bytes(t, i) =~= Seq::<u8>::empty());
        assert(t.skip(i) =~= Seq::<KObjV>::empty());
    } else {
        let e = t[i];
        let k = e->Atom_0;
        assert(list_bytes(t, i) == obj_bytes(e) + list_bytes(t, i + 1));
        lemma_bytes_at_concat(s, pos, obj_bytes(e), list_bytes(t, i + 1));
        lemma_atom_rt(s, pos, k);
        lemma_atom_bytes_len(k);
        let end1 = pos + atom_bytes(k).len();
        assert(dec_data(s, pos, code) == Some((e, end1)));
        lemma_uniform_rt(s, end1, t, i + 1, code);
        assert(seq![e] + t.skip(i + 1) =~= t.skip(i));
    }
}

/// Decoding a run of self-tagged elements gives back exactly the encoded
/// values, each under its own type byte, consuming exactly their bytes.
pub proof fn lemma_generic_rt(s: Seq<u8>, pos: int, t: Seq<KObjV>, i: int)
    requires
        0 <= i <= t.len(),
        rt_elems_gen(t, i),
        bytes_at(s, pos, glist_bytes(t, i)),
    ensures
        dec_generic(s, pos, t.len() - i) == Some((t.skip(i), pos + glist_bytes(t, i).len())),
    decreases t, t.len() - i,
{
    if i == t.len() {
        assert(glist_bytes(t, i) =~= Seq::<u8>::empty());
        assert(t.skip(i) =~= Seq::<KObjV>::empty());
    } else {
        let e = t[i];
        let cb = seq![code_to_byte(obj_code(e))];
        assert(glist_bytes(t, i) == cb + obj_bytes(e) + glist_bytes(t, i + 1));
        assert(cb + obj_bytes(e) + glist_bytes(t, i + 1) =~= (cb + obj_bytes(e)) + glist_bytes(
            t,
            i + 1,
        ));
        lemma_bytes_at_concat(s, pos, cb + obj_bytes(e), glist_bytes(t, i + 1));
        lemma_bytes_at_concat(s, pos, cb, obj_bytes(e));
        lemma_bytes_at_index(s, pos, cb, 0);
        lemma_code_byte_rt(obj_code(e));
        assert(byte_to_code(s[pos]) == obj_code(e));
        lemma_round_trip(s, pos + 1, e);
        let end1 = pos + 1 + obj_bytes(e).len();
        lemma_generic_rt(s, end1, t, i + 1);
        assert(seq![e] + t.skip(i + 1) =~= t.skip(i));
    }
}

/// Round trip: decoding the encoder's bytes, under the value's own type
/// code, gives back exactly the value that was encoded, consuming exactly
/// its bytes. It holds for every round-trippable value, nested to any depth.
pub proof fn lemma_round_trip(s: Seq<u8>, pos: int, v: KObjV)
    requires
        rt_ok(v),
        bytes_at(s, pos, obj_bytes(v)),
    ensures
        dec_data(s, pos, obj_code(v)) == Some((v, pos + obj_bytes(v).len())),
    decreases v, 0int,
{
    match v {
        KObjV::Atom(k) => {
            lemma_atom_rt(s, pos, k);
        },
        KObjV::List(t) => {
            let k0 = t[0]->Atom_0;
            let ecode = scalar_code(k0);
            let code = obj_code(v);
            assert(vector_elem_ok(t[0], ecode));
            assert(code == (0 - ecode) as i8);
            assert(1 <= code <= 19 && code != 10);
            let header = seq![0u8] + ule4_bytes(t.len() as u32);
            assert(obj_bytes(v) =~= header + list_bytes(t, 0));
            lemma_bytes_at_concat(s, pos, header, list_bytes(t, 0));
            lemma_bytes_at_concat(s, pos, seq![0u8], ule4_bytes(t.len() as u32));
            lemma_ule4_rt(t.len() as u32);
            assert(ule4_val(s, pos + 1) == t.len() as u32);
            lemma_uniform_rt(s, pos + 5, t, 0, ecode);
            assert(t.skip(0) =~= t);
            assert((0 - code) as i8 == ecode);
        },
        KObjV::GenericList(t) => {
            let header = seq![0u8] + ule4_bytes(t.len() as u32);
            assert(obj_bytes(v) =~= header + glist_bytes(t, 0));
            lemma_bytes_at_concat(s, pos, header, glist_bytes(t, 0));
            lemma_bytes_at_concat(s, pos, seq![0u8], ule4_bytes(t.len() as u32));
            lemma_ule4_rt(t.len() as u32);
            assert(ule4_val(s, pos + 1) == t.len() as u32);
            lemma_generic_rt(s, pos + 5, t, 0);
            assert(t.skip(0) =~= t);
        },
        _ => {},
    }
}


/// Envelope arithmetic: the length field of an encoded frame always equals
/// `8 + 1 + payload` — the eight envelope bytes, the type byte, and the
/// payload itself — and the frame is exactly that long.
pub proof fn lemma_envelope_length(kind: u8, v: KObjV)
    requires
        obj_bytes(v).len() + 9 <= 0xffff_ffff,
    ensures
        frame_bytes(kind, v).len() == 9 + obj_bytes(v).len(),
        ule4_val(frame_bytes(kind, v), 4) == 9 + obj_bytes(v).len(),
{
    vstd::bytes::lemma_auto_spec_u32_to_from_le_bytes();
    let total = (9 + obj_bytes(v).len()) as u32;
    let fb = frame_bytes(kind, v);
    assert(fb.subrange(4, 8) =~= ule4_bytes(total));
}

/// Each element of a run of untagged fixed-width atoms consumes exactly its
/// kind's width, so the run consumes exactly `n` times that width.
pub proof fn lemma_uniform_consumes(s: Seq<u8>, pos: int, code: i8, n: int, es: Seq<KObjV>, end: int)
    requires
        -19 <= code <= -1,
        code != -3,
        code != -10,
        code != -11,
        n >= 0,
        dec_uniform(s, pos, code, n) == Some((es, end)),
    ensures
        end == pos + n * atom_fixed_width(default_obj(code)->Atom_0),
    decreases n,
{
    let w = atom_fixed_width(default_obj(code)->Atom_0);
    if n == 0 {
        assert(end == pos);
    } else {
        let r = dec_data(s, pos, code)->Some_0;
        let p1 = r.1;
        assert(dec_atom(s, pos, default_obj(code)->Atom_0) is Some);
        assert(p1 == pos + w);
        lemma_uniform_consumes(s, p1, code, n - 1, dec_uniform(s, p1, code, n - 1)->Some_0.0, end);
        assert(end == p1 + (n - 1) * w);
        assert(pos + w + (n - 1) * w == pos + n * w) by (nonlinear_arith);
    }
}

/// Vector consumption: a successful decode of a vector of a fixed-width kind
/// with declared count `n` consumes exactly `1 + 4 + n * width` bytes past
/// the type code: the attribute byte, the count field, and the elements.
pub proof fn lemma_vector_consumes(s: Seq<u8>, pos: int, code: i8, v: KObjV, end: int)
    requires
        1 <= code <= 19,
        code != 3,
        code != 10,
        code != 11,
        dec_data(s, pos, code) == Some((v, end)),
    ensures
        end == pos + 5 + (ule4_val(s, pos + 1) as int) * atom_fixed_width(
            default_obj((0 - code) as i8)->Atom_0,
        ),
{
    let ecode = (0 - code) as i8;
    let n = ule4_val(s, pos + 1) as int;
    let r = dec_uniform(s, pos + 5, ecode, n)->Some_0;
    lemma_uniform_consumes(s, pos + 5, ecode, n, r.0, r.1);
}


/// Whole-frame round trip: a frame the sender builds around any
/// round-trippable value decodes, from its first byte, back to exactly that
/// value, consuming the whole frame.
pub proof fn lemma_frame_round_trip(kind: u8, v: KObjV)
    requires
        rt_ok(v),
        crate::wire::sendable(v),
    ensures
        crate::wire::dec_frame(frame_bytes(kind, v), 0) == Some(
            (v, frame_bytes(kind, v).len() as int),
        ),
{
    let fb = frame_bytes(kind, v);
    let envelope = seq![1u8, kind, 0u8, 0u8] + ule4_bytes((9 + obj_bytes(v).len()) as u32) + seq![
        code_to_byte(obj_code(v)),
    ];
    assert(fb =~= envelope + obj_bytes(v));
    lemma_envelope_length(kind, v);
    assert(bytes_at(fb, 0, fb));
    lemma_bytes_at_concat(fb, 0, envelope, obj_bytes(v));
    lemma_code_byte_rt(obj_code(v));
    assert(fb[8] == code_to_byte(obj_code(v)));
    assert(byte_to_code(fb[8]) == obj_code(v));
    assert(!(103 <= obj_code(v) && obj_code(v) <= 112)) by {
        match v {
            KObjV::Atom(k) => {
                assert(scalar_code(k) <= 102);
            },
            _ => {},
        }
    }
    lemma_round_trip(fb, 9, v);
}


} // verus!
