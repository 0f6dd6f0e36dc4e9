//! The byte-stream side of the codec as mathematics: what each type code's
//! payload decodes to, starting from a position in a byte sequence, and the
//! envelope framing around a message. The executable decoder is proved to
//! return exactly what these functions say.
use vstd::prelude::*;

verus! {

use crate::ktype::{KTypeV, atom_fixed_width, atom_from_window};
use crate::kobj::{KObjV, default_obj, byte_to_code, code_to_byte, obj_code, obj_bytes, enc_ok,
    has_code};
use crate::intbytes::{ule4_val, ube4_val, le4_val, ule4_bytes};

/// The message a drained unsupported frame surfaces as an error value.
pub open spec fn unsupported_msg() -> Seq<u8> {
    seq![116u8, 121u8, 112u8, 101u8, 32u8, 117u8, 110u8, 115u8, 117u8, 112u8, 112u8, 111u8, 114u8, 116u8, 101u8, 100u8]
}

/// The message a dictionary or table whose key or value payload is not a list
/// shape surfaces as an error value.
pub open spec fn dict_shape_msg() -> Seq<u8> {
    seq![107u8, 101u8, 121u8, 115u8, 32u8, 111u8, 102u8, 32u8, 100u8, 105u8, 99u8, 116u8, 105u8, 111u8, 110u8, 97u8, 114u8, 121u8, 32u8, 109u8, 117u8, 115u8, 116u8, 32u8, 98u8, 101u8, 32u8, 97u8, 32u8, 108u8, 105u8, 115u8, 116u8]
}

/// The position of the first NUL byte at or after `pos`, if any: a symbol
/// runs to its terminator.
pub open spec fn sym_scan(s: Seq<u8>, pos: int) -> Option<int>
    decreases s.len() - pos,
{
    if pos < 0 || pos >= s.len() {
        None::<int>
    } else if s[pos] == 0 {
        Some(pos)
    } else {
        sym_scan(s, pos + 1)
    }
}

/// Decode one atom of the kind `tag` selects. Fixed-width kinds read exactly
/// their width; a string reads a discard byte, a 32-bit length and that many
/// bytes; a symbol reads up to and through its NUL terminator.
pub open spec fn dec_atom(s: Seq<u8>, pos: int, tag: KTypeV) -> Option<(KTypeV, int)> {
    match tag {
        KTypeV::String(_) => {
            if pos < 0 || pos + 5 > s.len() {
                None::<(KTypeV, int)>
            } else {
                let n = ule4_val(s, pos + 1) as int;
                if pos + 5 + n > s.len() {
                    None::<(KTypeV, int)>
                } else {
                    Some((atom_from_window(tag, s.subrange(pos + 5, pos + 5 + n)), pos + 5 + n))
                }
            }
        },
        KTypeV::Symbol(_) => match sym_scan(s, pos) {
            Some(z) => Some((atom_from_window(tag, s.subrange(pos, z)), z + 1)),
            None => None::<(KTypeV, int)>,
        },
        k => {
            let w = atom_fixed_width(k);
            if pos < 0 || pos + w > s.len() {
                None::<(KTypeV, int)>
            } else {
                Some((atom_from_window(k, s.subrange(pos, pos + w)), pos + w))
            }
        },
    }
}

/// Fold a decoded key structure and value structure into a dictionary or
/// table; either payload that is not a list shape yields an error value
/// instead, after both structures were consumed.
pub open spec fn kv_shape(kv: KObjV, vv: KObjV, table: bool) -> KObjV {
    let ks = match kv {
        KObjV::List(k) => Some(k),
        KObjV::GenericList(k) => Some(k),
        _ => None::<Seq<KObjV>>,
    };
    let vs = match vv {
        KObjV::List(k) => Some(k),
        KObjV::GenericList(k) => Some(k),
        _ => None::<Seq<KObjV>>,
    };
    match ks {
        Some(k) => match vs {
            Some(w) => if table {
                KObjV::Table(k, w)
            } else {
                KObjV::Dict(k, w)
            },
            None => KObjV::Error(dict_shape_msg()),
        },
        None => KObjV::Error(dict_shape_msg()),
    }
}

/// Decode the value the type code `code` announces, starting at `pos`.
/// The dispatch goes through the same constructor table the encoder uses.
/// `None` means the stream ended before the value did.
pub open spec fn dec_data(s: Seq<u8>, pos: int, code: i8) -> Option<(KObjV, int)>
    decreases s.len() - pos, 1int,
{
    match default_obj(code) {
        KObjV::Atom(tag) => match dec_atom(s, pos, tag) {
            Some(r) => Some((KObjV::Atom(r.0), r.1)),
            None => None::<(KObjV, int)>,
        },
        KObjV::List(_) => {
            if pos < 0 || pos + 5 > s.len() {
                None::<(KObjV, int)>
            } else {
                let n = ule4_val(s, pos + 1) as int;
                match dec_uniform(s, pos + 5, (0 - code) as i8, n) {
                    Some(r) => Some((KObjV::List(r.0), r.1)),
                    None => None::<(KObjV, int)>,
                }
            }
        },
        KObjV::GenericList(_) => {
            if pos < 0 || pos + 5 > s.len() {
                None::<(KObjV, int)>
            } else {
                let n = ule4_val(s, pos + 1) as int;
                match dec_generic(s, pos + 5, n) {
                    Some(r) => Some((KObjV::GenericList(r.0), r.1)),
                    None => None::<(KObjV, int)>,
                }
            }
        },
        KObjV::Dict(_, _) => dec_kv(s, pos, false),
        KObjV::Table(_, _) => {
            if pos < 0 || pos + 2 > s.len() {
                None::<(KObjV, int)>
            } else {
                dec_kv(s, pos + 2, true)
            }
        },
        KObjV::Lambda(_) => {
            if pos < 0 || pos + 7 > s.len() {
                None::<(KObjV, int)>
            } else {
                let n = le4_val(s, pos + 3) as int;
                if n < 0 || pos + 7 + n > s.len() {
                    None::<(KObjV, int)>
                } else {
                    Some((KObjV::Lambda(s.subrange(pos + 7, pos + 7 + n)), pos + 7 + n))
                }
            }
        },
        KObjV::Error(_) => match sym_scan(s, pos) {
            Some(z) => Some((KObjV::Error(s.subrange(pos, z)), z + 1)),
            None => None::<(KObjV, int)>,
        },
    }
}

/// Decode `n` untagged elements of one kind, back to back.
pub open spec fn dec_uniform(s: Seq<u8>, pos: int, code: i8, n: int) -> Option<(Seq<KObjV>, int)>
    decreases s.len() - pos, 2int,
{
    if n <= 0 {
        Some((Seq::<KObjV>::empty(), pos))
    } else {
        match dec_data(s, pos, code) {
            Some(r) => {
                if r.1 <= pos || r.1 > s.len() {
                    None::<(Seq<KObjV>, int)>
                } else {
                    match dec_uniform(s, r.1, code, n - 1) {
                        Some(rest) => Some((seq![r.0] + rest.0, rest.1)),
                        None => None::<(Seq<KObjV>, int)>,
                    }
                }
            },
            None => None::<(Seq<KObjV>, int)>,
        }
    }
}

/// Decode `n` elements, each announced by its own type byte.
pub open spec fn dec_generic(s: Seq<u8>, pos: int, n: int) -> Option<(Seq<KObjV>, int)>
    decreases s.len() - pos, 2int,
{
    if n <= 0 {
        Some((Seq::<KObjV>::empty(), pos))
    } else if pos < 0 || pos + 1 > s.len() {
        None::<(Seq<KObjV>, int)>
    } else {
        let c = byte_to_code(s[pos]);
        match dec_data(s, pos + 1, c) {
            Some(r) => {
                if r.1 <= pos || r.1 > s.len() {
                    None::<(Seq<KObjV>, int)>
                } else {
                    match dec_generic(s, r.1, n - 1) {
                        Some(rest) => Some((seq![r.0] + rest.0, rest.1)),
                        None => None::<(Seq<KObjV>, int)>,
                    }
                }
            },
            None => None::<(Seq<KObjV>, int)>,
        }
    }
}

/// Decode a key structure and a value structure, each announced by a type
/// byte, and fold them into a dictionary (or, nested behind the flip marker,
/// a table).
pub open spec fn dec_kv(s: Seq<u8>, pos: int, table: bool) -> Option<(KObjV, int)>
    decreases s.len() - pos, 0int,
{
    if pos < 0 || pos + 1 > s.len() {
        None::<(KObjV, int)>
    } else {
        let kc = byte_to_code(s[pos]);
        match dec_data(s, pos + 1, kc) {
            Some(kr) => {
                if kr.1 <= pos || kr.1 + 1 > s.len() {
                    None::<(KObjV, int)>
                } else {
                    let vc = byte_to_code(s[kr.1]);
                    match dec_data(s, kr.1 + 1, vc) {
                        Some(vr) => Some((kv_shape(kr.0, vr.0, table), vr.1)),
                        None => None::<(KObjV, int)>,
                    }
                }
            },
            None => None::<(KObjV, int)>,
        }
    }
}

/// The length field of the envelope at `pos`, honoring its endianness flag.
pub open spec fn frame_len(s: Seq<u8>, pos: int) -> int {
    if s[pos] == 1 {
        ule4_val(s, pos + 4) as int
    } else {
        ube4_val(s, pos + 4) as int
    }
}

/// Whether the frame at `pos` carries one of the protocol's unsupported type
/// codes, which are drained rather than decoded.
pub open spec fn frame_unsupported(s: Seq<u8>, pos: int) -> bool {
    103 <= byte_to_code(s[pos + 8]) && byte_to_code(s[pos + 8]) <= 112
}

/// Decode one whole inbound frame at `pos`: the 8-byte envelope, the type
/// code, and the value. A frame with an unsupported type code consumes
/// exactly its declared length and yields an error value, keeping the stream
/// aligned for the next frame.
pub open spec fn dec_frame(s: Seq<u8>, pos: int) -> Option<(KObjV, int)> {
    if pos < 0 || pos + 9 > s.len() {
        None::<(KObjV, int)>
    } else {
        let length = frame_len(s, pos);
        if frame_unsupported(s, pos) {
            if length < 9 || pos + length > s.len() {
                None::<(KObjV, int)>
            } else {
                Some((KObjV::Error(unsupported_msg()), pos + length))
            }
        } else {
            dec_data(s, pos + 9, byte_to_code(s[pos + 8]))
        }
    }
}

/// Whether the frame at `pos` obliges the receiver to acknowledge: the peer
/// sent a request (kind Sync) and awaits a response before it will go on.
/// A drained unsupported frame is not acknowledged.
pub open spec fn frame_acks(s: Seq<u8>, pos: int) -> bool {
    s[pos + 1] == 1 && !frame_unsupported(s, pos)
}

/// A whole outbound frame: little-endian envelope of the given kind, total
/// length `8 + 1 + payload`, then the type byte and the payload.
pub open spec fn frame_bytes(kind: u8, v: KObjV) -> Seq<u8> {
    seq![1u8, kind, 0u8, 0u8] + ule4_bytes((9 + obj_bytes(v).len()) as u32) + seq![
        code_to_byte(obj_code(v)),
    ] + obj_bytes(v)
}

/// What the sending functions accept: an encodable value whose frame length
/// fits the signed 32-bit length field.
pub open spec fn sendable(v: KObjV) -> bool {
    enc_ok(v) && has_code(v) && obj_bytes(v).len() + 9 <= 0x7fff_ffff
}

} // verus!
