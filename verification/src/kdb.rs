//! The session engine: the executable decoder, proved to compute exactly what
//! the wire specification says, and the protocol's send and receive
//! operations over a pair of byte buffers. Bytes arriving from the transport
//! are fed into the inbox; frames to write sit in the outbox until the caller
//! drains them. The transport itself lives outside this crate.
use vstd::prelude::*;

verus! {

broadcast use vstd::seq::axiom_seq_index_decreases, vstd::std_specs::vec::group_vec_axioms;

use crate::ktype::{KType, KTypeV, atom_fixed_width};
use crate::kobj::{KObj, KObjV, KErr, kobj_v, kobjs_v, byte_as_code, lemma_kobjs_len,
    lemma_kobjs_push};
use crate::wire::{sym_scan, dec_atom, dec_data, dec_uniform, dec_generic, dec_kv, dec_frame,
    frame_bytes, frame_acks, frame_unsupported, frame_len, sendable, unsupported_msg,
    dict_shape_msg, kv_shape};
use crate::header::Header;
use crate::intbytes::{read_u32_le, read_i32_le, copy_range, push_u32_le, lemma_vec_len_bound};

/// Stitch already-decoded elements onto the rest of an element decode.
pub open spec fn combine_elems(prefix: Seq<KObjV>, rest: Option<(Seq<KObjV>, int)>) -> Option<
    (Seq<KObjV>, int),
> {
    match rest {
        Some(r) => Some((prefix + r.0, r.1)),
        None => None::<(Seq<KObjV>, int)>,
    }
}

/// The error value a drained unsupported frame surfaces as.
pub fn unsupported_msg_vec() -> (r: Vec<u8>)
    ensures
        r@ == unsupported_msg(),
{
    let r: Vec<u8> = vec![116u8, 121, 112, 101, 32, 117, 110, 115, 117, 112, 112, 111, 114, 116, 101, 100];
    assert(r@ =~= unsupported_msg());
    r
}

/// The error value a malformed dictionary or table surfaces as.
pub fn dict_shape_msg_vec() -> (r: Vec<u8>)
    ensures
        r@ == dict_shape_msg(),
{
    let r: Vec<u8> = vec![107u8, 101, 121, 115, 32, 111, 102, 32, 100, 105, 99, 116, 105, 111, 110,
        97, 114, 121, 32, 109, 117, 115, 116, 32, 98, 101, 32, 97, 32, 108, 105, 115, 116];
    assert(r@ =~= dict_shape_msg());
    r
}

/// Copy `len` payload bytes out of the buffer, exactly or not at all.
pub fn extract_atom(bytes: &Vec<u8>, pos: usize, len: usize) -> (r: Result<(Vec<u8>, usize), KErr>)
    requires
        pos <= bytes@.len(),
    ensures
        match r {
            Ok(p) => {
                &&& pos + len <= bytes@.len()
                &&& p.0@ == bytes@.subrange(pos as int, pos + len)
                &&& p.1 == pos + len
            },
            Err(e) => {
                &&& e == KErr::TruncatedStream
                &&& pos + len > bytes@.len()
            },
        },
{
    proof {
        lemma_vec_len_bound(bytes);
    }
    if bytes.len() - pos < len {
        return Err(KErr::TruncatedStream);
    }
    Ok((copy_range(bytes, pos, len), pos + len))
}

/// Read a string payload: one discarded attribute byte, a 32-bit length, then
/// that many text bytes.
pub fn extract_string(bytes: &Vec<u8>, pos: usize) -> (r: Result<(Vec<u8>, usize), KErr>)
    requires
        pos <= bytes@.len(),
    ensures
        match r {
            Ok(p) => {
                &&& pos + 5 <= bytes@.len()
                &&& p.1 == pos + 5 + (crate::intbytes::ule4_val(bytes@, pos + 1) as int)
                &&& p.1 <= bytes@.len()
                &&& p.0@ == bytes@.subrange(pos + 5, p.1 as int)
            },
            Err(e) => {
                &&& e == KErr::TruncatedStream
                &&& (pos + 5 > bytes@.len() || pos + 5 + (crate::intbytes::ule4_val(
                    bytes@,
                    pos + 1,
                ) as int) > bytes@.len())
            },
        },
{
    proof {
        lemma_vec_len_bound(bytes);
    }
    if bytes.len() - pos < 5 {
        return Err(KErr::TruncatedStream);
    }
    let n = read_u32_le(bytes, pos + 1) as usize;
    if bytes.len() - (pos + 5) < n {
        return Err(KErr::TruncatedStream);
    }
    let w = copy_range(bytes, pos + 5, n);
    Ok((w, pos + 5 + n))
}

/// Read a NUL-terminated symbol run: the text bytes without the terminator,
/// and the position just past it.
pub fn extract_sym(bytes: &Vec<u8>, pos: usize) -> (r: Result<(Vec<u8>, usize), KErr>)
    requires
        pos <= bytes@.len(),
    ensures
        match r {
            Ok(p) => {
                &&& sym_scan(bytes@, pos as int) == Some(p.1 - 1)
                &&& pos < p.1 <= bytes@.len()
                &&& p.0@ == bytes@.subrange(pos as int, p.1 - 1)
            },
            Err(e) => {
                &&& e == KErr::TruncatedStream
                &&& sym_scan(bytes@, pos as int) is None
            },
        },
{
    proof {
        lemma_vec_len_bound(bytes);
    }
    let mut i: usize = pos;
    while i < bytes.len() && bytes[i] != 0
        invariant
            pos <= i <= bytes@.len(),
            sym_scan(bytes@, pos as int) == sym_scan(bytes@, i as int),
        decreases bytes@.len() - i,
    {
        i = i + 1;
    }
    if i == bytes.len() {
        assert(sym_scan(bytes@, i as int) is None);
        return Err(KErr::TruncatedStream);
    }
    assert(bytes@[i as int] == 0);
    assert(sym_scan(bytes@, i as int) == Some(i as int));
    let w = copy_range(bytes, pos, i - pos);
    Ok((w, i + 1))
}

/// Decode one atom of the kind the selector value names, as the dispatch
/// table hands it over.
pub fn read_atom(bytes: &Vec<u8>, pos: usize, ktype: KType) -> (r: Result<(KObj, usize), KErr>)
    requires
        pos <= bytes@.len(),
    ensures
        match r {
            Ok(p) => {
                &&& pos < p.1 <= bytes@.len()
                &&& kobj_v(p.0) is Atom
                &&& dec_atom(bytes@, pos as int, ktype@) == Some(
                    (kobj_v(p.0)->Atom_0, p.1 as int),
                )
            },
            Err(e) => {
                &&& e == KErr::TruncatedStream
                &&& dec_atom(bytes@, pos as int, ktype@) is None
            },
        },
{
    let extracted: (Vec<u8>, usize) = match &ktype {
        KType::String(_) => {
            match extract_string(bytes, pos) {
                Ok(p) => p,
                Err(e) => {
                    return Err(e);
                },
            }
        },
        KType::Symbol(_) => {
            match extract_sym(bytes, pos) {
                Ok(p) => p,
                Err(e) => {
                    return Err(e);
                },
            }
        },
        _ => {
            let w = atom_width(&ktype);
            match extract_atom(bytes, pos, w) {
                Ok(p) => p,
                Err(e) => {
                    return Err(e);
                },
            }
        },
    };
    let selector = KObj::Atom(ktype);
    let obj = selector.deserialize(&extracted.0);
    Ok((obj, extracted.1))
}

/// The fixed payload width of an atom kind; the two self-framing kinds do not
/// reach this.
fn atom_width(k: &KType) -> (w: usize)
    ensures
        w == match k@ {
            KTypeV::String(_) | KTypeV::Symbol(_) => 0int,
            kk => atom_fixed_width(kk),
        },
{
    match k {
        KType::Boolean(_) => 1,
        KType::Guid(_) => 16,
        KType::Byte(_) => 1,
        KType::Short(_) => 2,
        KType::Int(_) => 4,
        KType::Long(_) => 8,
        KType::Real(_) => 4,
        KType::Float(_) => 8,
        KType::Char(_) => 1,
        KType::String(_) => 0,
        KType::Symbol(_) => 0,
        KType::Timestamp(_) => 8,
        KType::Month(_) => 4,
        KType::Date(_) => 4,
        KType::Datetime(_) => 8,
        KType::Timespan(_) => 8,
        KType::Minute(_) => 4,
        KType::Second(_) => 4,
        KType::Time(_) => 4,
        KType::Unary(_) => 1,
        KType::Operator(_) => 1,
    }
}

/// Decode `n` untagged elements of the kind `msg_type` names, back to back.
pub fn read_uniform_list(bytes: &Vec<u8>, pos: usize, msg_type: i8, n: u32) -> (r: Result<
    (Vec<KObj>, usize),
    KErr,
>)
    requires
        pos <= bytes@.len(),
    ensures
        match r {
            Ok(p) => {
                &&& pos <= p.1 <= bytes@.len()
                &&& dec_uniform(bytes@, pos as int, msg_type, n as int) == Some(
                    (kobjs_v(p.0@, 0), p.1 as int),
                )
            },
            Err(e) => {
                &&& e == KErr::TruncatedStream
                &&& dec_uniform(bytes@, pos as int, msg_type, n as int) is None
            },
        },
    decreases bytes@.len() - pos, 4int,
{
    let ghost full = dec_uniform(bytes@, pos as int, msg_type, n as int);
    let mut list: Vec<KObj> = Vec::new();
    let mut cur: usize = pos;
    let mut i: u32 = 0;
    proof {
        lemma_kobjs_len(list@, 0);
        assert(combine_elems(kobjs_v(list@, 0), dec_uniform(bytes@, cur as int, msg_type, n - i))
            =~~= dec_uniform(bytes@, cur as int, msg_type, n - i));
    }
    while i < n
        invariant
            pos <= cur <= bytes@.len(),
            i <= n,
            full == dec_uniform(bytes@, pos as int, msg_type, n as int),
            full == combine_elems(
                kobjs_v(list@, 0),
                dec_uniform(bytes@, cur as int, msg_type, (n - i) as int),
            ),
            kobjs_v(list@, 0).len() == i,
        decreases n - i,
    {
        proof {
            lemma_kobjs_len(list@, 0);
        }
        match read_data(bytes, cur, msg_type) {
            Ok(p) => {
                let ghost prev = list@;
                let ghost elem_end = p.1 as int;
                proof {
                    assert(dec_uniform(bytes@, cur as int, msg_type, (n - i) as int) == (match
                        dec_uniform(bytes@, elem_end, msg_type, (n - i) - 1) {
                        Some(rest) => Some((seq![kobj_v(p.0)] + rest.0, rest.1)),
                        None => None::<(Seq<KObjV>, int)>,
                    }));
                }
                list.push(p.0);
                let ghost x = p.0;
                cur = p.1;
                i = i + 1;
                proof {
                    lemma_kobjs_push(prev, x, 0);
                    lemma_kobjs_len(prev, 0);
                    assert(kobjs_v(list@, 0) =~= kobjs_v(prev, 0) + seq![kobj_v(x)]);
                    match dec_uniform(bytes@, cur as int, msg_type, (n - i) as int) {
                        Some(rest) => {
                            assert(kobjs_v(prev, 0) + (seq![kobj_v(x)] + rest.0) =~= kobjs_v(
                                list@,
                                0,
                            ) + rest.0);
                        },
                        None => {},
                    }
                }
            },
            Err(e) => {
                proof {
                    assert(dec_uniform(bytes@, cur as int, msg_type, (n - i) as int)
                        is None);
                }
                return Err(e);
            },
        }
    }
    proof {
        assert(dec_uniform(bytes@, cur as int, msg_type, 0) == Some((Seq::<KObjV>::empty(), cur as int)));
        assert(kobjs_v(list@, 0) + Seq::<KObjV>::empty() =~= kobjs_v(list@, 0));
    }
    Ok((list, cur))
}

/// Decode `n` elements, each announcing itself with its own type byte.
pub fn read_generic_list(bytes: &Vec<u8>, pos: usize, n: u32) -> (r: Result<(Vec<KObj>, usize), KErr>)
    requires
        pos <= bytes@.len(),
    ensures
        match r {
            Ok(p) => {
                &&& pos <= p.1 <= bytes@.len()
                &&& dec_generic(bytes@, pos as int, n as int) == Some(
                    (kobjs_v(p.0@, 0), p.1 as int),
                )
            },
            Err(e) => {
                &&& e == KErr::TruncatedStream
                &&& dec_generic(bytes@, pos as int, n as int) is None
            },
        },
    decreases bytes@.len() - pos, 4int,
{
    let ghost full = dec_generic(bytes@, pos as int, n as int);
    let mut list: Vec<KObj> = Vec::new();
    let mut cur: usize = pos;
    let mut i: u32 = 0;
    proof {
        lemma_vec_len_bound(bytes);
        lemma_kobjs_len(list@, 0);
        assert(combine_elems(kobjs_v(list@, 0), dec_generic(bytes@, cur as int, n - i)) =~~=
            dec_generic(bytes@, cur as int, n - i));
    }
    while i < n
        invariant
            pos <= cur <= bytes@.len(),
            i <= n,
            full == dec_generic(bytes@, pos as int, n as int),
            full == combine_elems(
                kobjs_v(list@, 0),
                dec_generic(bytes@, cur as int, (n - i) as int),
            ),
            kobjs_v(list@, 0).len() == i,
        decreases n - i,
    {
        proof {
            lemma_vec_len_bound(bytes);
            lemma_kobjs_len(list@, 0);
        }
        if bytes.len() - cur < 1 {
            proof {
                assert(dec_generic(bytes@, cur as int, (n - i) as int) is None);
            }
            return Err(KErr::TruncatedStream);
        }
        let msg_code = byte_as_code(bytes[cur]);
        match read_data(bytes, cur + 1, msg_code) {
            Ok(p) => {
                let ghost prev = list@;
                proof {
                    assert(dec_generic(bytes@, cur as int, (n - i) as int) == (match dec_generic(
                        bytes@,
                        p.1 as int,
                        (n - i) - 1,
                    ) {
                        Some(rest) => Some((seq![kobj_v(p.0)] + rest.0, rest.1)),
                        None => None::<(Seq<KObjV>, int)>,
                    }));
                }
                list.push(p.0);
                let ghost x = p.0;
                cur = p.1;
                i = i + 1;
                proof {
                    lemma_kobjs_push(prev, x, 0);
                    lemma_kobjs_len(prev, 0);
                    assert(kobjs_v(list@, 0) =~= kobjs_v(prev, 0) + seq![kobj_v(x)]);
                    match dec_generic(bytes@, cur as int, (n - i) as int) {
                        Some(rest) => {
                            assert(kobjs_v(prev, 0) + (seq![kobj_v(x)] + rest.0) =~= kobjs_v(
                                list@,
                                0,
                            ) + rest.0);
                        },
                        None => {},
                    }
                }
            },
            Err(e) => {
                proof {
                    assert(dec_generic(bytes@, cur as int, (n - i) as int) is None);
                }
                return Err(e);
            },
        }
    }
    proof {
        assert(dec_generic(bytes@, cur as int, 0) == Some((Seq::<KObjV>::empty(), cur as int)));
        assert(kobjs_v(list@, 0) + Seq::<KObjV>::empty() =~= kobjs_v(list@, 0));
    }
    Ok((list, cur))
}

/// Decode a vector or generic list: one ignored attribute byte, a 32-bit
/// element count, then the elements.
pub fn read_list(bytes: &Vec<u8>, pos: usize, msg_type: i8) -> (r: Result<(KObj, usize), KErr>)
    requires
        pos <= bytes@.len(),
        crate::kobj::default_obj(msg_type) is List || crate::kobj::default_obj(msg_type)
            is GenericList,
    ensures
        match r {
            Ok(p) => {
                &&& pos < p.1 <= bytes@.len()
                &&& dec_data(bytes@, pos as int, msg_type) == Some((kobj_v(p.0), p.1 as int))
            },
            Err(e) => {
                &&& e == KErr::TruncatedStream
                &&& dec_data(bytes@, pos as int, msg_type) is None
            },
        },
    decreases bytes@.len() - pos, 0int,
{
    proof {
        lemma_vec_len_bound(bytes);
    }
    if bytes.len() - pos < 5 {
        return Err(KErr::TruncatedStream);
    }
    let n = read_u32_le(bytes, pos + 1);
    if msg_type == 0 {
        match read_generic_list(bytes, pos + 5, n) {
            Ok(p) => Ok((KObj::GenericList(p.0), p.1)),
            Err(e) => Err(e),
        }
    } else {
        let neg: i16 = 0 - (msg_type as i16);
        match read_uniform_list(bytes, pos + 5, neg as i8, n) {
            Ok(p) => Ok((KObj::List(p.0), p.1)),
            Err(e) => Err(e),
        }
    }
}

/// Decode a key structure and a value structure and pair them as a
/// dictionary; a key or value payload that is not a list shape becomes an
/// error value after both structures were consumed.
pub fn read_dict(bytes: &Vec<u8>, pos: usize) -> (r: Result<(KObj, usize), KErr>)
    requires
        pos <= bytes@.len(),
    ensures
        match r {
            Ok(p) => {
                &&& pos < p.1 <= bytes@.len()
                &&& dec_kv(bytes@, pos as int, false) == Some((kobj_v(p.0), p.1 as int))
            },
            Err(e) => {
                &&& e == KErr::TruncatedStream
                &&& dec_kv(bytes@, pos as int, false) is None
            },
        },
    decreases bytes@.len() - pos, 2int,
{
    read_kv(bytes, pos, false)
}

/// As `read_dict`, behind the table's flip marker: the pairing becomes a
/// column-named table.
pub fn read_table(bytes: &Vec<u8>, pos: usize) -> (r: Result<(KObj, usize), KErr>)
    requires
        pos <= bytes@.len(),
    ensures
        match r {
            Ok(p) => {
                &&& pos < p.1 <= bytes@.len()
                &&& dec_kv(bytes@, pos as int, true) == Some((kobj_v(p.0), p.1 as int))
            },
            Err(e) => {
                &&& e == KErr::TruncatedStream
                &&& dec_kv(bytes@, pos as int, true) is None
            },
        },
    decreases bytes@.len() - pos, 2int,
{
    read_kv(bytes, pos, true)
}

fn read_kv(bytes: &Vec<u8>, pos: usize, table: bool) -> (r: Result<(KObj, usize), KErr>)
    requires
        pos <= bytes@.len(),
    ensures
        match r {
            Ok(p) => {
                &&& pos < p.1 <= bytes@.len()
                &&& dec_kv(bytes@, pos as int, table) == Some((kobj_v(p.0), p.1 as int))
            },
            Err(e) => {
                &&& e == KErr::TruncatedStream
                &&& dec_kv(bytes@, pos as int, table) is None
            },
        },
    decreases bytes@.len() - pos, 1int,
{
    proof {
        lemma_vec_len_bound(bytes);
    }
    if bytes.len() - pos < 1 {
        return Err(KErr::TruncatedStream);
    }
    let key_type = byte_as_code(bytes[pos]);
    let keys = match read_data(bytes, pos + 1, key_type) {
        Ok(p) => p,
        Err(e) => {
            return Err(e);
        },
    };
    if bytes.len() - keys.1 < 1 {
        return Err(KErr::TruncatedStream);
    }
    let val_type = byte_as_code(bytes[keys.1]);
    let vals = match read_data(bytes, keys.1 + 1, val_type) {
        Ok(p) => p,
        Err(e) => {
            return Err(e);
        },
    };
    let end = vals.1;
    let ghost shaped = kv_shape(kobj_v(keys.0), kobj_v(vals.0), table);
    let key_list: Vec<KObj> = match keys.0 {
        KObj::List(k) => k,
        KObj::GenericList(k) => k,
        _ => {
            let out = KObj::Error(dict_shape_msg_vec());
            assert(kobj_v(out) == shaped);
            return Ok((out, end));
        },
    };
    let val_list: Vec<KObj> = match vals.0 {
        KObj::List(k) => k,
        KObj::GenericList(k) => k,
        _ => {
            let out = KObj::Error(dict_shape_msg_vec());
            assert(kobj_v(out) == shaped);
            return Ok((out, end));
        },
    };
    let out = if table {
        KObj::Table(key_list, val_list)
    } else {
        KObj::Dict(key_list, val_list)
    };
    assert(kobj_v(out) == shaped);
    Ok((out, end))
}

/// Decode a lambda: three discarded framing bytes, a 32-bit length, then the
/// source text bytes.
pub fn read_lambda(bytes: &Vec<u8>, pos: usize) -> (r: Result<(KObj, usize), KErr>)
    requires
        pos <= bytes@.len(),
    ensures
        match r {
            Ok(p) => {
                &&& pos < p.1 <= bytes@.len()
                &&& dec_data(bytes@, pos as int, 100) == Some((kobj_v(p.0), p.1 as int))
            },
            Err(e) => {
                &&& e == KErr::TruncatedStream
                &&& dec_data(bytes@, pos as int, 100) is None
            },
        },
{
    proof {
        lemma_vec_len_bound(bytes);
    }
    if bytes.len() - pos < 7 {
        return Err(KErr::TruncatedStream);
    }
    let n = read_i32_le(bytes, pos + 3);
    if n < 0 {
        return Err(KErr::TruncatedStream);
    }
    let nu = n as usize;
    if bytes.len() - (pos + 7) < nu {
        return Err(KErr::TruncatedStream);
    }
    let w = copy_range(bytes, pos + 7, nu);
    Ok((KObj::Lambda(w), pos + 7 + nu))
}

/// Decode an error value: a NUL-terminated message run.
pub fn read_error(bytes: &Vec<u8>, pos: usize) -> (r: Result<(KObj, usize), KErr>)
    requires
        pos <= bytes@.len(),
    ensures
        match r {
            Ok(p) => {
                &&& pos < p.1 <= bytes@.len()
                &&& (match sym_scan(bytes@, pos as int) {
                    Some(z) => kobj_v(p.0) == KObjV::Error(
                        bytes@.subrange(pos as int, z),
                    ) && p.1 == z + 1,
                    None => false,
                })
            },
            Err(e) => {
                &&& e == KErr::TruncatedStream
                &&& sym_scan(bytes@, pos as int) is None
            },
        },
{
    match extract_sym(bytes, pos) {
        Ok(p) => Ok((KObj::Error(p.0), p.1)),
        Err(e) => Err(e),
    }
}

/// Decode the value the type code announces, starting at `pos`: the dispatch
/// goes through the shared constructor table, exactly as the wire
/// specification does.
pub fn read_data(bytes: &Vec<u8>, pos: usize, msg_type: i8) -> (r: Result<(KObj, usize), KErr>)
    requires
        pos <= bytes@.len(),
    ensures
        match r {
            Ok(p) => {
                &&& pos < p.1 <= bytes@.len()
                &&& dec_data(bytes@, pos as int, msg_type) == Some((kobj_v(p.0), p.1 as int))
            },
            Err(e) => {
                &&& e == KErr::TruncatedStream
                &&& dec_data(bytes@, pos as int, msg_type) is None
            },
        },
    decreases bytes@.len() - pos, 3int,
{
    proof {
        lemma_vec_len_bound(bytes);
    }
    let kobj = KObj::new(msg_type);
    match kobj {
        KObj::Atom(k) => {
            match read_atom(bytes, pos, k) {
                Ok(p) => Ok((p.0, p.1)),
                Err(e) => Err(e),
            }
        },
        KObj::List(_) => read_list(bytes, pos, msg_type),
        KObj::GenericList(_) => read_list(bytes, pos, msg_type),
        KObj::Dict(_, _) => read_dict(bytes, pos),
        KObj::Table(_, _) => {
            if bytes.len() - pos < 2 {
                return Err(KErr::TruncatedStream);
            }
            read_table(bytes, pos + 2)
        },
        KObj::Lambda(_) => read_lambda(bytes, pos),
        KObj::Error(_) => read_error(bytes, pos),
    }
}

/// Build one outbound frame onto the queue: little-endian envelope of the
/// given kind, the frame length, the type byte and the payload.
fn push_frame(outbox: &mut Vec<u8>, kind: u8, data: &KObj) -> (r: Result<(), KErr>)
    ensures
        match r {
            Ok(_) => {
                &&& sendable(kobj_v(*data))
                &&& final(outbox)@ == old(outbox)@ + frame_bytes(kind, kobj_v(*data))
            },
            Err(e) => {
                &&& *final(outbox) == *old(outbox)
                &&& !sendable(kobj_v(*data))
                &&& e == (if !(crate::kobj::enc_ok(kobj_v(*data)) && crate::kobj::has_code(
                    kobj_v(*data),
                )) {
                    KErr::Unencodable
                } else {
                    KErr::TooLong
                })
            },
        },
{
    let enc = data.check_enc_ok();
    let hc = data.check_has_code();
    if !(enc && hc) {
        return Err(KErr::Unencodable);
    }
    let mut payload = data.serialize();
    proof {
        lemma_vec_len_bound(&payload);
    }
    if payload.len() > 0x7fff_ffff - 9 {
        return Err(KErr::TooLong);
    }
    let ghost base = outbox@;
    let code = data.type_as_bytes();
    let total: u32 = (payload.len() + 9) as u32;
    outbox.push(1);
    outbox.push(kind);
    outbox.push(0);
    outbox.push(0);
    push_u32_le(outbox, total);
    outbox.push(code);
    outbox.append(&mut payload);
    proof {
        assert(outbox@ =~= base + frame_bytes(kind, kobj_v(*data)));
    }
    Ok(())
}

/// The acknowledgement frame a received request obliges: boolean true,
/// framed as a response.
pub open spec fn ack_frame() -> Seq<u8> {
    frame_bytes(2, KObjV::Atom(KTypeV::Boolean(true)))
}

/// The connection parameters never change underneath the session.
pub open spec fn same_conn(a: Kdb, b: Kdb) -> bool {
    &&& a.host == b.host
    &&& a.port == b.port
    &&& a.user == b.user
    &&& a.pass == b.pass
}

/// A session with one peer: the connection parameters the transport uses,
/// the bytes received so far with the read cursor into them, and the bytes
/// queued to be written.
pub struct Kdb {
    pub host: String,
    pub port: u16,
    pub user: String,
    pub pass: String,
    pub inbox: Vec<u8>,
    pub pos: usize,
    pub outbox: Vec<u8>,
}

impl Kdb {
    /// The read cursor never runs past the received bytes.
    pub open spec fn wf(&self) -> bool {
        self.pos <= self.inbox@.len()
    }

    pub fn new(host: String, port: u16, user: String, pass: String) -> (r: Kdb)
        ensures
            r.wf(),
            r.host == host,
            r.port == port,
            r.user == user,
            r.pass == pass,
            r.inbox@ == Seq::<u8>::empty(),
            r.pos == 0,
            r.outbox@ == Seq::<u8>::empty(),
    {
        Kdb { host, port, user, pass, inbox: Vec::new(), pos: 0, outbox: Vec::new() }
    }

    /// The bytes received from the transport, as far as they have been fed.
    pub fn reader(&self) -> (r: &Vec<u8>)
        ensures
            r == &self.inbox,
    {
        &self.inbox
    }

    /// The bytes queued for the transport and not yet taken.
    pub fn writer(&self) -> (r: &Vec<u8>)
        ensures
            r == &self.outbox,
    {
        &self.outbox
    }

    /// Drop the session's buffered state; the connection parameters stay.
    pub fn close(&mut self)
        ensures
            final(self).wf(),
            same_conn(*old(self), *final(self)),
            final(self).inbox@ == Seq::<u8>::empty(),
            final(self).pos == 0,
            final(self).outbox@ == Seq::<u8>::empty(),
    {
        self.inbox = Vec::new();
        self.pos = 0;
        self.outbox = Vec::new();
    }

    /// Append bytes that arrived from the transport.
    pub fn feed(&mut self, data: Vec<u8>)
        requires
            old(self).wf(),
        ensures
            final(self).wf(),
            same_conn(*old(self), *final(self)),
            final(self).inbox@ == old(self).inbox@ + data@,
            final(self).pos == old(self).pos,
            final(self).outbox == old(self).outbox,
    {
        let mut d = data;
        self.inbox.append(&mut d);
    }

    /// Take the queued outbound bytes, leaving the queue empty.
    pub fn take_output(&mut self) -> (r: Vec<u8>)
        requires
            old(self).wf(),
        ensures
            final(self).wf(),
            same_conn(*old(self), *final(self)),
            final(self).inbox == old(self).inbox,
            final(self).pos == old(self).pos,
            final(self).outbox@ == Seq::<u8>::empty(),
            r == old(self).outbox,
    {
        let mut out: Vec<u8> = Vec::new();
        core::mem::swap(&mut out, &mut self.outbox);
        out
    }

    /// Read one frame from the received bytes: the envelope, the type code,
    /// and the value. A frame with an unsupported type code is drained to its
    /// declared length and surfaces as an error value. If the frame was a
    /// request (kind Sync), exactly one acknowledgement frame carrying
    /// boolean true is queued before the value is returned: the peer blocks
    /// until it arrives. A short inbox leaves the session unchanged, so the
    /// caller can feed more bytes and try again.
    pub fn read(&mut self) -> (r: Result<KObj, KErr>)
        requires
            old(self).wf(),
        ensures
            final(self).wf(),
            same_conn(*old(self), *final(self)),
            final(self).inbox == old(self).inbox,
            match r {
                Ok(v) => {
                    &&& dec_frame(old(self).inbox@, old(self).pos as int) == Some(
                        (kobj_v(v), final(self).pos as int),
                    )
                    &&& old(self).pos < final(self).pos
                    &&& final(self).outbox@ == old(self).outbox@ + (if frame_acks(
                        old(self).inbox@,
                        old(self).pos as int,
                    ) {
                        ack_frame()
                    } else {
                        Seq::<u8>::empty()
                    })
                },
                Err(e) => {
                    &&& e == KErr::TruncatedStream
                    &&& dec_frame(old(self).inbox@, old(self).pos as int) is None
                    &&& *final(self) == *old(self)
                },
            },
    {
        proof {
            lemma_vec_len_bound(&self.inbox);
        }
        let header = match Header::read(&self.inbox, self.pos) {
            Ok(p) => p.0,
            Err(e) => {
                return Err(e);
            },
        };
        let p8 = self.pos + 8;
        if self.inbox.len() - p8 < 1 {
            return Err(KErr::TruncatedStream);
        }
        let msg_type = byte_as_code(self.inbox[p8]);
        proof {
            assert(frame_len(self.inbox@, self.pos as int) == header.length as int);
            assert(frame_unsupported(self.inbox@, self.pos as int) == (103 <= msg_type
                && msg_type <= 112));
        }
        if 103 <= msg_type && msg_type <= 112 {
            if header.length < 9 {
                return Err(KErr::TruncatedStream);
            }
            let drain = (header.length - 9) as usize;
            if self.inbox.len() - (p8 + 1) < drain {
                return Err(KErr::TruncatedStream);
            }
            self.pos = p8 + 1 + drain;
            let out = KObj::Error(unsupported_msg_vec());
            proof {
                assert(self.outbox@ =~= old(self).outbox@ + Seq::<u8>::empty());
            }
            return Ok(out);
        }
        match read_data(&self.inbox, p8 + 1, msg_type) {
            Ok(p) => {
                self.pos = p.1;
                if header.protocol == 1 {
                    let ack = KObj::Atom(KType::Boolean(true));
                    proof {
                        assert(crate::kobj::obj_bytes(kobj_v(ack)) =~= seq![1u8]);
                        assert(sendable(kobj_v(ack)));
                    }
                    match push_frame(&mut self.outbox, 2, &ack) {
                        Ok(_) => {},
                        Err(_) => {
                            proof {
                                assert(false);
                            }
                        },
                    }
                } else {
                    proof {
                        assert(self.outbox@ =~= old(self).outbox@ + Seq::<u8>::empty());
                    }
                }
                Ok(p.0)
            },
            Err(e) => Err(e),
        }
    }

    /// Encode the value and queue it as a fire-and-forget frame (kind Async).
    pub fn send_async(&mut self, data: &KObj) -> (r: Result<(), KErr>)
        requires
            old(self).wf(),
        ensures
            final(self).wf(),
            same_conn(*old(self), *final(self)),
            final(self).inbox == old(self).inbox,
            final(self).pos == old(self).pos,
            match r {
                Ok(_) => {
                    &&& sendable(kobj_v(*data))
                    &&& final(self).outbox@ == old(self).outbox@ + frame_bytes(0, kobj_v(*data))
                },
                Err(e) => {
                    &&& final(self).outbox == old(self).outbox
                    &&& !sendable(kobj_v(*data))
                    &&& e == (if !(crate::kobj::enc_ok(kobj_v(*data)) && crate::kobj::has_code(
                        kobj_v(*data),
                    )) {
                        KErr::Unencodable
                    } else {
                        KErr::TooLong
                    })
                },
            },
    {
        push_frame(&mut self.outbox, 0, data)
    }

    /// Encode the value and queue it as the response half of a received
    /// request (kind Response).
    pub fn send_response(&mut self, data: &KObj) -> (r: Result<(), KErr>)
        requires
            old(self).wf(),
        ensures
            final(self).wf(),
            same_conn(*old(self), *final(self)),
            final(self).inbox == old(self).inbox,
            final(self).pos == old(self).pos,
            match r {
                Ok(_) => {
                    &&& sendable(kobj_v(*data))
                    &&& final(self).outbox@ == old(self).outbox@ + frame_bytes(2, kobj_v(*data))
                },
                Err(e) => {
                    &&& final(self).outbox == old(self).outbox
                    &&& !sendable(kobj_v(*data))
                    &&& e == (if !(crate::kobj::enc_ok(kobj_v(*data)) && crate::kobj::has_code(
                        kobj_v(*data),
                    )) {
                        KErr::Unencodable
                    } else {
                        KErr::TooLong
                    })
                },
            },
    {
        push_frame(&mut self.outbox, 2, data)
    }

    /// Encode the value, queue it as a request frame (kind Sync), and read
    /// the reply from the received bytes. A reply not yet received leaves the
    /// request queued and the cursor unchanged: feed the transport bytes and
    /// call `read` for the reply.
    pub fn send_sync(&mut self, data: &KObj) -> (r: Result<KObj, KErr>)
        requires
            old(self).wf(),
        ensures
            final(self).wf(),
            same_conn(*old(self), *final(self)),
            final(self).inbox == old(self).inbox,
            match r {
                Ok(v) => {
                    &&& sendable(kobj_v(*data))
                    &&& dec_frame(old(self).inbox@, old(self).pos as int) == Some(
                        (kobj_v(v), final(self).pos as int),
                    )
                    &&& final(self).outbox@ == old(self).outbox@ + frame_bytes(1, kobj_v(*data))
                        + (if frame_acks(old(self).inbox@, old(self).pos as int) {
                        ack_frame()
                    } else {
                        Seq::<u8>::empty()
                    })
                },
                Err(e) => {
                    if e == KErr::TruncatedStream {
                        &&& sendable(kobj_v(*data))
                        &&& dec_frame(old(self).inbox@, old(self).pos as int) is None
                        &&& final(self).outbox@ == old(self).outbox@ + frame_bytes(
                            1,
                            kobj_v(*data),
                        )
                        &&& final(self).pos == old(self).pos
                    } else {
                        &&& !sendable(kobj_v(*data))
                        &&& *final(self) == *old(self)
                        &&& e == (if !(crate::kobj::enc_ok(kobj_v(*data))
                            && crate::kobj::has_code(kobj_v(*data))) {
                            KErr::Unencodable
                        } else {
                            KErr::TooLong
                        })
                    }
                },
            },
    {
        match push_frame(&mut self.outbox, 1, data) {
            Ok(_) => {},
            Err(e) => {
                return Err(e);
            },
        }
        self.read()
    }
}


} // verus!
