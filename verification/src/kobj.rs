//! The composite value model: atoms, uniform vectors, self-describing generic
//! lists, dictionaries, tables, lambdas and protocol errors, with the recursive
//! encoder that lays a value out exactly as the wire expects it.
use vstd::prelude::*;

verus! {

broadcast use vstd::seq::axiom_seq_index_decreases, vstd::std_specs::vec::group_vec_axioms;

use crate::ktype::{KType, KTypeV, scalar_code, scalar_wf, atom_bytes};
use crate::intbytes::{ule4_bytes, push_u32_le};

/// How a codec call fails: a short or exhausted byte stream; a value that
/// cannot be encoded as it stands (an empty vector has no derivable type
/// code, a GUID holds other than 16 bytes, a symbol embeds the NUL that
/// terminates it, a string outgrows its signed 32-bit length field); a frame
/// too large for the signed 32-bit length field; or key/value arity that does
/// not match.
#[derive(Debug, Clone, Copy, PartialEq, Eq)]
pub enum KErr {
    TruncatedStream,
    Unencodable,
    TooLong,
    LengthMismatch,
}

#[derive(Debug, PartialEq)]
pub enum KObj {
    Atom(KType),
    List(Vec<KObj>),
    GenericList(Vec<KObj>),
    Dict(Vec<KObj>, Vec<KObj>),
    Table(Vec<KObj>, Vec<KObj>),
    Error(Vec<u8>),
    Lambda(Vec<u8>),
}

/// The mathematical model of a value: the same shape over `Seq`.
pub enum KObjV {
    Atom(KTypeV),
    List(Seq<KObjV>),
    GenericList(Seq<KObjV>),
    Dict(Seq<KObjV>, Seq<KObjV>),
    Table(Seq<KObjV>, Seq<KObjV>),
    Error(Seq<u8>),
    Lambda(Seq<u8>),
}

pub open spec fn kobj_v(v: KObj) -> KObjV
    decreases v, 0int,
    via kobj_v_via
{
    match v {
        KObj::Atom(k) => KObjV::Atom(k@),
        KObj::List(t) => KObjV::List(kobjs_v(t@, 0)),
        KObj::GenericList(t) => KObjV::GenericList(kobjs_v(t@, 0)),
        KObj::Dict(a, b) => KObjV::Dict(kobjs_v(a@, 0), kobjs_v(b@, 0)),
        KObj::Table(a, b) => KObjV::Table(kobjs_v(a@, 0), kobjs_v(b@, 0)),
        KObj::Error(e) => KObjV::Error(e@),
        KObj::Lambda(l) => KObjV::Lambda(l@),
    }
}

pub open spec fn kobjs_v(s: Seq<KObj>, i: int) -> Seq<KObjV>
    decreases s, s.len() - i,
{
    if i < 0 || i >= s.len() {
        Seq::empty()
    } else {
        seq![kobj_v(s[i])] + kobjs_v(s, i + 1)
    }
}

#[via_fn]
proof fn kobj_v_via(v: KObj) {
    match v {
        KObj::List(t) => {
            assert(decreases_to!(t => t@));
        },
        KObj::GenericList(t) => {
            assert(decreases_to!(t => t@));
        },
        KObj::Dict(a, b) => {
            assert(decreases_to!(a => a@));
            assert(decreases_to!(b => b@));
        },
        KObj::Table(a, b) => {
            assert(decreases_to!(a => a@));
            assert(decreases_to!(b => b@));
        },
        _ => {},
    }
}

pub proof fn lemma_kobjs_len(s: Seq<KObj>, i: int)
    ensures
        kobjs_v(s, i).len() == if i < 0 || i >= s.len() {
            0
        } else {
            s.len() - i
        },
    decreases s.len() - i,
{
    if 0 <= i && i < s.len() {
        lemma_kobjs_len(s, i + 1);
    }
}

pub proof fn lemma_kobjs_index(s: Seq<KObj>, i: int, j: int)
    requires
        0 <= i <= j < s.len(),
    ensures
        kobjs_v(s, i).len() == s.len() - i,
        kobjs_v(s, i)[j - i] == kobj_v(s[j]),
    decreases j - i,
{
    lemma_kobjs_len(s, i);
    if i < j {
        lemma_kobjs_index(s, i + 1, j);
    }
}

/// The type byte that announces a value, as the signed protocol code. A
/// vector takes the negation of its first element's atom code; every other
/// composite has a fixed code.
pub open spec fn obj_code(v: KObjV) -> i8 {
    match v {
        KObjV::Atom(k) => scalar_code(k),
        KObjV::List(t) => if t.len() > 0 {
            match t[0] {
                KObjV::Atom(k) => (0 - scalar_code(k)) as i8,
                _ => 0i8,
            }
        } else {
            0i8
        },
        KObjV::GenericList(_) => 0i8,
        KObjV::Dict(_, _) => 99i8,
        KObjV::Table(_, _) => 98i8,
        KObjV::Lambda(_) => 100i8,
        KObjV::Error(_) => 0i8,
    }
}

/// A signed code as the byte that carries it.
pub open spec fn code_to_byte(c: i8) -> u8 {
    if c >= 0 {
        c as u8
    } else {
        (c + 256) as u8
    }
}

/// A type byte read back as the signed code.
pub open spec fn byte_to_code(b: u8) -> i8 {
    if b < 128 {
        b as i8
    } else {
        (b - 256) as i8
    }
}

/// Whether a type code can be derived for the value at all: an empty vector
/// has no first element to take it from.
pub open spec fn has_code(v: KObjV) -> bool {
    match v {
        KObjV::List(t) => t.len() > 0,
        _ => true,
    }
}

/// Everything the encoder needs of a value: well-formed scalars, list lengths
/// that fit the signed 32-bit count field, and a derivable type code for each
/// generic-list element (each is announced by its own type byte).
pub open spec fn enc_ok(v: KObjV) -> bool
    decreases v, 0int,
{
    match v {
        KObjV::Atom(k) => scalar_wf(k),
        KObjV::List(t) => t.len() <= 0x7fff_ffff && enc_ok_from(t, 0),
        KObjV::GenericList(t) => t.len() <= 0x7fff_ffff && enc_ok_from(t, 0) && codes_from(t, 0),
        KObjV::Dict(_, _) => true,
        KObjV::Table(_, _) => true,
        KObjV::Lambda(_) => true,
        KObjV::Error(_) => true,
    }
}

pub open spec fn enc_ok_from(s: Seq<KObjV>, i: int) -> bool
    decreases s, s.len() - i,
{
    if i < 0 || i >= s.len() {
        true
    } else {
        enc_ok(s[i]) && enc_ok_from(s, i + 1)
    }
}

pub open spec fn codes_from(s: Seq<KObjV>, i: int) -> bool
    decreases s.len() - i,
{
    if i < 0 || i >= s.len() {
        true
    } else {
        has_code(s[i]) && codes_from(s, i + 1)
    }
}

pub proof fn lemma_enc_ok_at(s: Seq<KObjV>, i: int, j: int)
    requires
        0 <= i <= j < s.len(),
        enc_ok_from(s, i),
    ensures
        enc_ok(s[j]),
    decreases j - i,
{
    if i < j {
        lemma_enc_ok_at(s, i + 1, j);
    }
}

pub proof fn lemma_codes_at(s: Seq<KObjV>, i: int, j: int)
    requires
        0 <= i <= j < s.len(),
        codes_from(s, i),
    ensures
        has_code(s[j]),
    decreases j - i,
{
    if i < j {
        lemma_codes_at(s, i + 1, j);
    }
}

/// The payload bytes of a value, exactly as the encoder emits them. Vectors
/// and generic lists carry an attribute byte, a 32-bit count and then their
/// elements; a generic list announces each element with its type byte; the
/// outbound encoder does not serialize dictionaries, tables, lambdas or
/// errors (their payloads are empty).
pub open spec fn obj_bytes(v: KObjV) -> Seq<u8>
    decreases v, 0int,
{
    match v {
        KObjV::Atom(k) => atom_bytes(k),
        KObjV::List(t) => seq![0u8] + ule4_bytes(t.len() as u32) + list_bytes(t, 0),
        KObjV::GenericList(t) => seq![0u8] + ule4_bytes(t.len() as u32) + glist_bytes(t, 0),
        KObjV::Dict(_, _) => Seq::empty(),
        KObjV::Table(_, _) => Seq::empty(),
        KObjV::Lambda(_) => Seq::empty(),
        KObjV::Error(_) => Seq::empty(),
    }
}

pub open spec fn list_bytes(s: Seq<KObjV>, i: int) -> Seq<u8>
    decreases s, s.len() - i,
{
    if i < 0 || i >= s.len() {
        Seq::empty()
    } else {
        obj_bytes(s[i]) + list_bytes(s, i + 1)
    }
}

pub open spec fn glist_bytes(s: Seq<KObjV>, i: int) -> Seq<u8>
    decreases s, s.len() - i,
{
    if i < 0 || i >= s.len() {
        Seq::empty()
    } else {
        seq![code_to_byte(obj_code(s[i]))] + obj_bytes(s[i]) + glist_bytes(s, i + 1)
    }
}

/// The fresh value each type code constructs before its payload is read:
/// the dispatch table shared by encoder and decoder.
pub open spec fn default_obj(code: i8) -> KObjV {
    if 0 < code && code <= 19 && code != 10 {
        KObjV::List(Seq::empty())
    } else if code == 0 {
        KObjV::GenericList(Seq::empty())
    } else if code == -1 {
        KObjV::Atom(KTypeV::Boolean(false))
    } else if code == -2 {
        KObjV::Atom(KTypeV::Guid(Seq::new(16, |i: int| 0u8)))
    } else if code == -4 {
        KObjV::Atom(KTypeV::Byte(0))
    } else if code == -5 {
        KObjV::Atom(KTypeV::Short(0))
    } else if code == -6 {
        KObjV::Atom(KTypeV::Int(0))
    } else if code == -7 {
        KObjV::Atom(KTypeV::Long(0))
    } else if code == -8 {
        KObjV::Atom(KTypeV::Real(0))
    } else if code == -9 {
        KObjV::Atom(KTypeV::Float(0))
    } else if code == -10 {
        KObjV::Atom(KTypeV::Char(32))
    } else if code == 10 {
        KObjV::Atom(KTypeV::String(Seq::empty()))
    } else if code == -11 {
        KObjV::Atom(KTypeV::Symbol(Seq::empty()))
    } else if code == -12 {
        KObjV::Atom(KTypeV::Timestamp(0))
    } else if code == -13 {
        KObjV::Atom(KTypeV::Month(0))
    } else if code == -14 {
        KObjV::Atom(KTypeV::Date(0))
    } else if code == -15 {
        KObjV::Atom(KTypeV::Datetime(0))
    } else if code == -16 {
        KObjV::Atom(KTypeV::Timespan(0))
    } else if code == -17 {
        KObjV::Atom(KTypeV::Minute(0))
    } else if code == -18 {
        KObjV::Atom(KTypeV::Second(0))
    } else if code == -19 {
        KObjV::Atom(KTypeV::Time(0))
    } else if code == 99 {
        KObjV::Dict(Seq::empty(), Seq::empty())
    } else if code == 98 {
        KObjV::Table(Seq::empty(), Seq::empty())
    } else if code == 100 {
        KObjV::Lambda(Seq::empty())
    } else if code == 101 {
        KObjV::Atom(KTypeV::Unary(0))
    } else if code == 102 {
        KObjV::Atom(KTypeV::Operator(0))
    } else {
        KObjV::Error(Seq::empty())
    }
}

impl KObj {
    /// The fresh value a type code constructs, with zero and empty payloads.
    pub fn new(code: i8) -> (r: KObj)
        ensures
            kobj_v(r) == default_obj(code),
    {
        let r = if 0 < code && code <= 19 && code != 10 {
            KObj::List(Vec::new())
        } else if code == 0 {
            KObj::GenericList(Vec::new())
        } else if code == -1 {
            KObj::Atom(KType::Boolean(false))
        } else if code == -2 {
            let mut zeros: Vec<u8> = Vec::new();
            let mut i: usize = 0;
            while i < 16
                invariant
                    i <= 16,
                    zeros@.len() == i,
                    forall|j: int| 0 <= j < i ==> zeros@[j] == 0u8,
                decreases 16 - i,
            {
                zeros.push(0);
                i = i + 1;
            }
            assert(zeros@ =~= Seq::new(16, |i: int| 0u8));
            KObj::Atom(KType::Guid(zeros))
        } else if code == -4 {
            KObj::Atom(KType::Byte(0))
        } else if code == -5 {
            KObj::Atom(KType::Short(0))
        } else if code == -6 {
            KObj::Atom(KType::Int(0))
        } else if code == -7 {
            KObj::Atom(KType::Long(0))
        } else if code == -8 {
            KObj::Atom(KType::Real(0))
        } else if code == -9 {
            KObj::Atom(KType::Float(0))
        } else if code == -10 {
            KObj::Atom(KType::Char(32))
        } else if code == 10 {
            KObj::Atom(KType::String(Vec::new()))
        } else if code == -11 {
            KObj::Atom(KType::Symbol(Vec::new()))
        } else if code == -12 {
            KObj::Atom(KType::Timestamp(0))
        } else if code == -13 {
            KObj::Atom(KType::Month(0))
        } else if code == -14 {
            KObj::Atom(KType::Date(0))
        } else if code == -15 {
            KObj::Atom(KType::Datetime(0))
        } else if code == -16 {
            KObj::Atom(KType::Timespan(0))
        } else if code == -17 {
            KObj::Atom(KType::Minute(0))
        } else if code == -18 {
            KObj::Atom(KType::Second(0))
        } else if code == -19 {
            KObj::Atom(KType::Time(0))
        } else if code == 99 {
            KObj::Dict(Vec::new(), Vec::new())
        } else if code == 98 {
            KObj::Table(Vec::new(), Vec::new())
        } else if code == 100 {
            KObj::Lambda(Vec::new())
        } else if code == 101 {
            KObj::Atom(KType::Unary(0))
        } else if code == 102 {
            KObj::Atom(KType::Operator(0))
        } else {
            KObj::Error(Vec::new())
        };
        r
    }

    /// The type byte announcing this value; an empty vector has none, which
    /// is a caller error the sending functions screen out first.
    pub fn type_as_bytes(&self) -> (r: u8)
        requires
            has_code(kobj_v(*self)),
        ensures
            r == code_to_byte(obj_code(kobj_v(*self))),
    {
        match self {
            KObj::Atom(t) => {
                let c = t.type_as_code();
                if c >= 0 {
                    c as u8
                } else {
                    ((c as i16) + 256) as u8
                }
            },
            KObj::List(t) => {
                proof {
                    lemma_kobjs_len(t@, 0);
                    lemma_kobjs_index(t@, 0, 0);
                }
                match &t[0] {
                    KObj::Atom(a) => {
                        let c = a.type_as_code();
                        let n = 0i16 - (c as i16);
                        if n >= 0 {
                            n as u8
                        } else {
                            (n + 256) as u8
                        }
                    },
                    _ => 0u8,
                }
            },
            KObj::GenericList(_) => 0u8,
            KObj::Dict(_, _) => 99u8,
            KObj::Table(_, _) => 98u8,
            KObj::Lambda(_) => 100u8,
            KObj::Error(_) => 0u8,
        }
    }

    /// Encode this value's payload bytes.
    pub fn serialize(&self) -> (r: Vec<u8>)
        requires
            enc_ok(kobj_v(*self)),
        ensures
            r@ == obj_bytes(kobj_v(*self)),
        decreases *self,
    {
        match self {
            KObj::Atom(t) => t.serialize(),
            KObj::List(t) => {
                let ghost vs = kobjs_v(t@, 0);
                proof {
                    lemma_kobjs_len(t@, 0);
                }
                let mut out: Vec<u8> = Vec::new();
                out.push(0);
                push_u32_le(&mut out, t.len() as u32);
                let ghost header = out@;
                let mut i: usize = 0;
                while i < t.len()
                    invariant
                        *self == KObj::List(*t),
                        enc_ok(kobj_v(*self)),
                        i <= t@.len(),
                        vs == kobjs_v(t@, 0),
                        vs.len() == t@.len(),
                        header + list_bytes(vs, 0) == out@ + list_bytes(vs, i as int),
                    decreases t@.len() - i,
                {
                    proof {
                        assert(decreases_to!(*self => (*self)->List_0));
                        assert((*self)->List_0 == *t);
                        assert(decreases_to!(t => t@));
                        assert(decreases_to!(t@ => t@[i as int]));
                        lemma_kobjs_index(t@, 0, i as int);
                        lemma_enc_ok_at(vs, 0, i as int);
                    }
                    let mut piece = t[i].serialize();
                    let ghost old_out = out@;
                    out.append(&mut piece);
                    proof {
                        assert(list_bytes(vs, i as int) == obj_bytes(vs[i as int]) + list_bytes(
                            vs,
                            i + 1,
                        ));
                        assert(old_out + list_bytes(vs, i as int) =~= out@ + list_bytes(vs, i + 1));
                    }
                    i = i + 1;
                }
                proof {
                    assert(header + list_bytes(vs, 0) =~= out@);
                    assert(header =~= seq![0u8] + ule4_bytes(vs.len() as u32));
                    assert(out@ =~= obj_bytes(kobj_v(*self)));
                }
                out
            },
            KObj::GenericList(t) => {
                let ghost vs = kobjs_v(t@, 0);
                proof {
                    lemma_kobjs_len(t@, 0);
                }
                let mut out: Vec<u8> = Vec::new();
                out.push(0);
                push_u32_le(&mut out, t.len() as u32);
                let ghost header = out@;
                let mut i: usize = 0;
                while i < t.len()
                    invariant
                        *self == KObj::GenericList(*t),
                        enc_ok(kobj_v(*self)),
                        i <= t@.len(),
                        vs == kobjs_v(t@, 0),
                        vs.len() == t@.len(),
                        header + glist_bytes(vs, 0) == out@ + glist_bytes(vs, i as int),
                    decreases t@.len() - i,
                {
                    proof {
                        assert(decreases_to!(*self => (*self)->GenericList_0));
                        assert((*self)->GenericList_0 == *t);
                        assert(decreases_to!(t => t@));
                        assert(decreases_to!(t@ => t@[i as int]));
                        lemma_kobjs_index(t@, 0, i as int);
                        lemma_enc_ok_at(vs, 0, i as int);
                        lemma_codes_at(vs, 0, i as int);
                    }
                    let code = t[i].type_as_bytes();
                    let mut piece = t[i].serialize();
                    let ghost old_out = out@;
                    out.push(code);
                    out.append(&mut piece);
                    proof {
                        assert(glist_bytes(vs, i as int) == seq![
                            code_to_byte(obj_code(vs[i as int])),
                        ] + obj_bytes(vs[i as int]) + glist_bytes(vs, i + 1));
                        assert(old_out + glist_bytes(vs, i as int) =~= out@ + glist_bytes(
                            vs,
                            i + 1,
                        ));
                    }
                    i = i + 1;
                }
                proof {
                    assert(header + glist_bytes(vs, 0) =~= out@);
                    assert(header =~= seq![0u8] + ule4_bytes(vs.len() as u32));
                    assert(out@ =~= obj_bytes(kobj_v(*self)));
                }
                out
            },
            KObj::Dict(_, _) => Vec::new(),
            KObj::Table(_, _) => Vec::new(),
            KObj::Lambda(_) => Vec::new(),
            KObj::Error(_) => Vec::new(),
        }
    }

    /// Decode an atom payload window through this value's kind; any other
    /// shape hands back an empty vector, as the table-driven caller never
    /// reaches this path for composites.
    pub fn deserialize(&self, data: &Vec<u8>) -> (r: KObj)
        requires
            match kobj_v(*self) {
                KObjV::Atom(k) => match k {
                    KTypeV::String(_) | KTypeV::Symbol(_) => true,
                    _ => data@.len() == crate::ktype::atom_fixed_width(k),
                },
                _ => true,
            },
        ensures
            kobj_v(r) == match kobj_v(*self) {
                KObjV::Atom(k) => KObjV::Atom(crate::ktype::atom_from_window(k, data@)),
                _ => KObjV::List(Seq::empty()),
            },
    {
        match self {
            KObj::Atom(t) => KObj::Atom(t.deserialize(data)),
            _ => KObj::List(Vec::new()),
        }
    }

    /// Pair ordered keys with their values; the arities must match.
    pub fn dict(keys: Vec<KObj>, vals: Vec<KObj>) -> (r: Result<KObj, KErr>)
        ensures
            keys@.len() == vals@.len() ==> r == Ok::<KObj, KErr>(KObj::Dict(keys, vals)),
            keys@.len() != vals@.len() ==> r == Err::<KObj, KErr>(KErr::LengthMismatch),
    {
        if keys.len() == vals.len() {
            Ok(KObj::Dict(keys, vals))
        } else {
            Err(KErr::LengthMismatch)
        }
    }

    /// Build a column-oriented table from column names and column data; the
    /// arities must match, and a mismatch is rejected before anything is
    /// serialized.
    pub fn table(columns: Vec<KObj>, data: Vec<KObj>) -> (r: Result<KObj, KErr>)
        ensures
            columns@.len() == data@.len() ==> r == Ok::<KObj, KErr>(KObj::Table(columns, data)),
            columns@.len() != data@.len() ==> r == Err::<KObj, KErr>(KErr::LengthMismatch),
    {
        if columns.len() == data.len() {
            Ok(KObj::Table(columns, data))
        } else {
            Err(KErr::LengthMismatch)
        }
    }
}



pub proof fn lemma_kobjs_push(s: Seq<KObj>, x: KObj, i: int)
    requires
        0 <= i <= s.len(),
    ensures
        kobjs_v(s.push(x), i) == kobjs_v(s, i).push(kobj_v(x)),
    decreases s.len() - i,
{
    lemma_kobjs_len(s, i);
    lemma_kobjs_len(s.push(x), i);
    if i < s.len() {
        lemma_kobjs_push(s, x, i + 1);
        assert(s.push(x)[i] == s[i]);
        assert(kobjs_v(s.push(x), i) =~= kobjs_v(s, i).push(kobj_v(x)));
    } else {
        assert(s.push(x)[i] == x);
        assert(kobjs_v(s.push(x), i) =~= kobjs_v(s, i).push(kobj_v(x)));
    }
}

/// A type byte read back as the signed protocol code.
pub fn byte_as_code(b: u8) -> (c: i8)
    ensures
        c == byte_to_code(b),
{
    if b < 128 {
        b as i8
    } else {
        let x: i16 = (b as i16) - 256;
        x as i8
    }
}

impl KObj {
    /// Whether a type code can be derived for this value.
    pub fn check_has_code(&self) -> (b: bool)
        ensures
            b == has_code(kobj_v(*self)),
    {
        match self {
            KObj::List(t) => {
                proof {
                    lemma_kobjs_len(t@, 0);
                }
                t.len() > 0
            },
            _ => true,
        }
    }

    /// Whether the encoder accepts this value; mirrors `enc_ok` exactly.
    pub fn check_enc_ok(&self) -> (b: bool)
        ensures
            b == enc_ok(kobj_v(*self)),
        decreases *self,
    {
        match self {
            KObj::Atom(k) => match k {
                KType::Guid(bs) => bs.len() == 16,
                KType::String(bs) => bs.len() <= 0x7fff_ffff,
                KType::Symbol(bs) => {
                    let mut i: usize = 0;
                    let mut ok = true;
                    while i < bs.len()
                        invariant
                            *self == KObj::Atom(KType::Symbol(*bs)),
                            i <= bs@.len(),
                            ok == (forall|j: int| 0 <= j < i ==> bs@[j] != 0),
                        decreases bs@.len() - i,
                    {
                        if bs[i] == 0 {
                            ok = false;
                        }
                        i = i + 1;
                    }
                    assert(kobj_v(*self) == KObjV::Atom(KTypeV::Symbol(bs@)));
                    assert(enc_ok(KObjV::Atom(KTypeV::Symbol(bs@))) == scalar_wf(
                        KTypeV::Symbol(bs@),
                    ));
                    assert(ok == scalar_wf(KTypeV::Symbol(bs@)));
                    ok
                },
                _ => true,
            },
            KObj::List(t) => {
                let ghost vs = kobjs_v(t@, 0);
                proof {
                    lemma_kobjs_len(t@, 0);
                }
                if t.len() > 0x7fff_ffff {
                    return false;
                }
                let mut i: usize = 0;
                let mut ok = true;
                while i < t.len()
                    invariant
                        *self == KObj::List(*t),
                        i <= t@.len(),
                        vs == kobjs_v(t@, 0),
                        vs.len() == t@.len(),
                        enc_ok_from(vs, 0) == (ok && enc_ok_from(vs, i as int)),
                    decreases t@.len() - i,
                {
                    proof {
                        assert(decreases_to!(*self => (*self)->List_0));
                        assert((*self)->List_0 == *t);
                        assert(decreases_to!(t => t@));
                        assert(decreases_to!(t@ => t@[i as int]));
                        lemma_kobjs_index(t@, 0, i as int);
                    }
                    if !t[i].check_enc_ok() {
                        ok = false;
                    }
                    i = i + 1;
                }
                assert(ok == enc_ok(kobj_v(*self)));
                ok
            },
            KObj::GenericList(t) => {
                let ghost vs = kobjs_v(t@, 0);
                proof {
                    lemma_kobjs_len(t@, 0);
                }
                if t.len() > 0x7fff_ffff {
                    return false;
                }
                let mut i: usize = 0;
                let mut ok = true;
                while i < t.len()
                    invariant
                        *self == KObj::GenericList(*t),
                        i <= t@.len(),
                        vs == kobjs_v(t@, 0),
                        vs.len() == t@.len(),
                        (enc_ok_from(vs, 0) && codes_from(vs, 0)) == (ok && enc_ok_from(
                            vs,
                            i as int,
                        ) && codes_from(vs, i as int)),
                    decreases t@.len() - i,
                {
                    proof {
                        assert(decreases_to!(*self => (*self)->GenericList_0));
                        assert((*self)->GenericList_0 == *t);
                        assert(decreases_to!(t => t@));
                        assert(decreases_to!(t@ => t@[i as int]));
                        lemma_kobjs_index(t@, 0, i as int);
                    }
                    if !t[i].check_enc_ok() {
                        ok = false;
                    }
                    if !t[i].check_has_code() {
                        ok = false;
                    }
                    i = i + 1;
                }
                assert(ok == enc_ok(kobj_v(*self)));
                ok
            },
            _ => true,
        }
    }
}

} // verus!
