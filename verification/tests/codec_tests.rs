use rsq::kdb::read_data;
use rsq::{KErr, KObj, KType, Kdb};

fn setup_kdb() -> Kdb {
    Kdb::new("localhost".to_string(), 1234, "user".to_string(), "pass".to_string())
}

/// Wrap a payload in an envelope of the given kind and type code.
fn frame(kind: u8, code: u8, payload: &[u8]) -> Vec<u8> {
    let mut out = vec![1u8, kind, 0, 0];
    let total = (9 + payload.len()) as u32;
    out.extend_from_slice(&total.to_le_bytes());
    out.push(code);
    out.extend_from_slice(payload);
    out
}

/// Encode an object, then decode its payload under its own type code; the
/// decode must give back the object and consume every byte.
fn assert_round_trip(obj: KObj) {
    let bytes = obj.serialize();
    let code = obj.type_as_bytes() as i8;
    let (back, end) = read_data(&bytes, 0, code).unwrap();
    assert_eq!(back, obj);
    assert_eq!(end, bytes.len());
}

#[test]
fn round_trip_boolean_byte_char() {
    assert_round_trip(KObj::Atom(KType::Boolean(false)));
    assert_round_trip(KObj::Atom(KType::Boolean(true)));
    assert_round_trip(KObj::Atom(KType::Byte(0)));
    assert_round_trip(KObj::Atom(KType::Byte(255)));
    assert_round_trip(KObj::Atom(KType::Char(b'q')));
    assert_round_trip(KObj::Atom(KType::Char(0)));
}

#[test]
fn round_trip_integers() {
    for x in [0i16, -1, 1, i16::MIN, i16::MAX] {
        assert_round_trip(KObj::Atom(KType::Short(x)));
    }
    for x in [0i32, -1, 1, i32::MIN, i32::MAX] {
        assert_round_trip(KObj::Atom(KType::Int(x)));
    }
    for x in [0i64, -1, 1, i64::MIN, i64::MAX] {
        assert_round_trip(KObj::Atom(KType::Long(x)));
    }
}

#[test]
fn round_trip_float_bits() {
    for x in [0.0f32, -1.5, f32::MAX, f32::NEG_INFINITY] {
        assert_round_trip(KObj::Atom(KType::Real(x.to_bits())));
    }
    for x in [0.0f64, 653.20, f64::MIN_POSITIVE, f64::NAN] {
        assert_round_trip(KObj::Atom(KType::Float(x.to_bits())));
    }
}

#[test]
fn round_trip_guid() {
    assert_round_trip(KObj::Atom(KType::Guid(vec![0u8; 16])));
    assert_round_trip(KObj::Atom(KType::Guid(vec![0xFFu8; 16])));
}

#[test]
fn round_trip_text() {
    assert_round_trip(KObj::Atom(KType::String(Vec::new())));
    assert_round_trip(KObj::Atom(KType::String("héllo, wörld".as_bytes().to_vec())));
    assert_round_trip(KObj::Atom(KType::Symbol("Zürich".as_bytes().to_vec())));
    assert_round_trip(KObj::Atom(KType::Symbol(Vec::new())));
}

#[test]
fn round_trip_temporal() {
    // Values around the day-count epoch offset, which encodes as zero.
    for d in [730119i32, 730118, 730120, 0, -1] {
        assert_round_trip(KObj::Atom(KType::Date(d)));
    }
    for n in [0i64, -1, 946_684_800_000_000_000, i64::MIN, i64::MAX] {
        assert_round_trip(KObj::Atom(KType::Timestamp(n)));
        assert_round_trip(KObj::Atom(KType::Datetime(n)));
    }
    for t in [0i32, 1, 86_399_999] {
        assert_round_trip(KObj::Atom(KType::Time(t)));
    }
    assert_round_trip(KObj::Atom(KType::Unary(41)));
    assert_round_trip(KObj::Atom(KType::Operator(1)));
}

#[test]
fn date_epoch_wire_value() {
    // A day count equal to the epoch offset encodes as zero on the wire.
    let bytes = KObj::Atom(KType::Date(730_119)).serialize();
    assert_eq!(bytes, vec![0, 0, 0, 0]);
    // One day later encodes as one.
    let bytes = KObj::Atom(KType::Date(730_120)).serialize();
    assert_eq!(bytes, vec![1, 0, 0, 0]);
}

#[test]
fn timestamp_epoch_wire_value() {
    // The protocol epoch instant encodes as zero nanoseconds.
    let bytes = KObj::Atom(KType::Timestamp(946_684_800_000_000_000)).serialize();
    assert_eq!(bytes, vec![0; 8]);
}

#[test]
fn month_decodes_as_date() {
    // A month on the wire comes back as a date, thirty days to the month.
    let (back, end) = read_data(&vec![1, 0, 0, 0], 0, -13).unwrap();
    assert_eq!(back, KObj::Atom(KType::Date(30 + 730_119)));
    assert_eq!(end, 4);
}

#[test]
fn minute_second_timespan_decode() {
    let (back, _) = read_data(&vec![90, 0, 0, 0], 0, -17).unwrap();
    assert_eq!(back, KObj::Atom(KType::Minute(90)));
    let (back, _) = read_data(&vec![61, 0, 0, 0], 0, -18).unwrap();
    assert_eq!(back, KObj::Atom(KType::Second(61)));
    let (back, _) = read_data(&vec![1, 0, 0, 0, 0, 0, 0, 0], 0, -16).unwrap();
    assert_eq!(back, KObj::Atom(KType::Timespan(1)));
}

#[test]
fn vector_round_trip_and_consumption() {
    // A vector of five shorts: its payload is 1 attribute byte, 4 count
    // bytes, and exactly five 2-byte elements.
    let v = KObj::List(vec![
        KObj::Atom(KType::Short(1)),
        KObj::Atom(KType::Short(-2)),
        KObj::Atom(KType::Short(3)),
        KObj::Atom(KType::Short(i16::MIN)),
        KObj::Atom(KType::Short(i16::MAX)),
    ]);
    let bytes = v.serialize();
    assert_eq!(bytes.len(), 1 + 4 + 5 * 2);
    assert_eq!(v.type_as_bytes(), 5);
    assert_round_trip(v);
    // A vector of symbols round-trips too (its elements frame themselves).
    assert_round_trip(KObj::List(vec![
        KObj::Atom(KType::Symbol(b"trade".to_vec())),
        KObj::Atom(KType::Symbol(b"quote".to_vec())),
    ]));
}

#[test]
fn vector_code_from_first_element() {
    // The vector's type code is the negation of its first element's code.
    let v = KObj::List(vec![KObj::Atom(KType::Long(42))]);
    assert_eq!(v.type_as_bytes(), 7);
    let v = KObj::List(vec![KObj::Atom(KType::Symbol(b"a".to_vec()))]);
    assert_eq!(v.type_as_bytes(), 11);
}

#[test]
fn generic_list_self_description() {
    // A mixed list: a symbol atom, an int atom, and a nested generic list,
    // each element carrying its own type code.
    let v = KObj::GenericList(vec![
        KObj::Atom(KType::Symbol(b"sym".to_vec())),
        KObj::Atom(KType::Int(-7)),
        KObj::GenericList(vec![
            KObj::Atom(KType::Byte(9)),
            KObj::Atom(KType::String(b"abc".to_vec())),
        ]),
    ]);
    assert_eq!(v.type_as_bytes(), 0);
    assert_round_trip(v);
    assert_round_trip(KObj::GenericList(Vec::new()));
}

#[test]
fn envelope_length_field() {
    // The length field always equals 8 + 1 + payload length.
    let mut kdb = setup_kdb();
    kdb.send_async(&KObj::Atom(KType::Int(7))).unwrap();
    let out = kdb.take_output();
    assert_eq!(out.len(), 13);
    assert_eq!(&out[4..8], &[13, 0, 0, 0]);
    kdb.send_async(&KObj::Atom(KType::Symbol(b"abc".to_vec()))).unwrap();
    let out = kdb.take_output();
    assert_eq!(&out[4..8], &[(8 + 1 + 4) as u8, 0, 0, 0]);
}

#[test]
fn concrete_boolean_and_symbol_frames() {
    // The reference byte strings: a boolean-true frame and a symbol frame.
    let mut kdb = setup_kdb();
    kdb.feed(vec![0x01, 0x00, 0x00, 0x00, 0x0A, 0x00, 0x00, 0x00, 0xFF, 0x01]);
    assert_eq!(kdb.read().unwrap(), KObj::Atom(KType::Boolean(true)));
    kdb.feed(vec![1, 0, 0, 0, 15, 0, 0, 0, 0xF5, 0x68, 0x65, 0x6C, 0x6C, 0x6F, 0x00]);
    assert_eq!(kdb.read().unwrap(), KObj::Atom(KType::Symbol(b"hello".to_vec())));
}

#[test]
fn sync_frame_is_acknowledged() {
    // A received request (kind Sync) queues exactly one Response frame
    // carrying boolean true before the value is handed back.
    let mut kdb = setup_kdb();
    kdb.feed(vec![1, 1, 0, 0, 10, 0, 0, 0, 255, 1]);
    let data = kdb.read().unwrap();
    assert_eq!(data, KObj::Atom(KType::Boolean(true)));
    assert_eq!(kdb.take_output(), vec![1, 2, 0, 0, 10, 0, 0, 0, 255, 1]);
}

#[test]
fn async_frame_is_not_acknowledged() {
    let mut kdb = setup_kdb();
    kdb.feed(vec![1, 0, 0, 0, 10, 0, 0, 0, 255, 1]);
    kdb.read().unwrap();
    assert_eq!(kdb.take_output(), Vec::<u8>::new());
}

#[test]
fn unsupported_type_drains_exactly() {
    // A frame with type code 105 consumes exactly its declared length and
    // yields the unsupported-type error, leaving the next frame aligned.
    let mut kdb = setup_kdb();
    let junk = vec![9u8, 8, 7, 6, 5];
    kdb.feed(frame(0, 105, &junk));
    kdb.feed(vec![1, 0, 0, 0, 10, 0, 0, 0, 255, 1]);
    assert_eq!(kdb.read().unwrap(), KObj::Error(b"type unsupported".to_vec()));
    assert_eq!(kdb.read().unwrap(), KObj::Atom(KType::Boolean(true)));
}

#[test]
fn unsupported_sync_frame_is_not_acknowledged() {
    let mut kdb = setup_kdb();
    kdb.feed(frame(1, 110, &[1, 2, 3]));
    assert_eq!(kdb.read().unwrap(), KObj::Error(b"type unsupported".to_vec()));
    assert_eq!(kdb.take_output(), Vec::<u8>::new());
}

#[test]
fn truncated_stream_leaves_state_for_retry() {
    let mut kdb = setup_kdb();
    kdb.feed(vec![1, 0, 0, 0, 10]);
    assert_eq!(kdb.read(), Err(KErr::TruncatedStream));
    kdb.feed(vec![0, 0, 0, 255, 1]);
    assert_eq!(kdb.read().unwrap(), KObj::Atom(KType::Boolean(true)));
}

#[test]
fn dict_wire_decode() {
    // keys: symbol vector (code 11), values: long vector (code 7).
    let keys = KObj::List(vec![
        KObj::Atom(KType::Symbol(b"a".to_vec())),
        KObj::Atom(KType::Symbol(b"b".to_vec())),
    ]);
    let vals = KObj::List(vec![KObj::Atom(KType::Long(1)), KObj::Atom(KType::Long(2))]);
    let mut payload = vec![11u8];
    payload.extend_from_slice(&keys.serialize());
    payload.push(7);
    payload.extend_from_slice(&vals.serialize());
    let (back, end) = read_data(&payload, 0, 99).unwrap();
    assert_eq!(end, payload.len());
    match back {
        KObj::Dict(k, v) => {
            assert_eq!(KObj::List(k), keys);
            assert_eq!(KObj::List(v), vals);
        },
        other => panic!("expected a dictionary, got {:?}", other),
    }
}

#[test]
fn dict_with_non_list_keys_is_an_error_value() {
    // An int atom where a key list belongs: both structures are consumed,
    // and the shape fault surfaces as an error value, not a failure.
    let mut payload: Vec<u8> = vec![250];  // type code -6, an int atom
    payload.extend_from_slice(&[7, 0, 0, 0]);
    payload.push(250);
    payload.extend_from_slice(&[8, 0, 0, 0]);
    let (back, end) = read_data(&payload, 0, 99).unwrap();
    assert_eq!(end, payload.len());
    assert_eq!(back, KObj::Error(b"keys of dictionary must be a list".to_vec()));
}

#[test]
fn table_wire_decode() {
    // A table nests a dictionary behind two framing bytes: column names as a
    // symbol vector, column data as a generic list of vectors.
    let names = KObj::List(vec![
        KObj::Atom(KType::Symbol(b"sym".to_vec())),
        KObj::Atom(KType::Symbol(b"px".to_vec())),
    ]);
    let columns = || {
        vec![
            KObj::List(vec![KObj::Atom(KType::Symbol(b"TSLA".to_vec()))]),
            KObj::List(vec![KObj::Atom(KType::Long(653))]),
        ]
    };
    let data = KObj::GenericList(columns());
    let mut payload = vec![0u8, 99];  // the flip marker bytes the decoder skips
    payload.push(11);
    payload.extend_from_slice(&names.serialize());
    payload.push(0);
    payload.extend_from_slice(&data.serialize());
    let (back, end) = read_data(&payload, 0, 98).unwrap();
    assert_eq!(end, payload.len());
    match back {
        KObj::Table(cols, d) => {
            assert_eq!(KObj::List(cols), names);
            assert_eq!(KObj::GenericList(d), data);
        },
        other => panic!("expected a table, got {:?}", other),
    }
}

#[test]
fn lambda_decode() {
    let mut payload = vec![0u8, 0, 0];
    payload.extend_from_slice(&5u32.to_le_bytes());
    payload.extend_from_slice(b"{x+y}");
    let (back, end) = read_data(&payload, 0, 100).unwrap();
    assert_eq!(back, KObj::Lambda(b"{x+y}".to_vec()));
    assert_eq!(end, payload.len());
}

#[test]
fn error_decode() {
    let payload = b"length\0".to_vec();
    let (back, end) = read_data(&payload, 0, -128).unwrap();
    assert_eq!(back, KObj::Error(b"length".to_vec()));
    assert_eq!(end, payload.len());
}

#[test]
fn empty_vector_is_rejected_before_send() {
    let mut kdb = setup_kdb();
    assert_eq!(kdb.send_async(&KObj::List(Vec::new())), Err(KErr::Unencodable));
    // also nested inside a generic list
    let nested = KObj::GenericList(vec![KObj::List(Vec::new())]);
    assert_eq!(kdb.send_async(&nested), Err(KErr::Unencodable));
    assert_eq!(kdb.take_output(), Vec::<u8>::new());
}

#[test]
fn malformed_scalars_are_rejected_before_send() {
    let mut kdb = setup_kdb();
    let nul_symbol = KObj::Atom(KType::Symbol(b"ab\0cd".to_vec()));
    assert_eq!(kdb.send_async(&nul_symbol), Err(KErr::Unencodable));
    let short_guid = KObj::Atom(KType::Guid(vec![0u8; 4]));
    assert_eq!(kdb.send_async(&short_guid), Err(KErr::Unencodable));
}

#[test]
fn table_arity_mismatch_is_rejected() {
    let cols = vec![KObj::Atom(KType::Symbol(b"a".to_vec()))];
    let data = vec![
        KObj::List(vec![KObj::Atom(KType::Long(1))]),
        KObj::List(vec![KObj::Atom(KType::Long(2))]),
    ];
    assert_eq!(KObj::table(cols, data), Err(KErr::LengthMismatch));
    let cols = vec![KObj::Atom(KType::Symbol(b"a".to_vec()))];
    let data = vec![KObj::List(vec![KObj::Atom(KType::Long(1))])];
    assert!(matches!(KObj::table(cols, data), Ok(KObj::Table(_, _))));
}

#[test]
fn dict_arity_mismatch_is_rejected() {
    let keys = vec![KObj::Atom(KType::Symbol(b"a".to_vec()))];
    let vals = Vec::new();
    assert_eq!(KObj::dict(keys, vals), Err(KErr::LengthMismatch));
}

#[test]
fn send_sync_reads_the_reply() {
    let mut kdb = setup_kdb();
    // the peer's reply is already in the inbox when the request goes out
    kdb.feed(vec![1, 2, 0, 0, 13, 0, 0, 0, 250, 42, 0, 0, 0]);
    let reply = kdb.send_sync(&KObj::Atom(KType::Symbol(b"ping".to_vec()))).unwrap();
    assert_eq!(reply, KObj::Atom(KType::Int(42)));
    let out = kdb.take_output();
    assert_eq!(out[1], 1);  // the request went out as kind Sync
}

#[test]
fn string_atom_frame_decode() {
    let mut kdb = setup_kdb();
    let mut payload = vec![0u8];
    payload.extend_from_slice(&3u32.to_le_bytes());
    payload.extend_from_slice(b"abc");
    kdb.feed(frame(0, 10, &payload));
    assert_eq!(kdb.read().unwrap(), KObj::Atom(KType::String(b"abc".to_vec())));
}

#[test]
fn big_endian_envelope_length_is_honored() {
    // The peer may flag big-endian framing; the length field then reads
    // byte-swapped, and the payload decodes the same way.
    let mut kdb = setup_kdb();
    kdb.feed(vec![0, 0, 0, 0, 0, 0, 0, 10, 255, 1]);
    assert_eq!(kdb.read().unwrap(), KObj::Atom(KType::Boolean(true)));
}

#[test]
fn month_does_not_round_trip() {
    // The protocol reads a month back as a date, thirty days to the month:
    // the kind itself does not survive the wire.
    let m = KObj::Atom(KType::Month(730_149));
    let bytes = m.serialize();
    assert_eq!(bytes, vec![30, 0, 0, 0]);
    let (back, _) = read_data(&bytes, 0, -13).unwrap();
    assert_eq!(back, KObj::Atom(KType::Date(731_019)));
}

#[test]
fn dict_with_generic_list_keys() {
    // A dictionary's key structure may be a generic list as well as a
    // uniform vector.
    let keys = KObj::GenericList(vec![
        KObj::Atom(KType::Symbol(b"a".to_vec())),
        KObj::Atom(KType::Int(1)),
    ]);
    let vals = KObj::List(vec![KObj::Atom(KType::Long(1)), KObj::Atom(KType::Long(2))]);
    let mut payload = vec![0u8];
    payload.extend_from_slice(&keys.serialize());
    payload.push(7);
    payload.extend_from_slice(&vals.serialize());
    let (back, end) = read_data(&payload, 0, 99).unwrap();
    assert_eq!(end, payload.len());
    match back {
        KObj::Dict(k, v) => {
            assert_eq!(KObj::GenericList(k), keys);
            assert_eq!(KObj::List(v), vals);
        },
        other => panic!("expected a dictionary, got {:?}", other),
    }
}

#[test]
fn nested_unsupported_code_reads_an_error_run() {
    // Only at the frame level are unsupported type codes drained by length;
    // nested inside a value, an unmapped code falls to the error reader,
    // which scans a NUL-terminated run.
    let payload = vec![0u8, 1, 0, 0, 0, 105, b'o', b'p', 0];
    let (back, end) = read_data(&payload, 0, 0).unwrap();
    assert_eq!(back, KObj::GenericList(vec![KObj::Error(b"op".to_vec())]));
    assert_eq!(end, payload.len());
}
