use rsq::{KObj, KType, Kdb};

fn setup_kdb() -> Kdb {
    Kdb::new("localhost".to_string(), 1234, "user".to_string(), "pass".to_string())
}

#[test]
fn read_boolean() {
    let mut kdb = setup_kdb();
    let byte_data = vec![1, 0, 0, 0, 10, 0, 0, 0, 255, 1];
    kdb.feed(byte_data);
    let data = kdb.read().unwrap();
    assert_eq!(data, KObj::Atom(KType::Boolean(true)));
}

#[test]
fn write_boolean() {
    let mut kdb = setup_kdb();
    kdb.send_async(&KObj::Atom(KType::Boolean(true))).unwrap();
    assert_eq!(kdb.take_output(), vec![1, 0, 0, 0, 10, 0, 0, 0, 255, 1]);
}

#[test]
fn read_guid() {
    let mut kdb = setup_kdb();
    let byte_data = vec![
        1, 0, 0, 0, 25, 0, 0, 0, 254, 204, 69, 164, 216, 188, 197, 0, 49, 235, 69, 53, 147, 191,
        81, 97, 76,
    ];
    kdb.feed(byte_data);
    let data = kdb.read().unwrap();
    let expected = uuid::Uuid::parse_str("cc45a4d8-bcc5-0031-eb45-3593bf51614c").unwrap();
    assert_eq!(data, KObj::Atom(KType::Guid(expected.as_bytes().to_vec())));
}

#[test]
fn write_guid() {
    let mut kdb = setup_kdb();
    let guid = uuid::Uuid::parse_str("cc45a4d8-bcc5-0031-eb45-3593bf51614c").unwrap();
    kdb.send_async(&KObj::Atom(KType::Guid(guid.as_bytes().to_vec()))).unwrap();
    assert_eq!(
        kdb.take_output(),
        vec![
            1, 0, 0, 0, 25, 0, 0, 0, 254, 204, 69, 164, 216, 188, 197, 0, 49, 235, 69, 53, 147,
            191, 81, 97, 76,
        ]
    );
}

#[test]
fn read_byte() {
    let mut kdb = setup_kdb();
    let byte_data = vec![1, 0, 0, 0, 10, 0, 0, 0, 252, 2];
    kdb.feed(byte_data);
    let data = kdb.read().unwrap();
    assert_eq!(data, KObj::Atom(KType::Byte(2)));
}

#[test]
fn write_byte() {
    let mut kdb = setup_kdb();
    kdb.send_async(&KObj::Atom(KType::Byte(2))).unwrap();
    assert_eq!(kdb.take_output(), vec![1, 0, 0, 0, 10, 0, 0, 0, 252, 2]);
}

#[test]
fn read_symbol() {
    let mut kdb = setup_kdb();
    let byte_data = vec![1, 0, 0, 0, 15, 0, 0, 0, 245, 104, 101, 108, 108, 111, 0];
    kdb.feed(byte_data);
    let data = kdb.read().unwrap();
    assert_eq!(data, KObj::Atom(KType::Symbol(String::from("hello").into_bytes())));
}

#[test]
fn write_symbol() {
    let mut kdb = setup_kdb();
    kdb.send_async(&KObj::Atom(KType::Symbol(String::from("hello").into_bytes()))).unwrap();
    assert_eq!(kdb.take_output(), vec![1, 0, 0, 0, 15, 0, 0, 0, 245, 104, 101, 108, 108, 111, 0]);
}
