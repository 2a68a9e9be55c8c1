use irpc_schema::codec::{first_duplicate, CaseTable, DecodeError, DuplicateHash};
use irpc_schema::declare::{declared_schema, Declaration, Fields, SchemaKind};
use irpc_schema::has_schema::HasSchema;
use irpc_schema::schema::{Named, Schema};

fn s(text: &str) -> String {
    text.to_string()
}

fn record(name: &str, fields: Vec<Named>) -> Schema {
    declared_schema(SchemaKind::Nominal, s(name), None, Declaration::Struct(Fields::Named(fields)))
}

fn v1_get() -> Schema {
    record("GetRequest", vec![Named(s("key"), String::schema())])
}

fn v1_put() -> Schema {
    record("PutRequest", vec![Named(s("key"), String::schema()), Named(s("value"), String::schema())])
}

fn v2_put() -> Schema {
    record(
        "PutRequest",
        vec![Named(s("key"), String::schema()), Named(s("value"), Option::<String>::schema())],
    )
}

fn v1_table() -> CaseTable {
    CaseTable::new(vec![Named(s("Get"), v1_get()), Named(s("Put"), v1_put())]).unwrap()
}

fn v2_table() -> CaseTable {
    CaseTable::new(vec![
        Named(s("Get"), v1_get()),
        Named(s("Put"), v2_put()),
        Named(s("V1Put"), v1_put()),
    ])
    .unwrap()
}

#[test]
fn test_serialize_schema() {
    let table = CaseTable::new(vec![Named(s("Foo"), u32::schema()), Named(s("Bar"), String::schema())]).unwrap();
    let payload = postcard::to_allocvec(&1u32).unwrap();
    let v_bytes = table.encode(0, &payload);
    let mut expected = u32::schema().stable_hash().to_vec();
    expected.extend_from_slice(&postcard::to_allocvec(&1u32).unwrap());
    assert_eq!(v_bytes, expected);
    let (case, body) = table.decode(&v_bytes).unwrap();
    assert_eq!(case, 0);
    let v_out: u32 = postcard::from_bytes(&body).unwrap();
    assert_eq!(v_out, 1);
}

#[test]
fn cross_version_put_selects_v1_put() {
    let v1 = v1_table();
    let v2 = v2_table();
    let payload = postcard::to_allocvec(&(s("k"), s("v"))).unwrap();
    let frame = v1.encode(1, &payload);
    let (case, body) = v2.decode(&frame).unwrap();
    assert_eq!(case, 2);
    assert_eq!(v2.case_name(case), "V1Put");
    let value: (String, String) = postcard::from_bytes(&body).unwrap();
    assert_eq!(value, (s("k"), s("v")));
}

#[test]
fn round_trip_across_reordered_unions() {
    let sender = v2_table();
    let receiver = CaseTable::new(vec![Named(s("Other"), u64::schema()), Named(s("Fetch"), v1_get())]).unwrap();
    let payload = postcard::to_allocvec(&s("key")).unwrap();
    let frame = sender.encode(0, &payload);
    let (case, body) = receiver.decode(&frame).unwrap();
    assert_eq!(case, 1);
    assert_eq!(body, payload);
    let key: String = postcard::from_bytes(&body).unwrap();
    assert_eq!(key, "key");
}

#[test]
fn unknown_discriminator_is_rejected() {
    let v1 = v1_table();
    let v2 = v2_table();
    let frame = v2.encode(1, &[0, 1, 2]);
    assert_eq!(v1.decode(&frame), Err(DecodeError::UnknownDiscriminator));
}

#[test]
fn short_frame_is_missing_hash() {
    let v1 = v1_table();
    assert_eq!(v1.decode(&[1, 2, 3]), Err(DecodeError::MissingHash));
    assert_eq!(v1.decode(&[]), Err(DecodeError::MissingHash));
}

#[test]
fn duplicate_hash_is_refused() {
    let r = CaseTable::new(vec![
        Named(s("A"), u32::schema()),
        Named(s("B"), String::schema()),
        Named(s("C"), u32::schema()),
    ]);
    assert_eq!(r.err(), Some(DuplicateHash { first: 0, second: 2 }));
}

#[test]
fn case_table_introspection() {
    let v2 = v2_table();
    assert_eq!(v2.num_cases(), 3);
    assert_eq!(v2.case_name(1), "Put");
    assert_eq!(v2.case_schema(2), &v1_put());
    assert_eq!(v2.case_hash(2), v1_put().stable_hash());
    assert_ne!(v2.case_hash(1), v2.case_hash(2));
}

#[test]
fn first_duplicate_on_plain_hashes() {
    let a = [1u8; 32];
    let b = [2u8; 32];
    let c = [3u8; 32];
    assert_eq!(first_duplicate(&vec![a, b, c]), None);
    assert_eq!(first_duplicate(&vec![]), None);
    assert_eq!(first_duplicate(&vec![a, b, a, b]), Some((0, 2)));
    assert_eq!(first_duplicate(&vec![a, b, b, a]), Some((1, 2)));
    assert_eq!(first_duplicate(&vec![c, a, b, c, a]), Some((0, 3)));
}
