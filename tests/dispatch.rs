use irpc_schema::dispatch::{read_varint, HandlerTable, ReadVarint, Step};
use irpc_schema::has_schema::HasSchema;

fn message(hash: [u8; 32], payload: &[u8]) -> Vec<u8> {
    let mut out = hash.to_vec();
    out.extend_from_slice(&postcard::to_allocvec(&(payload.len() as u64)).unwrap());
    out.extend_from_slice(payload);
    out
}

#[test]
fn varint_values() {
    assert_eq!(read_varint(&[0xAC, 0x02], 0, 10), ReadVarint::Value(300, 2));
    assert_eq!(read_varint(&[9, 0x05], 1, 10), ReadVarint::Value(5, 1));
    assert_eq!(read_varint(&[0x80], 0, 10), ReadVarint::Incomplete);
    assert_eq!(read_varint(&[0x80; 11], 0, 10), ReadVarint::Invalid);
    let mut max = vec![0xff; 9];
    max.push(0x01);
    assert_eq!(read_varint(&max, 0, 10), ReadVarint::Value(u64::MAX, 10));
    let mut over = vec![0xff; 9];
    over.push(0x7f);
    assert_eq!(read_varint(&over, 0, 10), ReadVarint::Invalid);
}

#[test]
fn unknown_message_is_skipped_and_stream_goes_on() {
    let mut table = HandlerTable::new();
    table.add_handler(String::schema().stable_hash(), 7);
    let unknown = message(u32::schema().stable_hash(), &[1, 2, 3]);
    let known = message(String::schema().stable_hash(), &[9]);
    let mut buf = unknown.clone();
    buf.extend_from_slice(&known);
    assert_eq!(table.next_request(&buf), Step::Unknown { end: 36 });
    let rest = &buf[36..];
    assert_eq!(table.next_request(rest), Step::Dispatch { handler: 7, start: 33, end: 34 });
    assert_eq!(&rest[33..34], &[9]);
}

#[test]
fn partial_messages_need_more() {
    let mut table = HandlerTable::new();
    table.add_handler(u8::schema().stable_hash(), 1);
    let full = message(u8::schema().stable_hash(), &[1, 2, 3, 4, 5]);
    assert_eq!(table.next_request(&full[..20]), Step::NeedMore);
    assert_eq!(table.next_request(&full[..32]), Step::NeedMore);
    assert_eq!(table.next_request(&full[..35]), Step::NeedMore);
    assert_eq!(table.next_request(&full), Step::Dispatch { handler: 1, start: 33, end: 38 });
}

#[test]
fn malformed_length_prefix() {
    let table = HandlerTable::new();
    let mut buf = vec![0u8; 32];
    buf.extend_from_slice(&[0x80; 10]);
    assert_eq!(table.next_request(&buf), Step::Malformed);
}

#[test]
fn later_registration_wins() {
    let mut table = HandlerTable::new();
    let hash = bool::schema().stable_hash();
    assert_eq!(table.lookup(&hash), None);
    table.add_handler(hash, 1);
    table.add_handler(char::schema().stable_hash(), 3);
    table.add_handler(hash, 2);
    assert_eq!(table.lookup(&hash), Some(2));
    assert_eq!(table.lookup(&char::schema().stable_hash()), Some(3));
}
