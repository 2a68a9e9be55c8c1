use irpc_schema::canonical::SchemaAndHash;
use irpc_schema::declare::{declared_schema, Declaration, Fields, SchemaKind, Variant};
use irpc_schema::has_schema::HasSchema;
use irpc_schema::schema::{Named, Schema};

fn s(text: &str) -> String {
    text.to_string()
}

fn sample() -> Schema {
    Schema::named(
        s("Sample"),
        Schema::Struct(vec![
            Named(s("id"), Schema::Atom(s("u64"))),
            Named(s("tags"), Schema::SeqOf(Box::new(Schema::Atom(s("String"))))),
            Named(
                s("index"),
                Schema::MapOf(Box::new(Schema::Atom(s("u32"))), Box::new(Schema::Product(vec![]))),
            ),
        ]),
    )
}

#[test]
fn stable_hash_is_deterministic_and_structural() {
    let a = sample();
    let b = sample();
    assert_eq!(a.stable_hash(), a.stable_hash());
    assert_eq!(a.stable_hash(), b.stable_hash());
    assert_eq!(a.canonical_bytes(), b.canonical_bytes());
}

#[test]
fn distinct_schemas_hash_differently() {
    let plain = Schema::Struct(vec![Named(s("a"), u32::schema()), Named(s("b"), u32::schema())]);
    let swapped = Schema::Struct(vec![Named(s("b"), u32::schema()), Named(s("a"), u32::schema())]);
    let renamed = Schema::named(s("X"), Schema::Unit);
    assert_ne!(plain.stable_hash(), swapped.stable_hash());
    assert_ne!(renamed.stable_hash(), Schema::named(s("Y"), Schema::Unit).stable_hash());
    assert_ne!(Schema::Unit.stable_hash(), Schema::Bottom.stable_hash());
    assert_ne!(Schema::named(s("X"), u32::schema()).stable_hash(), u32::schema().stable_hash());
    assert_ne!(
        Schema::Sum(vec![u8::schema(), u16::schema()]).stable_hash(),
        Schema::Sum(vec![u16::schema(), u8::schema()]).stable_hash()
    );
    assert_ne!(
        Schema::Product(vec![Schema::Unit]).stable_hash(),
        Schema::Sum(vec![Schema::Unit]).stable_hash()
    );
}

#[test]
fn canonical_bytes_exact() {
    assert_eq!(Schema::Unit.canonical_bytes(), vec![0]);
    assert_eq!(Schema::Bottom.canonical_bytes(), vec![1]);
    assert_eq!(u32::schema().canonical_bytes(), vec![2, 3, b'u', b'3', b'2']);
    assert_eq!(Schema::named(s("A"), Schema::Unit).canonical_bytes(), vec![7, 1, b'A', 0]);
    assert_eq!(Schema::Product(vec![Schema::Unit, Schema::Bottom]).canonical_bytes(), vec![3, 2, 0, 1]);
    assert_eq!(
        Schema::MapOf(Box::new(Schema::Unit), Box::new(Schema::SetOf(Box::new(Schema::Bottom)))).canonical_bytes(),
        vec![10, 0, 9, 1]
    );
    let long = "x".repeat(200);
    let bytes = Schema::Atom(long.clone()).canonical_bytes();
    assert_eq!(&bytes[..3], &[2, 0xC8, 0x01]);
    assert_eq!(bytes.len(), 203);
}

#[test]
fn stable_hash_is_blake3_of_canonical_bytes() {
    let expected = *blake3::hash(&[0u8]).as_bytes();
    assert_eq!(Schema::Unit.stable_hash(), expected);
    let bytes = sample().canonical_bytes();
    assert_eq!(sample().stable_hash(), *blake3::hash(&bytes).as_bytes());
    assert_ne!(sample().stable_hash().to_vec(), bytes);
}

#[test]
fn schema_and_hash_from_schema() {
    let pair = SchemaAndHash::from(sample());
    assert_eq!(pair.schema, sample());
    assert_eq!(pair.hash, sample().stable_hash());
}

#[test]
fn pretty_print_is_pure_and_exact() {
    let option = Option::<u32>::schema();
    assert_eq!(option.pretty_print(0), option.pretty_print(0));
    assert_eq!(option.pretty_print(0), "(\n  () |\n  \"u32\"\n)");
    let named = Schema::named(s("A"), Schema::Struct(vec![Named(s("x"), u32::schema())]));
    assert_eq!(named.pretty_print(2), "  \"A\": (\n    \"x\": \"u32\"\n  )");
    let map = Schema::MapOf(Box::new(Schema::Atom(s("k"))), Box::new(Schema::Atom(s("v"))));
    assert_eq!(map.pretty_print(0), "{\n  \"k\": \"v\"\n}");
    assert_eq!(Schema::SeqOf(Box::new(Schema::Unit)).pretty_print(0), "[\n  ()\n]");
    assert_eq!(Schema::SetOf(Box::new(Schema::Bottom)).pretty_print(1), " {\n   ⊥\n }");
    assert_eq!(Schema::Product(vec![]).pretty_print(0), "(\n\n)");
    assert_eq!(Named(s("f"), Schema::Unit).pretty_print(4), "    \"f\": ()");
}

#[test]
fn display_is_exact() {
    assert_eq!(Option::<u32>::schema().display(), "(()|\"u32\")");
    let named = Schema::named(s("A"), Schema::Struct(vec![Named(s("x"), u32::schema())]));
    assert_eq!(named.display(), "\"A\":(\"x\":\"u32\")");
    let map = Schema::MapOf(Box::new(Schema::Atom(s("k"))), Box::new(Schema::Atom(s("v"))));
    assert_eq!(map.display(), "{\"k\":\"v\"}");
    assert_eq!(Schema::SetOf(Box::new(Schema::Bottom)).display(), "{⊥}");
    assert_eq!(Schema::SeqOf(Box::new(Schema::Unit)).display(), "[()]");
    assert_eq!(Result::<u8, String>::schema().display(), "(\"Ok\":\"u8\"|\"Err\":\"String\")");
    assert_eq!(Named(s("n"), Schema::Unit).display(), "\"n\":()");
}

#[test]
fn option_is_a_two_case_sum() {
    let option = Option::<u32>::schema();
    let sum = Schema::Sum(vec![Schema::Unit, Schema::Atom(s("u32"))]);
    assert_eq!(option, sum);
    assert_eq!(option.stable_hash(), sum.stable_hash());
    assert_eq!(option.pretty_print(0), sum.pretty_print(0));
}

#[test]
fn std_schemas() {
    assert_eq!(<()>::schema(), Schema::Unit);
    assert_eq!(Box::<u8>::schema(), u8::schema());
    assert_eq!(std::sync::Arc::<u8>::schema(), u8::schema());
    assert_eq!(<&str>::schema(), Schema::Atom(s("&str")));
    assert_eq!(<&[u8]>::schema(), Schema::Atom(s("&[u8]")));
    assert_eq!(
        std::collections::HashMap::<String, bool>::schema(),
        Schema::MapOf(Box::new(String::schema()), Box::new(bool::schema()))
    );
    assert_eq!(
        <(u8, i8, char)>::schema(),
        Schema::Product(vec![u8::schema(), i8::schema(), char::schema()])
    );
    assert_eq!(
        irpc::channel::oneshot::Sender::<u32>::schema(),
        Schema::named(s("irpc::channel::oneshot::Sender"), u32::schema())
    );
    assert_eq!(
        irpc::channel::mpsc::Receiver::<u32>::schema(),
        Schema::named(s("irpc::channel::spsc::Receiver"), u32::schema())
    );
    assert_eq!(
        irpc::channel::mpsc::Sender::<u32>::schema(),
        Schema::named(s("irpc::channel::spsc::Sender"), u32::schema())
    );
    assert_eq!(
        irpc::channel::none::NoReceiver::schema(),
        Schema::Atom(s("irpc::channel::none::NoReceiver"))
    );
}

#[test]
fn declared_schemas() {
    let fields = || Fields::Named(vec![Named(s("a"), u8::schema()), Named(s("b"), u16::schema())]);
    assert_eq!(
        declared_schema(SchemaKind::Anonymous, s("T"), None, Declaration::Struct(fields())),
        Schema::Product(vec![u8::schema(), u16::schema()])
    );
    assert_eq!(
        declared_schema(SchemaKind::Atom, s("T"), Some(s("Other")), Declaration::Struct(Fields::Unit)),
        Schema::Atom(s("Other"))
    );
    assert_eq!(
        declared_schema(SchemaKind::Anonymous, s("E"), None, Declaration::Enum(vec![])),
        Schema::Bottom
    );
    assert_eq!(
        declared_schema(
            SchemaKind::Nominal,
            s("E"),
            None,
            Declaration::Enum(vec![
                Variant(s("One"), Fields::Unnamed(vec![u8::schema()])),
                Variant(s("Two"), fields()),
                Variant(s("Three"), Fields::Unnamed(vec![i32::schema(), String::schema()])),
            ])
        ),
        Schema::named(
            s("E"),
            Schema::Enum(vec![
                Named(s("One"), Schema::Product(vec![u8::schema()])),
                Named(
                    s("Two"),
                    Schema::Struct(vec![Named(s("a"), u8::schema()), Named(s("b"), u16::schema())])
                ),
                Named(s("Three"), Schema::Product(vec![i32::schema(), String::schema()])),
            ])
        )
    );
    assert_eq!(
        declared_schema(
            SchemaKind::Anonymous,
            s("E"),
            None,
            Declaration::Enum(vec![Variant(s("A"), Fields::Unit), Variant(s("B"), fields())])
        ),
        Schema::Sum(vec![Schema::Unit, Schema::Product(vec![u8::schema(), u16::schema()])])
    );
}
