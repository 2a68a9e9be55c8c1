use irpc_schema::declare::{declared_schema, Declaration, Fields, SchemaKind, Variant};
use irpc_schema::has_schema::HasSchema;
use irpc_schema::schema::{Named, Schema};

fn s(text: &str) -> String {
    text.to_string()
}

fn nominal(name: &str, decl: Declaration) -> Schema {
    declared_schema(SchemaKind::Nominal, s(name), None, decl)
}

struct UnitStruct;

impl HasSchema for UnitStruct {
    fn schema() -> Schema {
        nominal("UnitStruct", Declaration::Struct(Fields::Unit))
    }
}

enum BottomEnum {}

impl HasSchema for BottomEnum {
    fn schema() -> Schema {
        nominal("BottomEnum", Declaration::Enum(vec![]))
    }
}

enum SingleCaseEnum {}

impl HasSchema for SingleCaseEnum {
    fn schema() -> Schema {
        nominal("SingleCaseEnum", Declaration::Enum(vec![Variant(s("Case1"), Fields::Unit)]))
    }
}

struct NominalTupleStruct;

impl HasSchema for NominalTupleStruct {
    fn schema() -> Schema {
        nominal(
            "NominalTupleStruct",
            Declaration::Struct(Fields::Unnamed(vec![i32::schema(), String::schema()])),
        )
    }
}

struct NominalStruct;

impl HasSchema for NominalStruct {
    fn schema() -> Schema {
        nominal(
            "NominalStruct",
            Declaration::Struct(Fields::Named(vec![
                Named(s("id"), i32::schema()),
                Named(s("name"), String::schema()),
            ])),
        )
    }
}

struct CustomNamedStruct;

impl HasSchema for CustomNamedStruct {
    fn schema() -> Schema {
        declared_schema(
            SchemaKind::Nominal,
            s("CustomNamedStruct"),
            Some(s("CustomName")),
            Declaration::Struct(Fields::Named(vec![Named(s("value"), u32::schema())])),
        )
    }
}

fn shared_variants() -> Vec<Variant> {
    vec![
        Variant(s("Tuple"), Fields::Unnamed(vec![i32::schema(), String::schema()])),
        Variant(s("NominalTupleStruct"), Fields::Unnamed(vec![NominalTupleStruct::schema()])),
        Variant(
            s("Record"),
            Fields::Named(vec![Named(s("id"), i32::schema()), Named(s("name"), String::schema())]),
        ),
        Variant(s("NominalStruct"), Fields::Unnamed(vec![NominalStruct::schema()])),
        Variant(s("Unit"), Fields::Unit),
        Variant(s("UnitStruct"), Fields::Unnamed(vec![UnitStruct::schema()])),
        Variant(s("BottomEnum"), Fields::Unnamed(vec![BottomEnum::schema()])),
        Variant(s("SingleCaseEnum"), Fields::Unnamed(vec![SingleCaseEnum::schema()])),
    ]
}

struct NominalEnum;

impl HasSchema for NominalEnum {
    fn schema() -> Schema {
        let mut variants = shared_variants();
        variants.push(Variant(s("Seq"), Fields::Unnamed(vec![Vec::<u64>::schema()])));
        variants.push(Variant(
            s("Set"),
            Fields::Unnamed(vec![std::collections::BTreeSet::<u64>::schema()]),
        ));
        variants.push(Variant(
            s("Map"),
            Fields::Unnamed(vec![std::collections::BTreeMap::<u64, u64>::schema()]),
        ));
        nominal("NominalEnum", Declaration::Enum(variants))
    }
}

struct StructuralEnum;

impl HasSchema for StructuralEnum {
    fn schema() -> Schema {
        declared_schema(
            SchemaKind::Anonymous,
            s("StructuralEnum"),
            None,
            Declaration::Enum(shared_variants()),
        )
    }
}

fn hex(bytes: &[u8]) -> String {
    bytes.iter().map(|b| format!("{:02x}", b)).collect()
}

#[test]
fn test_pretty_print() {
    println!("{}", StructuralEnum::schema().pretty_print(0));
    println!("{}", NominalEnum::schema().pretty_print(0));
    println!("{}", UnitStruct::schema().pretty_print(0));
    println!("{}", BottomEnum::schema().pretty_print(0));
    println!("{}", SingleCaseEnum::schema().pretty_print(0));
    println!("{}", NominalTupleStruct::schema().pretty_print(0));
    println!("{}", NominalStruct::schema().pretty_print(0));
    println!("{}", NominalEnum::schema().pretty_print(0));
}

#[test]
fn test_unit_struct_schema() {
    assert_eq!(UnitStruct::schema(), Schema::named(s("UnitStruct"), Schema::Unit));
}

#[test]
fn test_bottom_enum_schema() {
    assert_eq!(BottomEnum::schema(), Schema::named(s("BottomEnum"), Schema::Bottom));
}

#[test]
fn test_custom_named_struct() {
    assert_eq!(
        CustomNamedStruct::schema(),
        Schema::named(
            s("CustomName"),
            Schema::Struct(vec![Named("value".to_string(), Schema::Atom("u32".to_string()))])
        )
    );
}

#[test]
fn test_nominal_enum() {
    println!("NominalEnum: {}", NominalEnum::schema().display());
    println!("{}", NominalEnum::schema().pretty_print(0));
}

#[test]
fn test_structural_enum() {
    println!("StructuralEnum: {}", StructuralEnum::schema().display());
    println!("{}", StructuralEnum::schema().pretty_print(0));
}

#[test]
fn test_enum_cases() {
    let schema = NominalEnum::schema();
    let Schema::Named(name) = schema else {
        panic!("Expected Named");
    };
    let Schema::Enum(cases) = name.1 else {
        panic!("Expected Enum");
    };
    for Named(name, value) in cases {
        println!("{}: {}", name, hex(&value.stable_hash()));
    }
}
