use vstd::prelude::*;
use crate::schema::{Named, Schema, Shape, shapes, named_shapes, lemma_shapes_index, lemma_named_shapes_index};

verus! {

/// The fields of a struct or of an enum variant, as declared.
pub enum Fields {
    /// No fields and no braces: `struct S;`, `V`.
    Unit,
    /// Positional fields, with the schema of each type: `S(A, B)`.
    Unnamed(Vec<Schema>),
    /// Named fields, with the schema of each type: `S { a: A, b: B }`.
    Named(Vec<Named>),
}

/// An enum variant: its name and its fields.
pub struct Variant(pub String, pub Fields);

/// A type declaration whose schema is derived.
pub enum Declaration {
    Struct(Fields),
    Enum(Vec<Variant>),
}

/// How a declaration is turned into a schema.
#[derive(Debug, Clone, Copy, PartialEq, Eq, Structural)]
pub enum SchemaKind {
    /// An opaque atom carrying the type's name.
    Atom,
    /// The structure alone: tuples and sums, without any name.
    Anonymous,
    /// The shape with the type's, fields' and variants' names.
    Nominal,
}

/// The schemas of the types of named fields, names dropped.
pub open spec fn field_types(fields: Seq<Named>) -> Seq<Shape> {
    Seq::new(fields.len(), |i: int| fields[i].1@)
}

/// A tuple of the given types; the unit type when there are none.
pub open spec fn tuple_of(types: Seq<Shape>) -> Shape {
    if types.len() == 0 {
        Shape::Unit
    } else {
        Shape::Product(types)
    }
}

/// The structural schema of some fields: the tuple of their types.
pub open spec fn fields_tuple(f: Fields) -> Shape {
    match f {
        Fields::Unit => Shape::Unit,
        Fields::Unnamed(types) => tuple_of(shapes(types@)),
        Fields::Named(fields) => tuple_of(field_types(fields@)),
    }
}

/// The structural schema of a declaration.
pub open spec fn structural_shape(d: Declaration) -> Shape {
    match d {
        Declaration::Struct(f) => fields_tuple(f),
        Declaration::Enum(variants) => if variants@.len() == 0 {
            Shape::Bottom
        } else {
            Shape::Sum(Seq::new(variants@.len(), |i: int| fields_tuple(variants@[i].1)))
        },
    }
}

/// The nominal schema of a struct's fields, inside its name.
pub open spec fn struct_body(f: Fields) -> Shape {
    match f {
        Fields::Unit => Shape::Unit,
        Fields::Unnamed(types) => tuple_of(shapes(types@)),
        Fields::Named(fields) => if fields@.len() == 0 {
            Shape::Unit
        } else {
            Shape::Struct(named_shapes(fields@))
        },
    }
}

/// The nominal schema of a variant's fields, inside the variant's name: the
/// variant carries all its fields at once, so positional fields are a tuple
/// and named fields a record; no fields is the unit type.
pub open spec fn variant_body(f: Fields) -> Shape {
    match f {
        Fields::Unit => Shape::Unit,
        Fields::Unnamed(types) => tuple_of(shapes(types@)),
        Fields::Named(fields) => if fields@.len() == 0 {
            Shape::Unit
        } else {
            Shape::Struct(named_shapes(fields@))
        },
    }
}

/// The nominal schema of an enum's variants: none is the bottom type, one is
/// a struct of that variant, more are an enum.
pub open spec fn variants_body(variants: Seq<Variant>) -> Shape {
    let cases = Seq::new(variants.len(), |i: int| (variants[i].0@, variant_body(variants[i].1)));
    if variants.len() == 0 {
        Shape::Bottom
    } else if variants.len() == 1 {
        Shape::Struct(cases)
    } else {
        Shape::Enum(cases)
    }
}

/// The nominal schema of a declaration named `name`.
pub open spec fn nominal_shape(name: Seq<char>, d: Declaration) -> Shape {
    Shape::Named(
        name,
        Box::new(
            match d {
                Declaration::Struct(f) => struct_body(f),
                Declaration::Enum(variants) => variants_body(variants@),
            },
        ),
    )
}

/// The name a schema carries: the explicit one if given, else the type's.
pub open spec fn chosen_name(name: Seq<char>, explicit_name: Option<String>) -> Seq<char> {
    match explicit_name {
        Some(n) => n@,
        None => name,
    }
}

/// The schema of a declaration of the given kind.
pub open spec fn declared_shape(kind: SchemaKind, name: Seq<char>, explicit_name: Option<String>, d: Declaration) -> Shape {
    match kind {
        SchemaKind::Atom => Shape::Atom(chosen_name(name, explicit_name)),
        SchemaKind::Anonymous => structural_shape(d),
        SchemaKind::Nominal => nominal_shape(chosen_name(name, explicit_name), d),
    }
}

/// The schemas of the types of named fields, in order.
fn types_of(fields: Vec<Named>) -> (r: Vec<Schema>)
    ensures
        shapes(r@) == field_types(fields@),
{
    let ghost input = fields@;
    let mut rest = fields;
    let mut out: Vec<Schema> = Vec::new();
    let mut i: usize = 0;
    let n = rest.len();
    while i < n
        invariant
            n == input.len(),
            i <= n,
            rest@ == input.skip(i as int),
            out@.len() == i,
            forall|k: int| 0 <= k < i ==> (#[trigger] out@[k])@ == input[k].1@,
        decreases n - i,
    {
        let Named(_, schema) = rest.remove(0);
        out.push(schema);
        i = i + 1;
    }
    proof {
        lemma_shapes_index(out@);
        assert(shapes(out@) =~= field_types(input));
    }
    out
}

/// A tuple of the given schemas; the unit type when there are none.
fn tuple(types: Vec<Schema>) -> (r: Schema)
    ensures
        r@ == tuple_of(shapes(types@)),
{
    proof {
        lemma_shapes_index(types@);
    }
    if types.len() == 0 {
        Schema::Unit
    } else {
        Schema::Product(types)
    }
}

/// The structural schema of some fields: the tuple of their types.
pub fn fields_tuple_schema(f: Fields) -> (r: Schema)
    ensures
        r@ == fields_tuple(f),
{
    match f {
        Fields::Unit => Schema::Unit,
        Fields::Unnamed(types) => tuple(types),
        Fields::Named(fields) => tuple(types_of(fields)),
    }
}

/// Generates a Structural schema: structs become tuples of their field
/// types, enums sums of their variants' tuples, and the names are dropped.
pub fn structural_schema(d: Declaration) -> (r: Schema)
    ensures
        r@ == structural_shape(d),
{
    match d {
        Declaration::Struct(f) => fields_tuple_schema(f),
        Declaration::Enum(variants) => {
            let ghost input = variants@;
            let n = variants.len();
            let mut rest = variants;
            let mut out: Vec<Schema> = Vec::new();
            let mut i: usize = 0;
            while i < n
                invariant
                    n == input.len(),
                    i <= n,
                    rest@ == input.skip(i as int),
                    out@.len() == i,
                    forall|k: int| 0 <= k < i ==> (#[trigger] out@[k])@ == fields_tuple(input[k].1),
                decreases n - i,
            {
                let Variant(_, fields) = rest.remove(0);
                out.push(fields_tuple_schema(fields));
                i = i + 1;
            }
            proof {
                lemma_shapes_index(out@);
                assert(shapes(out@) =~= Seq::new(input.len(), |k: int| fields_tuple(input[k].1)));
            }
            if n == 0 {
                Schema::Bottom
            } else {
                Schema::Sum(out)
            }
        },
    }
}

/// The nominal schema of a struct's fields.
fn struct_body_schema(f: Fields) -> (r: Schema)
    ensures
        r@ == struct_body(f),
{
    match f {
        Fields::Unit => Schema::Unit,
        Fields::Unnamed(types) => tuple(types),
        Fields::Named(fields) => {
            proof {
                lemma_named_shapes_index(fields@);
            }
            if fields.len() == 0 {
                Schema::Unit
            } else {
                Schema::Struct(fields)
            }
        },
    }
}

/// The nominal schema of a variant's fields.
fn variant_body_schema(f: Fields) -> (r: Schema)
    ensures
        r@ == variant_body(f),
{
    match f {
        Fields::Unit => Schema::Unit,
        Fields::Unnamed(types) => tuple(types),
        Fields::Named(fields) => {
            proof {
                lemma_named_shapes_index(fields@);
            }
            if fields.len() == 0 {
                Schema::Unit
            } else {
                Schema::Struct(fields)
            }
        },
    }
}

/// Generates a Nominal schema: the declaration's shape with its field and
/// variant names, wrapped in the type's name.
pub fn nominal_schema(name: String, d: Declaration) -> (r: Schema)
    ensures
        r@ == nominal_shape(name@, d),
{
    let inner = match d {
        Declaration::Struct(f) => struct_body_schema(f),
        Declaration::Enum(variants) => {
            let ghost input = variants@;
            let n = variants.len();
            let mut rest = variants;
            let mut out: Vec<Named> = Vec::new();
            let mut i: usize = 0;
            while i < n
                invariant
                    n == input.len(),
                    i <= n,
                    rest@ == input.skip(i as int),
                    out@.len() == i,
                    forall|k: int| 0 <= k < i ==> (#[trigger] out@[k])@ == (input[k].0@, variant_body(input[k].1)),
                decreases n - i,
            {
                let Variant(variant_name, fields) = rest.remove(0);
                out.push(Named(variant_name, variant_body_schema(fields)));
                i = i + 1;
            }
            proof {
                lemma_named_shapes_index(out@);
                assert(named_shapes(out@) =~= Seq::new(
                    input.len(),
                    |k: int| (input[k].0@, variant_body(input[k].1)),
                ));
            }
            if n == 0 {
                Schema::Bottom
            } else if n == 1 {
                Schema::Struct(out)
            } else {
                Schema::Enum(out)
            }
        },
    };
    Schema::named(name, inner)
}

/// Generates an Atom schema: the type's name, or the explicit one.
pub fn atom_schema(name: String, explicit_name: Option<String>) -> (r: Schema)
    ensures
        r@ == Shape::Atom(chosen_name(name@, explicit_name)),
{
    match explicit_name {
        Some(n) => Schema::Atom(n),
        None => Schema::Atom(name),
    }
}

/// The schema of a declaration named `name`, of the given kind; an explicit
/// name, where given, replaces the type's name in atom and nominal schemas.
pub fn declared_schema(kind: SchemaKind, name: String, explicit_name: Option<String>, d: Declaration) -> (r: Schema)
    ensures
        r@ == declared_shape(kind, name@, explicit_name, d),
{
    match kind {
        SchemaKind::Atom => atom_schema(name, explicit_name),
        SchemaKind::Anonymous => structural_schema(d),
        SchemaKind::Nominal => {
            let chosen = match explicit_name {
                Some(n) => n,
                None => name,
            };
            nominal_schema(chosen, d)
        },
    }
}

} // verus!
