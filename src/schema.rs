use vstd::prelude::*;

verus! {

/// Wraps a schema with a name.
#[derive(Debug, PartialEq, Eq)]
pub struct Named(pub String, pub Schema);

/// The schema enum
#[derive(Debug, PartialEq, Eq)]
pub enum Schema {
    /// the unit type
    Unit,
    /// the bottom type
    Bottom,
    /// an opaque atomic type, identified by its name
    Atom(String),
    /// a product type, aka tuple
    Product(Vec<Schema>),
    /// a sum type, aka unnamed enum
    Sum(Vec<Schema>),
    /// a struct type, tuple with named fields
    Struct(Vec<Named>),
    /// an enum type
    Enum(Vec<Named>),
    /// a named type
    Named(Box<Named>),
    /// a sequence type
    SeqOf(Box<Schema>),
    /// a set type
    SetOf(Box<Schema>),
    /// a map type
    MapOf(Box<Schema>, Box<Schema>),
}

/// The mathematical shape of a schema: names are character sequences and
/// ordered collections are sequences. Two schemas are structurally equal
/// exactly when their shapes are equal.
pub enum Shape {
    Unit,
    Bottom,
    Atom(Seq<char>),
    Product(Seq<Shape>),
    Sum(Seq<Shape>),
    Struct(Seq<(Seq<char>, Shape)>),
    Enum(Seq<(Seq<char>, Shape)>),
    Named(Seq<char>, Box<Shape>),
    SeqOf(Box<Shape>),
    SetOf(Box<Shape>),
    MapOf(Box<Shape>, Box<Shape>),
}

/// Shapes of a sequence of schemas, element by element.
pub open spec fn shapes(items: Seq<Schema>) -> Seq<Shape>
    decreases items,
{
    if items.len() == 0 {
        Seq::empty()
    } else {
        shapes(items.drop_last()).push(shape_of(items.last()))
    }
}

/// Shapes of a sequence of named schemas, element by element.
pub open spec fn named_shapes(items: Seq<Named>) -> Seq<(Seq<char>, Shape)>
    decreases items,
{
    if items.len() == 0 {
        Seq::empty()
    } else {
        named_shapes(items.drop_last()).push(named_shape(items.last()))
    }
}

/// The shape of a named schema: its name and the shape it wraps.
pub open spec fn named_shape(n: Named) -> (Seq<char>, Shape)
    decreases n,
{
    (n.0@, shape_of(n.1))
}

/// The shape of a schema.
pub open spec fn shape_of(s: Schema) -> Shape
    decreases s,
{
    match s {
        Schema::Unit => Shape::Unit,
        Schema::Bottom => Shape::Bottom,
        Schema::Atom(name) => Shape::Atom(name@),
        Schema::Product(items) => Shape::Product(shapes(items@)),
        Schema::Sum(items) => Shape::Sum(shapes(items@)),
        Schema::Struct(fields) => Shape::Struct(named_shapes(fields@)),
        Schema::Enum(variants) => Shape::Enum(named_shapes(variants@)),
        Schema::Named(n) => Shape::Named(n.0@, Box::new(shape_of(n.1))),
        Schema::SeqOf(item) => Shape::SeqOf(Box::new(shape_of(*item))),
        Schema::SetOf(item) => Shape::SetOf(Box::new(shape_of(*item))),
        Schema::MapOf(k, v) => Shape::MapOf(Box::new(shape_of(*k)), Box::new(shape_of(*v))),
    }
}

impl View for Schema {
    type V = Shape;

    open spec fn view(&self) -> Shape {
        shape_of(*self)
    }
}

impl View for Named {
    type V = (Seq<char>, Shape);

    open spec fn view(&self) -> (Seq<char>, Shape) {
        named_shape(*self)
    }
}

pub proof fn lemma_shapes_index(items: Seq<Schema>)
    ensures
        shapes(items).len() == items.len(),
        forall|i: int| 0 <= i < items.len() ==> #[trigger] shapes(items)[i] == items[i]@,
    decreases items.len(),
{
    if items.len() > 0 {
        lemma_shapes_index(items.drop_last());
    }
}

pub proof fn lemma_named_shapes_index(items: Seq<Named>)
    ensures
        named_shapes(items).len() == items.len(),
        forall|i: int| 0 <= i < items.len() ==> #[trigger] named_shapes(items)[i] == items[i]@,
    decreases items.len(),
{
    if items.len() > 0 {
        lemma_named_shapes_index(items.drop_last());
    }
}

impl Named {
    pub fn new(name: String, schema: Schema) -> (r: Named)
        ensures
            r@ == (name@, schema@),
    {
        Named(name, schema)
    }
}

impl Schema {
    pub fn named(name: String, schema: Schema) -> (r: Schema)
        ensures
            r@ == Shape::Named(name@, Box::new(schema@)),
    {
        Schema::Named(Box::new(Named::new(name, schema)))
    }
}

} // verus!
