use vstd::prelude::*;
use vstd::string::StringExecFns;
use std::collections::{BTreeMap, BTreeSet, HashMap, HashSet};
use crate::schema::{Named, Schema, Shape};

verus! {

/// Trait to attach a schema to a type.
pub trait HasSchema {
    /// The shape of this type's schema. Verified implementations state it;
    /// for others it is left unspecified.
    open spec fn schema_shape() -> Shape {
        arbitrary()
    }

    /// Returns the schema for this type.
    fn schema() -> (r: Schema)
        ensures
            r@ == Self::schema_shape(),
    ;
}

/// An atom named by the given text.
fn atom(name: &str) -> (r: Schema)
    ensures
        r@ == Shape::Atom(name@),
{
    Schema::Atom(String::from_str(name))
}

impl HasSchema for bool {
    open spec fn schema_shape() -> Shape {
        Shape::Atom("bool"@)
    }

    fn schema() -> (r: Schema) {
        atom("bool")
    }
}

impl HasSchema for char {
    open spec fn schema_shape() -> Shape {
        Shape::Atom("char"@)
    }

    fn schema() -> (r: Schema) {
        atom("char")
    }
}

impl HasSchema for u8 {
    open spec fn schema_shape() -> Shape {
        Shape::Atom("u8"@)
    }

    fn schema() -> (r: Schema) {
        atom("u8")
    }
}

impl HasSchema for u16 {
    open spec fn schema_shape() -> Shape {
        Shape::Atom("u16"@)
    }

    fn schema() -> (r: Schema) {
        atom("u16")
    }
}

impl HasSchema for u32 {
    open spec fn schema_shape() -> Shape {
        Shape::Atom("u32"@)
    }

    fn schema() -> (r: Schema) {
        atom("u32")
    }
}

impl HasSchema for u64 {
    open spec fn schema_shape() -> Shape {
        Shape::Atom("u64"@)
    }

    fn schema() -> (r: Schema) {
        atom("u64")
    }
}

impl HasSchema for u128 {
    open spec fn schema_shape() -> Shape {
        Shape::Atom("u128"@)
    }

    fn schema() -> (r: Schema) {
        atom("u128")
    }
}

impl HasSchema for i8 {
    open spec fn schema_shape() -> Shape {
        Shape::Atom("i8"@)
    }

    fn schema() -> (r: Schema) {
        atom("i8")
    }
}

impl HasSchema for i16 {
    open spec fn schema_shape() -> Shape {
        Shape::Atom("i16"@)
    }

    fn schema() -> (r: Schema) {
        atom("i16")
    }
}

impl HasSchema for i32 {
    open spec fn schema_shape() -> Shape {
        Shape::Atom("i32"@)
    }

    fn schema() -> (r: Schema) {
        atom("i32")
    }
}

impl HasSchema for i64 {
    open spec fn schema_shape() -> Shape {
        Shape::Atom("i64"@)
    }

    fn schema() -> (r: Schema) {
        atom("i64")
    }
}

impl HasSchema for i128 {
    open spec fn schema_shape() -> Shape {
        Shape::Atom("i128"@)
    }

    fn schema() -> (r: Schema) {
        atom("i128")
    }
}

impl HasSchema for String {
    open spec fn schema_shape() -> Shape {
        Shape::Atom("String"@)
    }

    fn schema() -> (r: Schema) {
        atom("String")
    }
}

impl<'a> HasSchema for &'a str {
    open spec fn schema_shape() -> Shape {
        Shape::Atom("&str"@)
    }

    fn schema() -> (r: Schema) {
        atom("&str")
    }
}

impl<'a> HasSchema for &'a [u8] {
    open spec fn schema_shape() -> Shape {
        Shape::Atom("&[u8]"@)
    }

    fn schema() -> (r: Schema) {
        atom("&[u8]")
    }
}

impl<T: HasSchema> HasSchema for Vec<T> {
    open spec fn schema_shape() -> Shape {
        Shape::SeqOf(Box::new(T::schema_shape()))
    }

    fn schema() -> (r: Schema) {
        Schema::SeqOf(Box::new(T::schema()))
    }
}

impl<T: HasSchema> HasSchema for BTreeSet<T> {
    open spec fn schema_shape() -> Shape {
        Shape::SetOf(Box::new(T::schema_shape()))
    }

    fn schema() -> (r: Schema) {
        Schema::SetOf(Box::new(T::schema()))
    }
}

impl<T: HasSchema> HasSchema for HashSet<T> {
    open spec fn schema_shape() -> Shape {
        Shape::SetOf(Box::new(T::schema_shape()))
    }

    fn schema() -> (r: Schema) {
        Schema::SetOf(Box::new(T::schema()))
    }
}

impl<K: HasSchema, V: HasSchema> HasSchema for BTreeMap<K, V> {
    open spec fn schema_shape() -> Shape {
        Shape::MapOf(Box::new(K::schema_shape()), Box::new(V::schema_shape()))
    }

    fn schema() -> (r: Schema) {
        Schema::MapOf(Box::new(K::schema()), Box::new(V::schema()))
    }
}

impl<K: HasSchema, V: HasSchema> HasSchema for HashMap<K, V> {
    open spec fn schema_shape() -> Shape {
        Shape::MapOf(Box::new(K::schema_shape()), Box::new(V::schema_shape()))
    }

    fn schema() -> (r: Schema) {
        Schema::MapOf(Box::new(K::schema()), Box::new(V::schema()))
    }
}

/// An optional value is a sum of two cases: absent, carrying nothing, and
/// present, carrying the value.
impl<T: HasSchema> HasSchema for Option<T> {
    open spec fn schema_shape() -> Shape {
        Shape::Sum(seq![Shape::Unit, T::schema_shape()])
    }

    fn schema() -> (r: Schema) {
        let items = vec![Schema::Unit, T::schema()];
        proof {
            crate::schema::lemma_shapes_index(items@);
            assert(crate::schema::shapes(items@) =~= seq![Shape::Unit, T::schema_shape()]);
        }
        Schema::Sum(items)
    }
}

impl<T: HasSchema> HasSchema for Box<T> {
    open spec fn schema_shape() -> Shape {
        T::schema_shape()
    }

    fn schema() -> (r: Schema) {
        T::schema()
    }
}

impl<T: HasSchema> HasSchema for std::sync::Arc<T> {
    open spec fn schema_shape() -> Shape {
        T::schema_shape()
    }

    fn schema() -> (r: Schema) {
        T::schema()
    }
}

impl<T: HasSchema> HasSchema for std::rc::Rc<T> {
    open spec fn schema_shape() -> Shape {
        T::schema_shape()
    }

    fn schema() -> (r: Schema) {
        T::schema()
    }
}

impl HasSchema for () {
    open spec fn schema_shape() -> Shape {
        Shape::Unit
    }

    fn schema() -> (r: Schema) {
        Schema::Unit
    }
}

impl<A: HasSchema, B: HasSchema> HasSchema for Result<A, B> {
    open spec fn schema_shape() -> Shape {
        Shape::Enum(seq![("Ok"@, A::schema_shape()), ("Err"@, B::schema_shape())])
    }

    fn schema() -> (r: Schema) {
        let items = vec![Named(String::from_str("Ok"), A::schema()), Named(String::from_str("Err"), B::schema())];
        proof {
            crate::schema::lemma_named_shapes_index(items@);
            assert(crate::schema::named_shapes(items@) =~= seq![("Ok"@, A::schema_shape()), ("Err"@, B::schema_shape())]);
        }
        Schema::Enum(items)
    }
}

impl<A: HasSchema, B: HasSchema> HasSchema for (A, B) {
    open spec fn schema_shape() -> Shape {
        Shape::Product(seq![A::schema_shape(), B::schema_shape()])
    }

    fn schema() -> (r: Schema) {
        let items = vec![A::schema(), B::schema()];
        proof {
            crate::schema::lemma_shapes_index(items@);
            assert(crate::schema::shapes(items@) =~= seq![A::schema_shape(), B::schema_shape()]);
        }
        Schema::Product(items)
    }
}

impl<A: HasSchema, B: HasSchema, C: HasSchema> HasSchema for (A, B, C) {
    open spec fn schema_shape() -> Shape {
        Shape::Product(seq![A::schema_shape(), B::schema_shape(), C::schema_shape()])
    }

    fn schema() -> (r: Schema) {
        let items = vec![A::schema(), B::schema(), C::schema()];
        proof {
            crate::schema::lemma_shapes_index(items@);
            assert(crate::schema::shapes(items@) =~= seq![A::schema_shape(), B::schema_shape(), C::schema_shape()]);
        }
        Schema::Product(items)
    }
}

// Declared only because the oneshot receiver's `Future` impl names it as its
// error type: Verus refuses the receiver's declaration without it.
#[verifier::external_type_specification]
#[verifier::external_body]
pub struct ExOneshotRecvError(irpc::channel::oneshot::RecvError);

#[verifier::external_type_specification]
#[verifier::external_body]
#[verifier::reject_recursive_types(T)]
pub struct ExOneshotReceiver<T>(irpc::channel::oneshot::Receiver<T>);

#[verifier::external_type_specification]
#[verifier::external_body]
#[verifier::reject_recursive_types(T)]
pub struct ExOneshotSender<T>(irpc::channel::oneshot::Sender<T>);

#[verifier::external_type_specification]
#[verifier::external_body]
#[verifier::reject_recursive_types(T)]
pub struct ExMpscReceiver<T>(irpc::channel::mpsc::Receiver<T>);

#[verifier::external_type_specification]
#[verifier::external_body]
#[verifier::reject_recursive_types(T)]
pub struct ExMpscSender<T>(irpc::channel::mpsc::Sender<T>);

#[verifier::external_type_specification]
#[verifier::external_body]
pub struct ExNoReceiver(irpc::channel::none::NoReceiver);

#[verifier::external_type_specification]
#[verifier::external_body]
pub struct ExNoSender(irpc::channel::none::NoSender);

impl<T: HasSchema> HasSchema for irpc::channel::oneshot::Receiver<T> {
    open spec fn schema_shape() -> Shape {
        Shape::Named("irpc::channel::oneshot::Receiver"@, Box::new(T::schema_shape()))
    }

    fn schema() -> (r: Schema) {
        Schema::named(String::from_str("irpc::channel::oneshot::Receiver"), T::schema())
    }
}

/// The streaming channel keeps the name it had when it was single-producer,
/// `spsc`, so that its schema, and every hash built from it, stays the same
/// for peers that still use that name.
impl<T: HasSchema> HasSchema for irpc::channel::mpsc::Receiver<T> {
    open spec fn schema_shape() -> Shape {
        Shape::Named("irpc::channel::spsc::Receiver"@, Box::new(T::schema_shape()))
    }

    fn schema() -> (r: Schema) {
        Schema::named(String::from_str("irpc::channel::spsc::Receiver"), T::schema())
    }
}

impl<T: HasSchema> HasSchema for irpc::channel::oneshot::Sender<T> {
    open spec fn schema_shape() -> Shape {
        Shape::Named("irpc::channel::oneshot::Sender"@, Box::new(T::schema_shape()))
    }

    fn schema() -> (r: Schema) {
        Schema::named(String::from_str("irpc::channel::oneshot::Sender"), T::schema())
    }
}

/// The streaming channel keeps the name it had when it was single-producer,
/// `spsc`, so that its schema, and every hash built from it, stays the same
/// for peers that still use that name.
impl<T: HasSchema> HasSchema for irpc::channel::mpsc::Sender<T> {
    open spec fn schema_shape() -> Shape {
        Shape::Named("irpc::channel::spsc::Sender"@, Box::new(T::schema_shape()))
    }

    fn schema() -> (r: Schema) {
        Schema::named(String::from_str("irpc::channel::spsc::Sender"), T::schema())
    }
}

impl HasSchema for irpc::channel::none::NoReceiver {
    open spec fn schema_shape() -> Shape {
        Shape::Atom("irpc::channel::none::NoReceiver"@)
    }

    fn schema() -> (r: Schema) {
        atom("irpc::channel::none::NoReceiver")
    }
}

impl HasSchema for irpc::channel::none::NoSender {
    open spec fn schema_shape() -> Shape {
        Shape::Atom("irpc::channel::none::NoSender"@)
    }

    fn schema() -> (r: Schema) {
        atom("irpc::channel::none::NoSender")
    }
}

/// An optional value has the schema of a two-case sum, absent then present,
/// whatever the type inside; so it renders and hashes as that sum does.
pub proof fn lemma_option_is_sum<T: HasSchema>()
    ensures
        Option::<T>::schema_shape() == Shape::Sum(seq![Shape::Unit, T::schema_shape()]),
        crate::canonical::stable_hash_of(Option::<T>::schema_shape()) == crate::canonical::stable_hash_of(
            Shape::Sum(seq![Shape::Unit, T::schema_shape()]),
        ),
        crate::render::rendered(Option::<T>::schema_shape(), 0) == crate::render::rendered(
            Shape::Sum(seq![Shape::Unit, T::schema_shape()]),
            0,
        ),
{
}

} // verus!
