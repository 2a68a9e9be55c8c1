use vstd::prelude::*;
use vstd::utf8::{encode_utf8, decode_utf8, encode_utf8_decode_utf8};
use crate::schema::{Named, Schema, Shape, shapes, named_shapes, lemma_shapes_index, lemma_named_shapes_index};

verus! {

/// LEB128 encoding of an unsigned integer: seven bits per byte, least
/// significant group first, high bit set on every byte but the last.
pub open spec fn varint(n: nat) -> Seq<u8>
    decreases n,
{
    if n < 128 {
        seq![n as u8]
    } else {
        seq![(n % 128 + 128) as u8] + varint(n / 128)
    }
}

/// A name: its UTF-8 length as a varint, then its UTF-8 bytes.
pub open spec fn text(s: Seq<char>) -> Seq<u8> {
    varint(encode_utf8(s).len()) + encode_utf8(s)
}

/// The canonical encoding of a shape. Each case starts with its position in
/// the `Schema` enum; collections carry their length and keep their order.
pub open spec fn encode(s: Shape) -> Seq<u8>
    decreases s,
{
    match s {
        Shape::Unit => varint(0),
        Shape::Bottom => varint(1),
        Shape::Atom(name) => varint(2) + text(name),
        Shape::Product(items) => varint(3) + varint(items.len()) + encode_all(items),
        Shape::Sum(items) => varint(4) + varint(items.len()) + encode_all(items),
        Shape::Struct(fields) => varint(5) + varint(fields.len()) + encode_fields(fields),
        Shape::Enum(fields) => varint(6) + varint(fields.len()) + encode_fields(fields),
        Shape::Named(name, inner) => varint(7) + text(name) + encode(*inner),
        Shape::SeqOf(item) => varint(8) + encode(*item),
        Shape::SetOf(item) => varint(9) + encode(*item),
        Shape::MapOf(k, v) => varint(10) + encode(*k) + encode(*v),
    }
}

/// The encodings of a sequence of shapes, one after another.
pub open spec fn encode_all(items: Seq<Shape>) -> Seq<u8>
    decreases items,
{
    if items.len() == 0 {
        Seq::empty()
    } else {
        encode_all(items.drop_last()) + encode(items.last())
    }
}

/// The encodings of a sequence of named shapes: each name, then its shape.
pub open spec fn encode_fields(fields: Seq<(Seq<char>, Shape)>) -> Seq<u8>
    decreases fields,
{
    if fields.len() == 0 {
        Seq::empty()
    } else {
        encode_fields(fields.drop_last()) + text(fields.last().0) + encode(fields.last().1)
    }
}

/// The digest of a byte sequence under BLAKE3.
pub uninterp spec fn blake3_digest(data: Seq<u8>) -> Seq<u8>;

/// Relies on blake3::hash: it returns the 32-byte BLAKE3 digest of the input,
/// which depends on the input bytes alone.
#[verifier::external_body]
fn blake3_hash(data: &[u8]) -> (r: [u8; 32])
    ensures
        r@ == blake3_digest(data@),
{
    *blake3::hash(data).as_bytes()
}

/// The stable hash of a shape: the digest of its canonical encoding.
pub open spec fn stable_hash_of(s: Shape) -> Seq<u8> {
    blake3_digest(encode(s))
}

fn push_varint(out: &mut Vec<u8>, n: u64)
    ensures
        final(out)@ == old(out)@ + varint(n as nat),
{
    let mut v: u64 = n;
    while v >= 128
        invariant
            out@ + varint(v as nat) == old(out)@ + varint(n as nat),
        decreases v,
    {
        let b: u8 = (v % 128 + 128) as u8;
        proof {
            assert(varint(v as nat) == seq![b] + varint((v / 128) as nat));
        }
        out.push(b);
        proof {
            assert(out@ + varint((v / 128) as nat) =~= old(out)@ + varint(n as nat));
        }
        v = v / 128;
    }
    out.push(v as u8);
    proof {
        assert(varint(v as nat) == seq![v as u8]);
        assert(final(out)@ =~= old(out)@ + varint(n as nat));
    }
}

fn push_text(out: &mut Vec<u8>, s: &String)
    ensures
        final(out)@ == old(out)@ + text(s@),
{
    let bytes: &[u8] = s.as_str().as_bytes();
    push_varint(out, bytes.len() as u64);
    let ghost start = out@;
    let mut i: usize = 0;
    while i < bytes.len()
        invariant
            bytes@ == encode_utf8(s@),
            i <= bytes@.len(),
            out@ == start + bytes@.subrange(0, i as int),
            start == old(out)@ + varint(bytes@.len() as nat),
        decreases bytes@.len() - i,
    {
        out.push(bytes[i]);
        i = i + 1;
        proof {
            assert(out@ =~= start + bytes@.subrange(0, i as int));
        }
    }
    proof {
        assert(bytes@.subrange(0, i as int) =~= bytes@);
    }
}

fn write_list(items: &Vec<Schema>, out: &mut Vec<u8>)
    ensures
        final(out)@ == old(out)@ + varint(items@.len() as nat) + encode_all(shapes(items@)),
    decreases items,
{
    push_varint(out, items.len() as u64);
    let ghost start = out@;
    proof {
        lemma_shapes_index(items@);
    }
    let mut i: usize = 0;
    while i < items.len()
        invariant
            i <= items@.len(),
            start == old(out)@ + varint(items@.len() as nat),
            shapes(items@).len() == items@.len(),
            forall|j: int| 0 <= j < items@.len() ==> #[trigger] shapes(items@)[j] == items@[j]@,
            out@ == start + encode_all(shapes(items@).take(i as int)),
        decreases items@.len() - i,
    {
        proof {
            vstd::std_specs::vec::axiom_vec_index_decreases(*items, i as int);
        }
        write_schema(&items[i], out);
        proof {
            let t = shapes(items@).take(i + 1);
            assert(t.drop_last() =~= shapes(items@).take(i as int));
        }
        i = i + 1;
    }
    proof {
        assert(shapes(items@).take(i as int) =~= shapes(items@));
    }
}

fn write_fields(fields: &Vec<Named>, out: &mut Vec<u8>)
    ensures
        final(out)@ == old(out)@ + varint(fields@.len() as nat) + encode_fields(named_shapes(fields@)),
    decreases fields,
{
    push_varint(out, fields.len() as u64);
    let ghost start = out@;
    proof {
        lemma_named_shapes_index(fields@);
    }
    let mut i: usize = 0;
    while i < fields.len()
        invariant
            i <= fields@.len(),
            start == old(out)@ + varint(fields@.len() as nat),
            named_shapes(fields@).len() == fields@.len(),
            forall|j: int| 0 <= j < fields@.len() ==> #[trigger] named_shapes(fields@)[j] == fields@[j]@,
            out@ == start + encode_fields(named_shapes(fields@).take(i as int)),
        decreases fields@.len() - i,
    {
        let field: &Named = &fields[i];
        proof {
            vstd::std_specs::vec::axiom_vec_index_decreases(*fields, i as int);
        }
        push_text(out, &field.0);
        write_schema(&field.1, out);
        proof {
            let t = named_shapes(fields@).take(i + 1);
            assert(t.drop_last() =~= named_shapes(fields@).take(i as int));
        }
        i = i + 1;
    }
    proof {
        assert(named_shapes(fields@).take(i as int) =~= named_shapes(fields@));
    }
}

fn write_schema(s: &Schema, out: &mut Vec<u8>)
    ensures
        final(out)@ == old(out)@ + encode(s@),
    decreases s,
{
    match s {
        Schema::Unit => push_varint(out, 0),
        Schema::Bottom => push_varint(out, 1),
        Schema::Atom(name) => {
            push_varint(out, 2);
            push_text(out, name);
            assert(out@ =~= old(out)@ + encode(s@));
        },
        Schema::Product(items) => {
            proof {
                lemma_shapes_index(items@);
            }
            push_varint(out, 3);
            write_list(items, out);
            assert(out@ =~= old(out)@ + encode(s@));
        },
        Schema::Sum(items) => {
            proof {
                lemma_shapes_index(items@);
            }
            push_varint(out, 4);
            write_list(items, out);
            assert(out@ =~= old(out)@ + encode(s@));
        },
        Schema::Struct(fields) => {
            proof {
                lemma_named_shapes_index(fields@);
            }
            push_varint(out, 5);
            write_fields(fields, out);
            assert(out@ =~= old(out)@ + encode(s@));
        },
        Schema::Enum(fields) => {
            proof {
                lemma_named_shapes_index(fields@);
            }
            push_varint(out, 6);
            write_fields(fields, out);
            assert(out@ =~= old(out)@ + encode(s@));
        },
        Schema::Named(n) => {
            push_varint(out, 7);
            push_text(out, &n.0);
            write_schema(&n.1, out);
            assert(out@ =~= old(out)@ + encode(s@));
        },
        Schema::SeqOf(item) => {
            push_varint(out, 8);
            write_schema(item, out);
            assert(out@ =~= old(out)@ + encode(s@));
        },
        Schema::SetOf(item) => {
            push_varint(out, 9);
            write_schema(item, out);
            assert(out@ =~= old(out)@ + encode(s@));
        },
        Schema::MapOf(k, v) => {
            push_varint(out, 10);
            write_schema(k, out);
            write_schema(v, out);
            assert(out@ =~= old(out)@ + encode(s@));
        },
    }
}

impl Schema {
    /// The canonical encoding of this schema, the input of its stable hash.
    pub fn canonical_bytes(&self) -> (r: Vec<u8>)
        ensures
            r@ == encode(self@),
    {
        let mut out: Vec<u8> = Vec::new();
        write_schema(self, &mut out);
        proof {
            assert(out@ =~= encode(self@));
        }
        out
    }

    /// The BLAKE3 digest of the canonical encoding of this schema.
    pub fn stable_hash(&self) -> (r: [u8; 32])
        ensures
            r@ == stable_hash_of(self@),
    {
        let bytes = self.canonical_bytes();
        blake3_hash(bytes.as_slice())
    }
}

/// A varint is never a proper prefix of another: two byte strings that
/// start with varints and agree agree on the values and on what follows.
pub proof fn lemma_varint_prefix_free(m: nat, n: nat, x: Seq<u8>, y: Seq<u8>)
    requires
        varint(m) + x == varint(n) + y,
    ensures
        m == n,
        x == y,
    decreases m,
{
    let a = varint(m) + x;
    let b = varint(n) + y;
    assert(a[0] == b[0]);
    if m < 128 {
        assert(a[0] == m as u8);
        if n >= 128 {
            assert(b[0] == (n % 128 + 128) as u8);
        }
        assert(b[0] == n as u8);
        assert(x =~= a.skip(1));
        assert(y =~= b.skip(1));
    } else {
        assert(a[0] == (m % 128 + 128) as u8);
        if n < 128 {
            assert(b[0] == n as u8);
        }
        assert(b[0] == (n % 128 + 128) as u8);
        assert(a.skip(1) =~= varint(m / 128) + x);
        assert(b.skip(1) =~= varint(n / 128) + y);
        lemma_varint_prefix_free(m / 128, n / 128, x, y);
        assert(m == 128 * (m / 128) + m % 128);
        assert(n == 128 * (n / 128) + n % 128);
    }
}

/// Names are prefix free too: the length comes first.
pub proof fn lemma_text_prefix_free(s: Seq<char>, t: Seq<char>, x: Seq<u8>, y: Seq<u8>)
    requires
        text(s) + x == text(t) + y,
    ensures
        s == t,
        x == y,
{
    let es = encode_utf8(s);
    let et = encode_utf8(t);
    assert(text(s) + x =~= varint(es.len()) + (es + x));
    assert(text(t) + y =~= varint(et.len()) + (et + y));
    lemma_varint_prefix_free(es.len(), et.len(), es + x, et + y);
    assert(es =~= (es + x).take(es.len() as int));
    assert(et =~= (et + y).take(et.len() as int));
    assert(x =~= (es + x).skip(es.len() as int));
    assert(y =~= (et + y).skip(et.len() as int));
    encode_utf8_decode_utf8(s);
    encode_utf8_decode_utf8(t);
}

proof fn lemma_encode_all_front(items: Seq<Shape>)
    requires
        items.len() > 0,
    ensures
        encode_all(items) == encode(items[0]) + encode_all(items.drop_first()),
    decreases items.len(),
{
    if items.len() > 1 {
        lemma_encode_all_front(items.drop_last());
        let d = items.drop_first();
        assert(items.drop_last().drop_first() =~= d.drop_last());
        assert(d.last() == items.last());
        assert(items.drop_last()[0] == items[0]);
        assert(encode_all(d) == encode_all(d.drop_last()) + encode(d.last()));
        assert(encode_all(items) =~= encode(items[0]) + encode_all(items.drop_first()));
    } else {
        assert(items.drop_first().len() == 0);
        assert(items.drop_last().len() == 0);
        assert(encode_all(items.drop_last()) == Seq::<u8>::empty());
        assert(encode_all(items.drop_first()) == Seq::<u8>::empty());
        assert(encode_all(items) =~= encode(items[0]) + encode_all(items.drop_first()));
    }
}

proof fn lemma_encode_fields_front(fields: Seq<(Seq<char>, Shape)>)
    requires
        fields.len() > 0,
    ensures
        encode_fields(fields) == text(fields[0].0) + encode(fields[0].1) + encode_fields(fields.drop_first()),
    decreases fields.len(),
{
    if fields.len() > 1 {
        lemma_encode_fields_front(fields.drop_last());
        let d = fields.drop_first();
        assert(fields.drop_last().drop_first() =~= d.drop_last());
        assert(d.last() == fields.last());
        assert(fields.drop_last()[0] == fields[0]);
        assert(encode_fields(d) == encode_fields(d.drop_last()) + text(d.last().0) + encode(d.last().1));
        assert(encode_fields(fields) =~= text(fields[0].0) + encode(fields[0].1) + encode_fields(
            fields.drop_first(),
        ));
    } else {
        assert(fields.drop_first().len() == 0);
        assert(fields.drop_last().len() == 0);
        assert(encode_fields(fields.drop_last()) == Seq::<u8>::empty());
        assert(encode_fields(fields.drop_first()) == Seq::<u8>::empty());
        assert(encode_fields(fields) =~= text(fields[0].0) + encode(fields[0].1) + encode_fields(
            fields.drop_first(),
        ));
    }
}

proof fn lemma_encode_all_prefix_free(a: Seq<Shape>, b: Seq<Shape>, x: Seq<u8>, y: Seq<u8>)
    requires
        a.len() == b.len(),
        encode_all(a) + x == encode_all(b) + y,
    ensures
        a == b,
        x == y,
    decreases a, 0nat,
{
    if a.len() == 0 {
        assert(encode_all(a) + x =~= x);
        assert(encode_all(b) + y =~= y);
        assert(a =~= b);
    } else {
        lemma_encode_all_front(a);
        lemma_encode_all_front(b);
        let ra = encode_all(a.drop_first()) + x;
        let rb = encode_all(b.drop_first()) + y;
        assert(encode_all(a) + x =~= encode(a[0]) + ra);
        assert(encode_all(b) + y =~= encode(b[0]) + rb);
        lemma_encode_prefix_free(a[0], b[0], ra, rb);
        lemma_encode_all_prefix_free(a.drop_first(), b.drop_first(), x, y);
        assert(a =~= seq![a[0]] + a.drop_first());
        assert(b =~= seq![b[0]] + b.drop_first());
    }
}

proof fn lemma_encode_fields_prefix_free(a: Seq<(Seq<char>, Shape)>, b: Seq<(Seq<char>, Shape)>, x: Seq<u8>, y: Seq<u8>)
    requires
        a.len() == b.len(),
        encode_fields(a) + x == encode_fields(b) + y,
    ensures
        a == b,
        x == y,
    decreases a, 0nat,
{
    if a.len() == 0 {
        assert(encode_fields(a) + x =~= x);
        assert(encode_fields(b) + y =~= y);
        assert(a =~= b);
    } else {
        lemma_encode_fields_front(a);
        lemma_encode_fields_front(b);
        let ra = encode_fields(a.drop_first()) + x;
        let rb = encode_fields(b.drop_first()) + y;
        assert(encode_fields(a) + x =~= text(a[0].0) + (encode(a[0].1) + ra));
        assert(encode_fields(b) + y =~= text(b[0].0) + (encode(b[0].1) + rb));
        lemma_text_prefix_free(a[0].0, b[0].0, encode(a[0].1) + ra, encode(b[0].1) + rb);
        lemma_encode_prefix_free(a[0].1, b[0].1, ra, rb);
        lemma_encode_fields_prefix_free(a.drop_first(), b.drop_first(), x, y);
        assert(a =~= seq![a[0]] + a.drop_first());
        assert(b =~= seq![b[0]] + b.drop_first());
    }
}

/// The canonical encoding is prefix free: an encoding followed by anything
/// determines both the shape and what follows.
pub proof fn lemma_encode_prefix_free(a: Shape, b: Shape, x: Seq<u8>, y: Seq<u8>)
    requires
        encode(a) + x == encode(b) + y,
    ensures
        a == b,
        x == y,
    decreases a, 2nat,
{
    lemma_encode_tag(a);
    lemma_encode_tag(b);
    let (ta, ra) = tag_and_rest(a);
    let (tb, rb) = tag_and_rest(b);
    assert(encode(a) + x =~= varint(ta) + (ra + x));
    assert(encode(b) + y =~= varint(tb) + (rb + y));
    lemma_varint_prefix_free(ta, tb, ra + x, rb + y);
    lemma_rest_prefix_free(a, b, x, y);
}

proof fn lemma_encode_tag(s: Shape)
    ensures
        encode(s) == varint(tag_and_rest(s).0) + tag_and_rest(s).1,
{
    assert(encode(s) =~= varint(tag_and_rest(s).0) + tag_and_rest(s).1);
}

proof fn lemma_items_prefix_free(ia: Seq<Shape>, ib: Seq<Shape>, x: Seq<u8>, y: Seq<u8>)
    requires
        varint(ia.len()) + encode_all(ia) + x == varint(ib.len()) + encode_all(ib) + y,
    ensures
        ia == ib,
        x == y,
    decreases ia, 1nat,
{
    assert(varint(ia.len()) + encode_all(ia) + x =~= varint(ia.len()) + (encode_all(ia) + x));
    assert(varint(ib.len()) + encode_all(ib) + y =~= varint(ib.len()) + (encode_all(ib) + y));
    lemma_varint_prefix_free(ia.len(), ib.len(), encode_all(ia) + x, encode_all(ib) + y);
    lemma_encode_all_prefix_free(ia, ib, x, y);
}

proof fn lemma_named_items_prefix_free(fa: Seq<(Seq<char>, Shape)>, fb: Seq<(Seq<char>, Shape)>, x: Seq<u8>, y: Seq<u8>)
    requires
        varint(fa.len()) + encode_fields(fa) + x == varint(fb.len()) + encode_fields(fb) + y,
    ensures
        fa == fb,
        x == y,
    decreases fa, 1nat,
{
    assert(varint(fa.len()) + encode_fields(fa) + x =~= varint(fa.len()) + (encode_fields(fa) + x));
    assert(varint(fb.len()) + encode_fields(fb) + y =~= varint(fb.len()) + (encode_fields(fb) + y));
    lemma_varint_prefix_free(fa.len(), fb.len(), encode_fields(fa) + x, encode_fields(fb) + y);
    lemma_encode_fields_prefix_free(fa, fb, x, y);
}

proof fn lemma_named_prefix_free(a: Shape, b: Shape, x: Seq<u8>, y: Seq<u8>)
    requires
        a is Named,
        b is Named,
        tag_and_rest(a).1 + x == tag_and_rest(b).1 + y,
    ensures
        a == b,
        x == y,
    decreases a, 0nat,
{
    let na = a->Named_0;
    let ia = *a->Named_1;
    let nb = b->Named_0;
    let ib = *b->Named_1;
    assert(tag_and_rest(a).1 + x =~= text(na) + (encode(ia) + x));
    assert(tag_and_rest(b).1 + y =~= text(nb) + (encode(ib) + y));
    lemma_text_prefix_free(na, nb, encode(ia) + x, encode(ib) + y);
    lemma_encode_prefix_free(ia, ib, x, y);
}

proof fn lemma_map_prefix_free(a: Shape, b: Shape, x: Seq<u8>, y: Seq<u8>)
    requires
        a is MapOf,
        b is MapOf,
        tag_and_rest(a).1 + x == tag_and_rest(b).1 + y,
    ensures
        a == b,
        x == y,
    decreases a, 0nat,
{
    let ka = *a->MapOf_0;
    let va = *a->MapOf_1;
    let kb = *b->MapOf_0;
    let vb = *b->MapOf_1;
    assert(tag_and_rest(a).1 + x =~= encode(ka) + (encode(va) + x));
    assert(tag_and_rest(b).1 + y =~= encode(kb) + (encode(vb) + y));
    lemma_encode_prefix_free(ka, kb, encode(va) + x, encode(vb) + y);
    lemma_encode_prefix_free(va, vb, x, y);
}

#[verifier::spinoff_prover]
proof fn lemma_rest_prefix_free(a: Shape, b: Shape, x: Seq<u8>, y: Seq<u8>)
    requires
        tag_and_rest(a).0 == tag_and_rest(b).0,
        tag_and_rest(a).1 + x == tag_and_rest(b).1 + y,
    ensures
        a == b,
        x == y,
    decreases a, 1nat,
{
    match a {
        Shape::Unit => {
            assert(b is Unit);
            assert(x =~= tag_and_rest(a).1 + x);
            assert(y =~= tag_and_rest(b).1 + y);
        },
        Shape::Bottom => {
            assert(b is Bottom);
            assert(x =~= tag_and_rest(a).1 + x);
            assert(y =~= tag_and_rest(b).1 + y);
        },
        Shape::Atom(na) => {
            assert(b is Atom);
            lemma_text_prefix_free(na, b->Atom_0, x, y);
        },
        Shape::Product(ia) => {
            assert(b is Product);
            lemma_items_prefix_free(ia, b->Product_0, x, y);
        },
        Shape::Sum(ia) => {
            assert(b is Sum);
            lemma_items_prefix_free(ia, b->Sum_0, x, y);
        },
        Shape::Struct(fa) => {
            assert(b is Struct);
            lemma_named_items_prefix_free(fa, b->Struct_0, x, y);
        },
        Shape::Enum(fa) => {
            assert(b is Enum);
            lemma_named_items_prefix_free(fa, b->Enum_0, x, y);
        },
        Shape::Named(_, _) => {
            assert(b is Named);
            lemma_named_prefix_free(a, b, x, y);
        },
        Shape::SeqOf(ia) => {
            assert(b is SeqOf);
            lemma_encode_prefix_free(*ia, *b->SeqOf_0, x, y);
        },
        Shape::SetOf(ia) => {
            assert(b is SetOf);
            lemma_encode_prefix_free(*ia, *b->SetOf_0, x, y);
        },
        Shape::MapOf(_, _) => {
            assert(b is MapOf);
            lemma_map_prefix_free(a, b, x, y);
        },
    }
}

/// The tag that starts the encoding of a shape, and the bytes after it.
pub open spec fn tag_and_rest(s: Shape) -> (nat, Seq<u8>) {
    match s {
        Shape::Unit => (0, Seq::empty()),
        Shape::Bottom => (1, Seq::empty()),
        Shape::Atom(name) => (2, text(name)),
        Shape::Product(items) => (3, varint(items.len()) + encode_all(items)),
        Shape::Sum(items) => (4, varint(items.len()) + encode_all(items)),
        Shape::Struct(fields) => (5, varint(fields.len()) + encode_fields(fields)),
        Shape::Enum(fields) => (6, varint(fields.len()) + encode_fields(fields)),
        Shape::Named(name, inner) => (7, text(name) + encode(*inner)),
        Shape::SeqOf(item) => (8, encode(*item)),
        Shape::SetOf(item) => (9, encode(*item)),
        Shape::MapOf(k, v) => (10, encode(*k) + encode(*v)),
    }
}

/// Distinct shapes have distinct canonical encodings.
pub proof fn lemma_shape_encoding_injective(a: Shape, b: Shape)
    requires
        a != b,
    ensures
        encode(a) != encode(b),
{
    if encode(a) == encode(b) {
        let e: Seq<u8> = Seq::empty();
        assert(encode(a) + e =~= encode(b) + e);
        lemma_encode_prefix_free(a, b, e, e);
    }
}

/// Structurally distinct schemas have distinct canonical encodings, so their
/// stable hashes can only agree through a collision of BLAKE3 itself.
pub proof fn lemma_encoding_injective(s1: Schema, s2: Schema)
    requires
        s1@ != s2@,
    ensures
        encode(s1@) != encode(s2@),
{
    lemma_shape_encoding_injective(s1@, s2@);
}

/// Ordered collections are encoded in their order, never re-sorted: swapping
/// two different items of a tuple or a sum, or two different fields of a
/// struct or variants of an enum, changes the encoding, and so the hash but
/// for a collision of BLAKE3.
pub proof fn lemma_order_is_kept(a: Schema, b: Schema, n: Seq<char>, m: Seq<char>)
    requires
        (n, a@) != (m, b@),
    ensures
        a@ != b@ ==> encode(Shape::Product(seq![a@, b@])) != encode(Shape::Product(seq![b@, a@])),
        a@ != b@ ==> encode(Shape::Sum(seq![a@, b@])) != encode(Shape::Sum(seq![b@, a@])),
        encode(Shape::Struct(seq![(n, a@), (m, b@)])) != encode(Shape::Struct(seq![(m, b@), (n, a@)])),
        encode(Shape::Enum(seq![(n, a@), (m, b@)])) != encode(Shape::Enum(seq![(m, b@), (n, a@)])),
{
    if a@ != b@ {
        assert(seq![a@, b@][0] != seq![b@, a@][0]);
        lemma_shape_encoding_injective(Shape::Product(seq![a@, b@]), Shape::Product(seq![b@, a@]));
        lemma_shape_encoding_injective(Shape::Sum(seq![a@, b@]), Shape::Sum(seq![b@, a@]));
    }
    assert(seq![(n, a@), (m, b@)][0] != seq![(m, b@), (n, a@)][0]);
    lemma_shape_encoding_injective(
        Shape::Struct(seq![(n, a@), (m, b@)]),
        Shape::Struct(seq![(m, b@), (n, a@)]),
    );
    lemma_shape_encoding_injective(Shape::Enum(seq![(n, a@), (m, b@)]), Shape::Enum(seq![(m, b@), (n, a@)]));
}

/// A name is part of a nominal schema's identity: the same schema under two
/// different names, or under a name and bare, encodes differently, and so
/// hashes differently but for a collision of BLAKE3.
pub proof fn lemma_name_is_kept(n1: Seq<char>, n2: Seq<char>, x: Schema)
    requires
        n1 != n2,
    ensures
        encode(Shape::Named(n1, Box::new(x@))) != encode(Shape::Named(n2, Box::new(x@))),
        encode(Shape::Named(n1, Box::new(x@))) != encode(x@),
{
    let named = Shape::Named(n1, Box::new(x@));
    lemma_shape_encoding_injective(named, Shape::Named(n2, Box::new(x@)));
    assert(decreases_to!(named => x@));
    lemma_shape_encoding_injective(named, x@);
}

/// Combines a schema with its stable hash.
///
/// This is just to avoid the overhead of calling `stable_hash` every time.
#[derive(Debug, PartialEq, Eq)]
pub struct SchemaAndHash {
    pub schema: Schema,
    pub hash: [u8; 32],
}

impl From<Schema> for SchemaAndHash {
    fn from(schema: Schema) -> (r: Self)
        ensures
            r.schema == schema,
            r.hash@ == stable_hash_of(schema@),
    {
        let hash = schema.stable_hash();
        SchemaAndHash { schema, hash }
    }
}

impl vstd::std_specs::convert::FromSpecImpl<Schema> for SchemaAndHash {
    open spec fn obeys_from_spec() -> bool {
        false
    }

    open spec fn from_spec(v: Schema) -> SchemaAndHash {
        SchemaAndHash { schema: v, hash: arbitrary() }
    }
}

/// The stable hash is a function of a schema's structure: two schemas that
/// are structurally equal, however they were built, have the same canonical
/// encoding and so the same hash.
pub proof fn lemma_stable_hash_structural(s1: Schema, s2: Schema)
    requires
        s1@ == s2@,
    ensures
        encode(s1@) == encode(s2@),
        stable_hash_of(s1@) == stable_hash_of(s2@),
{
}

} // verus!
