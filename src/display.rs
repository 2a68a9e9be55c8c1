use vstd::prelude::*;
use vstd::string::StringExecFns;
use crate::schema::{Named, Schema, Shape, shapes, named_shapes, lemma_shapes_index, lemma_named_shapes_index};

verus! {

/// The one-line rendering of a shape.
pub open spec fn compact(s: Shape) -> Seq<char>
    decreases s,
{
    match s {
        Shape::Bottom => "⊥"@,
        Shape::Unit => "()"@,
        Shape::Atom(name) => "\""@ + name + "\""@,
        Shape::Product(items) => "("@ + compact_join(items, ","@) + ")"@,
        Shape::Struct(fields) => "("@ + compact_join_fields(fields, ","@) + ")"@,
        Shape::Sum(items) => "("@ + compact_join(items, "|"@) + ")"@,
        Shape::Enum(fields) => "("@ + compact_join_fields(fields, "|"@) + ")"@,
        Shape::Named(name, inner) => "\""@ + name + "\":"@ + compact(*inner),
        Shape::SeqOf(item) => "["@ + compact(*item) + "]"@,
        Shape::SetOf(item) => "{"@ + compact(*item) + "}"@,
        Shape::MapOf(k, v) => "{"@ + compact(*k) + ":"@ + compact(*v) + "}"@,
    }
}

/// One-line renderings of shapes, separated by `sep`.
pub open spec fn compact_join(items: Seq<Shape>, sep: Seq<char>) -> Seq<char>
    decreases items,
{
    if items.len() == 0 {
        Seq::empty()
    } else if items.len() == 1 {
        compact(items[0])
    } else {
        compact_join(items.drop_last(), sep) + sep + compact(items.last())
    }
}

/// One-line renderings of named shapes as `"name":shape`, separated by `sep`.
pub open spec fn compact_join_fields(fields: Seq<(Seq<char>, Shape)>, sep: Seq<char>) -> Seq<char>
    decreases fields,
{
    if fields.len() == 0 {
        Seq::empty()
    } else if fields.len() == 1 {
        "\""@ + fields[0].0 + "\":"@ + compact(fields[0].1)
    } else {
        compact_join_fields(fields.drop_last(), sep) + sep + "\""@ + fields.last().0 + "\":"@ + compact(fields.last().1)
    }
}

fn write_compact_join(items: &Vec<Schema>, sep: &str, out: &mut String)
    ensures
        final(out)@ == old(out)@ + "("@ + compact_join(shapes(items@), sep@) + ")"@,
    decreases items,
{
    out.append("(");
    let ghost start = out@;
    proof {
        lemma_shapes_index(items@);
    }
    let mut i: usize = 0;
    while i < items.len()
        invariant
            i <= items@.len(),
            shapes(items@).len() == items@.len(),
            forall|j: int| 0 <= j < items@.len() ==> #[trigger] shapes(items@)[j] == items@[j]@,
            out@ == start + compact_join(shapes(items@).take(i as int), sep@),
        decreases items@.len() - i,
    {
        proof {
            vstd::std_specs::vec::axiom_vec_index_decreases(*items, i as int);
        }
        if i > 0 {
            out.append(sep);
        }
        write_compact(&items[i], out);
        proof {
            let t = shapes(items@).take(i + 1);
            assert(t.drop_last() =~= shapes(items@).take(i as int));
            assert(out@ =~= start + compact_join(t, sep@));
        }
        i = i + 1;
    }
    proof {
        assert(shapes(items@).take(i as int) =~= shapes(items@));
    }
    out.append(")");
}

fn write_compact_join_fields(fields: &Vec<Named>, sep: &str, out: &mut String)
    ensures
        final(out)@ == old(out)@ + "("@ + compact_join_fields(named_shapes(fields@), sep@) + ")"@,
    decreases fields,
{
    out.append("(");
    let ghost start = out@;
    proof {
        lemma_named_shapes_index(fields@);
    }
    let mut i: usize = 0;
    while i < fields.len()
        invariant
            i <= fields@.len(),
            named_shapes(fields@).len() == fields@.len(),
            forall|j: int| 0 <= j < fields@.len() ==> #[trigger] named_shapes(fields@)[j] == fields@[j]@,
            out@ == start + compact_join_fields(named_shapes(fields@).take(i as int), sep@),
        decreases fields@.len() - i,
    {
        let field: &Named = &fields[i];
        proof {
            vstd::std_specs::vec::axiom_vec_index_decreases(*fields, i as int);
        }
        if i > 0 {
            out.append(sep);
        }
        out.append("\"");
        out.append(field.0.as_str());
        out.append("\":");
        write_compact(&field.1, out);
        proof {
            let t = named_shapes(fields@).take(i + 1);
            assert(t.drop_last() =~= named_shapes(fields@).take(i as int));
            assert(out@ =~= start + compact_join_fields(t, sep@));
        }
        i = i + 1;
    }
    proof {
        assert(named_shapes(fields@).take(i as int) =~= named_shapes(fields@));
    }
    out.append(")");
}

fn write_compact(s: &Schema, out: &mut String)
    ensures
        final(out)@ == old(out)@ + compact(s@),
    decreases s,
{
    match s {
        Schema::Bottom => {
            out.append("⊥");
        },
        Schema::Unit => {
            out.append("()");
        },
        Schema::Atom(name) => {
            out.append("\"");
            out.append(name.as_str());
            out.append("\"");
        },
        Schema::Product(items) => {
            write_compact_join(items, ",", out);
        },
        Schema::Struct(fields) => {
            write_compact_join_fields(fields, ",", out);
        },
        Schema::Sum(items) => {
            write_compact_join(items, "|", out);
        },
        Schema::Enum(fields) => {
            write_compact_join_fields(fields, "|", out);
        },
        Schema::Named(n) => {
            out.append("\"");
            out.append(n.0.as_str());
            out.append("\":");
            write_compact(&n.1, out);
        },
        Schema::SeqOf(item) => {
            out.append("[");
            write_compact(item, out);
            out.append("]");
        },
        Schema::SetOf(item) => {
            out.append("{");
            write_compact(item, out);
            out.append("}");
        },
        Schema::MapOf(k, v) => {
            out.append("{");
            write_compact(k, out);
            out.append(":");
            write_compact(v, out);
            out.append("}");
        },
    }
    proof {
        assert(final(out)@ =~= old(out)@ + compact(s@));
    }
}

impl Named {
    /// Renders `"name":schema` on one line.
    pub fn display(&self) -> (r: String)
        ensures
            r@ == "\""@ + self.0@ + "\":"@ + compact(self.1@),
    {
        let mut out = String::new();
        out.append("\"");
        out.append(self.0.as_str());
        out.append("\":");
        write_compact(&self.1, &mut out);
        proof {
            assert(out@ =~= "\""@ + self.0@ + "\":"@ + compact(self.1@));
        }
        out
    }
}

impl Schema {
    /// Renders the schema on one line.
    pub fn display(&self) -> (r: String)
        ensures
            r@ == compact(self@),
    {
        let mut out = String::new();
        write_compact(self, &mut out);
        proof {
            assert(out@ =~= compact(self@));
        }
        out
    }
}

} // verus!
