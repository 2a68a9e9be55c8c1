use vstd::prelude::*;
use vstd::string::StringExecFns;
use crate::schema::{Named, Schema, Shape, shapes, named_shapes, lemma_shapes_index, lemma_named_shapes_index};

verus! {

/// `n` spaces.
pub open spec fn spaces(n: nat) -> Seq<char> {
    Seq::new(n, |i: int| ' ')
}

/// How deep rendering nests: the number of indentation steps below a shape.
pub open spec fn depth(s: Shape) -> nat
    decreases s,
{
    match s {
        Shape::Product(items) => 1 + depth_all(items),
        Shape::Sum(items) => 1 + depth_all(items),
        Shape::Struct(fields) => 1 + depth_fields(fields),
        Shape::Enum(fields) => 1 + depth_fields(fields),
        Shape::Named(_, inner) => depth(*inner),
        Shape::SeqOf(item) => 1 + depth(*item),
        Shape::SetOf(item) => 1 + depth(*item),
        Shape::MapOf(k, v) => 1 + vstd::math::max(depth(*k) as int, depth(*v) as int) as nat,
        _ => 0,
    }
}

pub open spec fn depth_all(items: Seq<Shape>) -> nat
    decreases items,
{
    if items.len() == 0 {
        0
    } else {
        vstd::math::max(depth_all(items.drop_last()) as int, depth(items.last()) as int) as nat
    }
}

pub open spec fn depth_fields(fields: Seq<(Seq<char>, Shape)>) -> nat
    decreases fields,
{
    if fields.len() == 0 {
        0
    } else {
        vstd::math::max(depth_fields(fields.drop_last()) as int, depth(fields.last().1) as int) as nat
    }
}

/// The rendering of a shape at an indentation, without the leading
/// indentation of its first line.
pub open spec fn body(s: Shape, indent: nat) -> Seq<char>
    decreases s,
{
    match s {
        Shape::Bottom => "⊥"@,
        Shape::Unit => "()"@,
        Shape::Atom(name) => "\""@ + name + "\""@,
        Shape::Product(items) => "(\n"@ + join(items, indent + 2, ",\n"@) + "\n"@ + spaces(indent) + ")"@,
        Shape::Struct(fields) => "(\n"@ + join_fields(fields, indent + 2, ",\n"@) + "\n"@ + spaces(indent) + ")"@,
        Shape::Sum(items) => "(\n"@ + join(items, indent + 2, " |\n"@) + "\n"@ + spaces(indent) + ")"@,
        Shape::Enum(fields) => "(\n"@ + join_fields(fields, indent + 2, " |\n"@) + "\n"@ + spaces(indent) + ")"@,
        Shape::Named(name, inner) => "\""@ + name + "\": "@ + body(*inner, indent),
        Shape::SeqOf(item) => "[\n"@ + spaces(indent + 2) + body(*item, indent + 2) + "\n"@ + spaces(indent) + "]"@,
        Shape::SetOf(item) => "{\n"@ + spaces(indent + 2) + body(*item, indent + 2) + "\n"@ + spaces(indent) + "}"@,
        Shape::MapOf(k, v) => "{\n"@ + spaces(indent + 2) + body(*k, indent + 2) + ": "@ + body(*v, indent + 2) + "\n"@
            + spaces(indent) + "}"@,
    }
}

/// Each shape rendered on its own lines at `indent`, separated by `sep`.
pub open spec fn join(items: Seq<Shape>, indent: nat, sep: Seq<char>) -> Seq<char>
    decreases items,
{
    if items.len() == 0 {
        Seq::empty()
    } else if items.len() == 1 {
        spaces(indent) + body(items[0], indent)
    } else {
        join(items.drop_last(), indent, sep) + sep + spaces(indent) + body(items.last(), indent)
    }
}

/// Each named shape rendered as `"name": shape` at `indent`, separated by `sep`.
pub open spec fn join_fields(fields: Seq<(Seq<char>, Shape)>, indent: nat, sep: Seq<char>) -> Seq<char>
    decreases fields,
{
    if fields.len() == 0 {
        Seq::empty()
    } else if fields.len() == 1 {
        spaces(indent) + "\""@ + fields[0].0 + "\": "@ + body(fields[0].1, indent)
    } else {
        join_fields(fields.drop_last(), indent, sep) + sep + spaces(indent) + "\""@ + fields.last().0 + "\": "@
            + body(fields.last().1, indent)
    }
}

/// A named shape at `indent`: the indentation, the quoted name, a colon and
/// the shape on the same line.
pub open spec fn named_rendered(name: Seq<char>, s: Shape, indent: nat) -> Seq<char> {
    spaces(indent) + "\""@ + name + "\": "@ + body(s, indent)
}

/// The full rendering of a shape at an indentation.
pub open spec fn rendered(s: Shape, indent: nat) -> Seq<char> {
    spaces(indent) + body(s, indent)
}

proof fn lemma_depth_all(items: Seq<Shape>, i: int)
    requires
        0 <= i < items.len(),
    ensures
        depth(items[i]) <= depth_all(items),
    decreases items.len(),
{
    if i < items.len() - 1 {
        lemma_depth_all(items.drop_last(), i);
    }
}

proof fn lemma_depth_fields(fields: Seq<(Seq<char>, Shape)>, i: int)
    requires
        0 <= i < fields.len(),
    ensures
        depth(fields[i].1) <= depth_fields(fields),
    decreases fields.len(),
{
    if i < fields.len() - 1 {
        lemma_depth_fields(fields.drop_last(), i);
    }
}

fn push_spaces(out: &mut String, n: usize)
    ensures
        final(out)@ == old(out)@ + spaces(n as nat),
{
    proof {
        reveal_strlit(" ");
    }
    let mut i: usize = 0;
    while i < n
        invariant
            i <= n,
            out@ == old(out)@ + spaces(i as nat),
            " "@ == seq![' '],
        decreases n - i,
    {
        out.append(" ");
        i = i + 1;
        proof {
            assert(out@ =~= old(out)@ + spaces(i as nat));
        }
    }
}

fn write_join(items: &Vec<Schema>, outer: usize, sep: &str, out: &mut String)
    requires
        outer + 2 + 2 * depth_all(shapes(items@)) <= usize::MAX,
    ensures
        final(out)@ == old(out)@ + "(\n"@ + join(shapes(items@), (outer + 2) as nat, sep@) + "\n"@ + spaces(outer as nat) + ")"@,
    decreases items,
{
    let indent: usize = outer + 2;
    out.append("(\n");
    let ghost start = out@;
    proof {
        lemma_shapes_index(items@);
    }
    let mut i: usize = 0;
    while i < items.len()
        invariant
            i <= items@.len(),
            indent + 2 * depth_all(shapes(items@)) <= usize::MAX,
            shapes(items@).len() == items@.len(),
            forall|j: int| 0 <= j < items@.len() ==> #[trigger] shapes(items@)[j] == items@[j]@,
            indent == outer + 2,
            out@ == start + join(shapes(items@).take(i as int), indent as nat, sep@),
        decreases items@.len() - i,
    {
        proof {
            vstd::std_specs::vec::axiom_vec_index_decreases(*items, i as int);
            lemma_depth_all(shapes(items@), i as int);
        }
        if i > 0 {
            out.append(sep);
        }
        push_spaces(out, indent);
        write_body(&items[i], indent, out);
        proof {
            let t = shapes(items@).take(i + 1);
            assert(t.drop_last() =~= shapes(items@).take(i as int));
            assert(out@ =~= start + join(t, indent as nat, sep@));
        }
        i = i + 1;
    }
    proof {
        assert(shapes(items@).take(i as int) =~= shapes(items@));
    }
    out.append("\n");
    push_spaces(out, outer);
    out.append(")");
}

fn write_join_fields(fields: &Vec<Named>, outer: usize, sep: &str, out: &mut String)
    requires
        outer + 2 + 2 * depth_fields(named_shapes(fields@)) <= usize::MAX,
    ensures
        final(out)@ == old(out)@ + "(\n"@ + join_fields(named_shapes(fields@), (outer + 2) as nat, sep@) + "\n"@
            + spaces(outer as nat) + ")"@,
    decreases fields,
{
    let indent: usize = outer + 2;
    out.append("(\n");
    let ghost start = out@;
    proof {
        lemma_named_shapes_index(fields@);
    }
    let mut i: usize = 0;
    while i < fields.len()
        invariant
            i <= fields@.len(),
            indent + 2 * depth_fields(named_shapes(fields@)) <= usize::MAX,
            named_shapes(fields@).len() == fields@.len(),
            forall|j: int| 0 <= j < fields@.len() ==> #[trigger] named_shapes(fields@)[j] == fields@[j]@,
            indent == outer + 2,
            out@ == start + join_fields(named_shapes(fields@).take(i as int), indent as nat, sep@),
        decreases fields@.len() - i,
    {
        let field: &Named = &fields[i];
        proof {
            vstd::std_specs::vec::axiom_vec_index_decreases(*fields, i as int);
            lemma_depth_fields(named_shapes(fields@), i as int);
        }
        if i > 0 {
            out.append(sep);
        }
        push_spaces(out, indent);
        out.append("\"");
        out.append(field.0.as_str());
        out.append("\": ");
        write_body(&field.1, indent, out);
        proof {
            let t = named_shapes(fields@).take(i + 1);
            assert(t.drop_last() =~= named_shapes(fields@).take(i as int));
            assert(out@ =~= start + join_fields(t, indent as nat, sep@));
        }
        i = i + 1;
    }
    proof {
        assert(named_shapes(fields@).take(i as int) =~= named_shapes(fields@));
    }
    out.append("\n");
    push_spaces(out, outer);
    out.append(")");
}

#[verifier::spinoff_prover]
#[verifier::rlimit(60)]
fn write_body(s: &Schema, indent: usize, out: &mut String)
    requires
        indent + 2 * depth(s@) <= usize::MAX,
    ensures
        final(out)@ == old(out)@ + body(s@, indent as nat),
    decreases s,
{
    match s {
        Schema::Bottom => {
            out.append("⊥");
            assert(out@ =~= old(out)@ + body(s@, indent as nat));
        },
        Schema::Unit => {
            out.append("()");
            assert(out@ =~= old(out)@ + body(s@, indent as nat));
        },
        Schema::Atom(name) => {
            out.append("\"");
            out.append(name.as_str());
            out.append("\"");
            assert(out@ =~= old(out)@ + body(s@, indent as nat));
        },
        Schema::Product(items) => {
            write_join(items, indent, ",\n", out);
            assert(out@ =~= old(out)@ + body(s@, indent as nat));
        },
        Schema::Struct(fields) => {
            write_join_fields(fields, indent, ",\n", out);
            assert(out@ =~= old(out)@ + body(s@, indent as nat));
        },
        Schema::Sum(items) => {
            write_join(items, indent, " |\n", out);
            assert(out@ =~= old(out)@ + body(s@, indent as nat));
        },
        Schema::Enum(fields) => {
            write_join_fields(fields, indent, " |\n", out);
            assert(out@ =~= old(out)@ + body(s@, indent as nat));
        },
        Schema::Named(n) => {
            out.append("\"");
            out.append(n.0.as_str());
            out.append("\": ");
            write_body(&n.1, indent, out);
            assert(out@ =~= old(out)@ + body(s@, indent as nat));
        },
        Schema::SeqOf(item) => {
            out.append("[\n");
            push_spaces(out, indent + 2);
            write_body(item, indent + 2, out);
            out.append("\n");
            push_spaces(out, indent);
            out.append("]");
            assert(out@ =~= old(out)@ + body(s@, indent as nat));
        },
        Schema::SetOf(item) => {
            out.append("{\n");
            push_spaces(out, indent + 2);
            write_body(item, indent + 2, out);
            out.append("\n");
            push_spaces(out, indent);
            out.append("}");
            assert(out@ =~= old(out)@ + body(s@, indent as nat));
        },
        Schema::MapOf(k, v) => {
            out.append("{\n");
            push_spaces(out, indent + 2);
            write_body(k, indent + 2, out);
            out.append(": ");
            write_body(v, indent + 2, out);
            out.append("\n");
            push_spaces(out, indent);
            out.append("}");
            assert(out@ =~= old(out)@ + body(s@, indent as nat));
        },
    }
}

impl Named {
    /// Renders `"name": schema` at the given indentation.
    pub fn pretty_print(&self, indent: usize) -> (r: String)
        requires
            indent + 2 * depth(self.1@) <= usize::MAX,
        ensures
            r@ == named_rendered(self.0@, self.1@, indent as nat),
    {
        let mut out = String::new();
        push_spaces(&mut out, indent);
        out.append("\"");
        out.append(self.0.as_str());
        out.append("\": ");
        write_body(&self.1, indent, &mut out);
        proof {
            assert(out@ =~= named_rendered(self.0@, self.1@, indent as nat));
        }
        out
    }
}

impl Schema {
    /// Renders the schema over several lines, every line indented by at
    /// least `indent` spaces and nested parts by two more per level.
    pub fn pretty_print(&self, indent: usize) -> (r: String)
        requires
            indent + 2 * depth(self@) <= usize::MAX,
        ensures
            r@ == rendered(self@, indent as nat),
    {
        let mut out = String::new();
        push_spaces(&mut out, indent);
        write_body(self, indent, &mut out);
        proof {
            assert(out@ =~= rendered(self@, indent as nat));
        }
        out
    }
}

/// Rendering is a function of the schema's structure and the indentation
/// alone: the same schema, or a structurally equal one, renders to the same
/// text every time.
pub proof fn lemma_pretty_print_pure(s1: Schema, s2: Schema, name: Seq<char>, indent: nat)
    requires
        s1@ == s2@,
    ensures
        rendered(s1@, indent) == rendered(s2@, indent),
        crate::display::compact(s1@) == crate::display::compact(s2@),
        named_rendered(name, s1@, indent) == named_rendered(name, s2@, indent),
{
}

} // verus!
