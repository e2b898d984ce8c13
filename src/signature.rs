use vstd::prelude::*;
use crate::model::{DatatypeTParam, Enum, Field, Fields, Function, Parameter, Struct, TParam, Type, Variant};
use crate::render::{list_text, push_type_list, type_text, type_to_string};

verus! {

/// Why a signature could not be rendered.
#[derive(PartialEq, Eq, Structural, Clone, Copy, Debug)]
pub enum RenderError {
    /// A type parameter carries no display name.
    UnnamedTypeParameter,
}

/// Every type parameter carries a display name.
pub open spec fn all_named(ps: Seq<TParam>) -> bool {
    forall|i: int| 0 <= i < ps.len() ==> (#[trigger] ps[i]).name is Some
}

/// The display names of the type parameters, separated by `", "`.
pub open spec fn names_text(ps: Seq<TParam>) -> Seq<char>
    decreases ps.len(),
{
    if ps.len() == 0 {
        Seq::empty()
    } else if ps.len() == 1 {
        ps[0].name->0@
    } else {
        names_text(ps.subrange(0, ps.len() - 1)) + ", "@ + ps[ps.len() - 1].name->0@
    }
}

/// `<A, B>` for named type parameters, nothing when there are none.
pub open spec fn generics_text(ps: Seq<TParam>) -> Seq<char> {
    if ps.len() == 0 {
        Seq::empty()
    } else {
        "<"@ + names_text(ps) + ">"@
    }
}

pub open spec fn datatype_tparams(ps: Seq<DatatypeTParam>) -> Seq<TParam> {
    ps.map_values(|p: DatatypeTParam| p.tparam)
}

/// Each parameter on a line of its own: `"\n    name: type,"`.
pub open spec fn params_text(ps: Seq<Parameter>) -> Seq<char>
    decreases ps.len(),
{
    if ps.len() == 0 {
        Seq::empty()
    } else {
        let p = ps[ps.len() - 1];
        params_text(ps.subrange(0, ps.len() - 1)) + "\n    "@ + p.name@ + ": "@ + type_text(p.type_)
            + ","@
    }
}

/// Nothing for no result, `": t"` for one, `": (t1, t2)"` for several.
pub open spec fn returns_text(rs: Seq<Type>) -> Seq<char> {
    if rs.len() == 0 {
        Seq::empty()
    } else if rs.len() == 1 {
        ": "@ + type_text(rs[0])
    } else {
        ": ("@ + list_text(rs) + ")"@
    }
}

/// The signature of function `name`, given that its type parameters are named.
pub open spec fn function_text(name: Seq<char>, f: Function) -> Seq<char> {
    "fun "@ + name + generics_text(f.type_parameters@) + "("@ + params_text(f.parameters@) + (if f.parameters@.len()
        == 0 {
        Seq::empty()
    } else {
        "\n"@
    }) + ")"@ + returns_text(f.return_@)
}

/// Each field on a line of its own: `"    name: type,\n"`.
pub open spec fn struct_fields_text(fs: Seq<Field>) -> Seq<char>
    decreases fs.len(),
{
    if fs.len() == 0 {
        Seq::empty()
    } else {
        let f = fs[fs.len() - 1];
        struct_fields_text(fs.subrange(0, fs.len() - 1)) + "    "@ + f.name@ + ": "@ + type_text(f.type_)
            + ",\n"@
    }
}

/// The signature of struct `name`, given that its type parameters are named.
pub open spec fn struct_text(name: Seq<char>, s: Struct) -> Seq<char> {
    "struct "@ + name + generics_text(datatype_tparams(s.type_parameters@)) + " {\n"@
        + struct_fields_text(s.fields.fields@) + "}"@
}

/// The field types, separated by `", "`.
pub open spec fn positional_text(fs: Seq<Field>) -> Seq<char>
    decreases fs.len(),
{
    if fs.len() == 0 {
        Seq::empty()
    } else if fs.len() == 1 {
        type_text(fs[0].type_)
    } else {
        positional_text(fs.subrange(0, fs.len() - 1)) + ", "@ + type_text(fs[fs.len() - 1].type_)
    }
}

/// `name: type` for each field, separated by `", "`.
pub open spec fn named_text(fs: Seq<Field>) -> Seq<char>
    decreases fs.len(),
{
    if fs.len() == 0 {
        Seq::empty()
    } else if fs.len() == 1 {
        fs[0].name@ + ": "@ + type_text(fs[0].type_)
    } else {
        let f = fs[fs.len() - 1];
        named_text(fs.subrange(0, fs.len() - 1)) + ", "@ + f.name@ + ": "@ + type_text(f.type_)
    }
}

/// What follows a variant's name: nothing, `(t1, t2)` or ` { a: t1, b: t2 }`.
pub open spec fn variant_fields_text(fs: Fields) -> Seq<char> {
    if fs.fields@.len() == 0 {
        Seq::empty()
    } else if fs.positional_fields {
        "("@ + positional_text(fs.fields@) + ")"@
    } else {
        " { "@ + named_text(fs.fields@) + " }"@
    }
}

/// Each variant on a line of its own.
pub open spec fn variants_text(vs: Seq<Variant>) -> Seq<char>
    decreases vs.len(),
{
    if vs.len() == 0 {
        Seq::empty()
    } else {
        let v = vs[vs.len() - 1];
        variants_text(vs.subrange(0, vs.len() - 1)) + "    "@ + v.name@ + variant_fields_text(v.fields)
            + ",\n"@
    }
}

/// The signature of enum `name`, given that its type parameters are named.
pub open spec fn enum_text(name: Seq<char>, e: Enum) -> Seq<char> {
    "enum "@ + name + generics_text(datatype_tparams(e.type_parameters@)) + " {\n"@
        + variants_text(e.variants@) + "}"@
}

/// Appends the names of `ps` separated by `", "`, or says that one is missing.
fn push_names(out: &mut String, ps: &Vec<TParam>) -> (ok: bool)
    ensures
        ok == all_named(ps@),
        ok ==> final(out)@ == old(out)@ + names_text(ps@),
{
    let mut i: usize = 0;
    while i < ps.len()
        invariant
            i <= ps@.len(),
            all_named(ps@.subrange(0, i as int)),
            out@ == old(out)@ + names_text(ps@.subrange(0, i as int)),
        decreases ps@.len() - i,
    {
        match &ps[i].name {
            None => {
                assert(ps@[i as int].name is None);
                return false;
            },
            Some(n) => {
                if i > 0 {
                    out.append(", ");
                }
                out.append(n.as_str());
            },
        }
        proof {
            let next = ps@.subrange(0, i + 1);
            assert(next.subrange(0, i as int) =~= ps@.subrange(0, i as int));
            assert(next[i as int] == ps@[i as int]);
            assert forall|j: int| 0 <= j < next.len() implies (#[trigger] next[j]).name is Some by {
                if j < i {
                    assert(next[j] == ps@.subrange(0, i as int)[j]);
                }
            }
        }
        i = i + 1;
    }
    assert(ps@.subrange(0, ps@.len() as int) =~= ps@);
    true
}

/// Appends `<A, B>` for the type parameters, or says that a name is missing.
fn push_generics(out: &mut String, ps: &Vec<TParam>) -> (ok: bool)
    ensures
        ok == all_named(ps@),
        ok ==> final(out)@ == old(out)@ + generics_text(ps@),
{
    if ps.len() == 0 {
        return true;
    }
    out.append("<");
    let ok = push_names(out, ps);
    if ok {
        out.append(">");
    }
    ok
}

/// Appends `<A, B>` for a datatype's type parameters, or says that a name is missing.
fn push_datatype_generics(out: &mut String, ps: &Vec<DatatypeTParam>) -> (ok: bool)
    ensures
        ok == all_named(datatype_tparams(ps@)),
        ok ==> final(out)@ == old(out)@ + generics_text(datatype_tparams(ps@)),
{
    let ghost m = datatype_tparams(ps@);
    if ps.len() == 0 {
        return true;
    }
    out.append("<");
    let mut i: usize = 0;
    while i < ps.len()
        invariant
            i <= ps@.len(),
            m == datatype_tparams(ps@),
            m.len() == ps@.len(),
            all_named(m.subrange(0, i as int)),
            out@ == old(out)@ + "<"@ + names_text(m.subrange(0, i as int)),
        decreases ps@.len() - i,
    {
        assert(m[i as int] == ps@[i as int].tparam);
        match &ps[i].tparam.name {
            None => {
                assert(m[i as int].name is None);
                return false;
            },
            Some(n) => {
                if i > 0 {
                    out.append(", ");
                }
                out.append(n.as_str());
            },
        }
        proof {
            let next = m.subrange(0, i + 1);
            assert(next.subrange(0, i as int) =~= m.subrange(0, i as int));
            assert(next[i as int] == m[i as int]);
            assert forall|j: int| 0 <= j < next.len() implies (#[trigger] next[j]).name is Some by {
                if j < i {
                    assert(next[j] == m.subrange(0, i as int)[j]);
                }
            }
        }
        i = i + 1;
    }
    assert(m.subrange(0, m.len() as int) =~= m);
    out.append(">");
    true
}

/// Renders the signature of function `name`: one parameter per line, then the
/// result types, if any.
pub fn function_signature(name: &str, f: &Function) -> (r: Result<String, RenderError>)
    ensures
        r is Ok <==> all_named(f.type_parameters@),
        r is Ok ==> r->Ok_0@ == function_text(name@, *f),
        r is Err ==> r == Err::<String, RenderError>(RenderError::UnnamedTypeParameter),
{
    let mut out = String::from_str("fun ");
    out.append(name);
    if !push_generics(&mut out, &f.type_parameters) {
        return Err(RenderError::UnnamedTypeParameter);
    }
    out.append("(");
    let ghost head = out@;
    let ps = &f.parameters;
    let mut i: usize = 0;
    while i < ps.len()
        invariant
            i <= ps@.len(),
            out@ == head + params_text(ps@.subrange(0, i as int)),
        decreases ps@.len() - i,
    {
        out.append("\n    ");
        out.append(ps[i].name.as_str());
        out.append(": ");
        let t = type_to_string(&ps[i].type_);
        out.append(t.as_str());
        out.append(",");
        proof {
            let next = ps@.subrange(0, i + 1);
            assert(next.subrange(0, i as int) =~= ps@.subrange(0, i as int));
            assert(next[i as int] == ps@[i as int]);
        }
        i = i + 1;
    }
    assert(ps@.subrange(0, ps@.len() as int) =~= ps@);
    if ps.len() > 0 {
        out.append("\n");
    }
    out.append(")");
    let rs = &f.return_;
    if rs.len() == 1 {
        out.append(": ");
        let t = type_to_string(&rs[0]);
        out.append(t.as_str());
    } else if rs.len() > 1 {
        out.append(": (");
        push_type_list(&mut out, rs);
        out.append(")");
    }
    Ok(out)
}

/// Renders the signature of struct `name`, one field per line in declaration order.
pub fn struct_signature(name: &str, s: &Struct) -> (r: Result<String, RenderError>)
    ensures
        r is Ok <==> all_named(datatype_tparams(s.type_parameters@)),
        r is Ok ==> r->Ok_0@ == struct_text(name@, *s),
        r is Err ==> r == Err::<String, RenderError>(RenderError::UnnamedTypeParameter),
{
    let mut out = String::from_str("struct ");
    out.append(name);
    if !push_datatype_generics(&mut out, &s.type_parameters) {
        return Err(RenderError::UnnamedTypeParameter);
    }
    out.append(" {\n");
    let ghost head = out@;
    let fs = &s.fields.fields;
    let mut i: usize = 0;
    while i < fs.len()
        invariant
            i <= fs@.len(),
            out@ == head + struct_fields_text(fs@.subrange(0, i as int)),
        decreases fs@.len() - i,
    {
        out.append("    ");
        out.append(fs[i].name.as_str());
        out.append(": ");
        let t = type_to_string(&fs[i].type_);
        out.append(t.as_str());
        out.append(",\n");
        proof {
            let next = fs@.subrange(0, i + 1);
            assert(next.subrange(0, i as int) =~= fs@.subrange(0, i as int));
            assert(next[i as int] == fs@[i as int]);
        }
        i = i + 1;
    }
    assert(fs@.subrange(0, fs@.len() as int) =~= fs@);
    out.append("}");
    Ok(out)
}

/// Appends what follows a variant's name.
fn push_variant_fields(out: &mut String, fields: &Fields)
    ensures
        final(out)@ == old(out)@ + variant_fields_text(*fields),
{
    let fs = &fields.fields;
    if fs.len() == 0 {
        return;
    }
    if fields.positional_fields {
        out.append("(");
    } else {
        out.append(" { ");
    }
    let ghost head = out@;
    let mut i: usize = 0;
    while i < fs.len()
        invariant
            i <= fs@.len(),
            fields.positional_fields ==> out@ == head + positional_text(fs@.subrange(0, i as int)),
            !fields.positional_fields ==> out@ == head + named_text(fs@.subrange(0, i as int)),
        decreases fs@.len() - i,
    {
        if i > 0 {
            out.append(", ");
        }
        if !fields.positional_fields {
            out.append(fs[i].name.as_str());
            out.append(": ");
        }
        let t = type_to_string(&fs[i].type_);
        out.append(t.as_str());
        proof {
            let next = fs@.subrange(0, i + 1);
            assert(next.subrange(0, i as int) =~= fs@.subrange(0, i as int));
            assert(next[i as int] == fs@[i as int]);
        }
        i = i + 1;
    }
    assert(fs@.subrange(0, fs@.len() as int) =~= fs@);
    if fields.positional_fields {
        out.append(")");
    } else {
        out.append(" }");
    }
}

/// Renders the signature of enum `name`, one variant per line; each variant shows
/// its fields positionally or by name, as its flag says.
pub fn enum_signature(name: &str, e: &Enum) -> (r: Result<String, RenderError>)
    ensures
        r is Ok <==> all_named(datatype_tparams(e.type_parameters@)),
        r is Ok ==> r->Ok_0@ == enum_text(name@, *e),
        r is Err ==> r == Err::<String, RenderError>(RenderError::UnnamedTypeParameter),
{
    let mut out = String::from_str("enum ");
    out.append(name);
    if !push_datatype_generics(&mut out, &e.type_parameters) {
        return Err(RenderError::UnnamedTypeParameter);
    }
    out.append(" {\n");
    let ghost head = out@;
    let vs = &e.variants;
    let mut i: usize = 0;
    while i < vs.len()
        invariant
            i <= vs@.len(),
            out@ == head + variants_text(vs@.subrange(0, i as int)),
        decreases vs@.len() - i,
    {
        out.append("    ");
        out.append(vs[i].name.as_str());
        push_variant_fields(&mut out, &vs[i].fields);
        out.append(",\n");
        proof {
            let next = vs@.subrange(0, i + 1);
            assert(next.subrange(0, i as int) =~= vs@.subrange(0, i as int));
            assert(next[i as int] == vs@[i as int]);
        }
        i = i + 1;
    }
    assert(vs@.subrange(0, vs@.len() as int) =~= vs@);
    out.append("}");
    Ok(out)
}

} // verus!
