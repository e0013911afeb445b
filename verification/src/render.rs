use vstd::prelude::*;

use crate::value::{elems_model, entries_model, fields_model, Entry, Field, SpecValue, Value};

verus! {

/// The text of `v` in the nested, indentation-based layout: every entry of a
/// container stands on a line of its own, indented four spaces deeper than
/// the delimiters around it, and ends with a comma. `pad` is the indentation
/// of the line the value starts on; the value's first character is written
/// directly (its own padding is the caller's), while inner lines carry
/// `pad + "    "`.
pub open spec fn spec_render(v: SpecValue, pad: Seq<char>) -> Seq<char>
    decreases v,
{
    match v {
        SpecValue::Term(t) => t,
        SpecValue::Struct { name, fields } => {
            if fields.len() == 0 {
                name
            } else {
                name + " {\n"@ + spec_render_fields(fields, pad + "    "@) + pad + "}"@
            }
        },
        SpecValue::Tuple { name, elems } => {
            if elems.len() == 0 {
                match name {
                    Option::Some(n) => n,
                    Option::None => "()"@,
                }
            } else {
                let shown = match name {
                    Option::Some(n) => n,
                    Option::None => Seq::empty(),
                };
                shown + "(\n"@ + spec_render_elems(elems, pad + "    "@) + pad + ")"@
            }
        },
        SpecValue::List(elems) => {
            if elems.len() == 0 {
                "[]"@
            } else {
                "[\n"@ + spec_render_elems(elems, pad + "    "@) + pad + "]"@
            }
        },
        SpecValue::SetOf(elems) => {
            if elems.len() == 0 {
                "{}"@
            } else {
                "{\n"@ + spec_render_elems(elems, pad + "    "@) + pad + "}"@
            }
        },
        SpecValue::MapOf(entries) => {
            if entries.len() == 0 {
                "{}"@
            } else {
                "{\n"@ + spec_render_entries(entries, pad + "    "@) + pad + "}"@
            }
        },
    }
}

/// The lines of a container's elements: one `pad`-indented line per
/// element, each closed by a comma and a newline.
pub open spec fn spec_render_elems(elems: Seq<SpecValue>, pad: Seq<char>) -> Seq<char>
    decreases elems,
{
    if elems.len() == 0 {
        Seq::empty()
    } else {
        spec_render_elems(elems.subrange(0, elems.len() - 1), pad) + pad + spec_render(
            elems[elems.len() - 1],
            pad,
        ) + ",\n"@
    }
}

/// The lines of a struct's fields: `name: value,` per line.
pub open spec fn spec_render_fields(fields: Seq<(Seq<char>, SpecValue)>, pad: Seq<char>) -> Seq<
    char,
>
    decreases fields,
{
    if fields.len() == 0 {
        Seq::empty()
    } else {
        spec_render_fields(fields.subrange(0, fields.len() - 1), pad) + pad + fields[fields.len()
            - 1].0 + ": "@ + spec_render(fields[fields.len() - 1].1, pad) + ",\n"@
    }
}

/// The lines of a map's entries: `key: value,` per line.
pub open spec fn spec_render_entries(entries: Seq<(SpecValue, SpecValue)>, pad: Seq<char>) -> Seq<
    char,
>
    decreases entries,
{
    if entries.len() == 0 {
        Seq::empty()
    } else {
        spec_render_entries(entries.subrange(0, entries.len() - 1), pad) + pad + spec_render(
            entries[entries.len() - 1].0,
            pad,
        ) + ": "@ + spec_render(entries[entries.len() - 1].1, pad) + ",\n"@
    }
}

/// Appends the text of `v` to `out`, with `pad` as the indentation of the
/// line the value starts on.
pub fn render_value(v: &Value, pad: &str, out: &mut String)
    ensures
        final(out)@ == old(out)@ + spec_render(v@, pad@),
    decreases v,
{
    let ghost out0 = old(out)@;
    match v {
        Value::Term(t) => {
            out.append(t.as_str());
        },
        Value::Struct { name, fields } => {
            out.append(name.as_str());
            if fields.len() > 0 {
                out.append(" {\n");
                let mut pad4 = pad.to_owned();
                pad4.append("    ");
                render_fields_into(fields, pad4.as_str(), out);
                out.append(pad);
                out.append("}");
                proof {
                    if let SpecValue::Struct { name: nm, fields: fm } = v@ {
                        assert(fields_model(fields@) =~= fm);
                    }
                    assert(out@ =~= out0 + spec_render(v@, pad@));
                }
            }
        },
        Value::Tuple { name, elems } => {
            match name {
                Option::Some(n) => {
                    out.append(n.as_str());
                },
                Option::None => {},
            }
            if elems.len() == 0 {
                if name.is_none() {
                    out.append("()");
                }
                proof {
                    assert(out@ =~= out0 + spec_render(v@, pad@));
                }
            } else {
                out.append("(\n");
                let mut pad4 = pad.to_owned();
                pad4.append("    ");
                render_elems_into(elems, pad4.as_str(), out);
                out.append(pad);
                out.append(")");
                proof {
                    if let SpecValue::Tuple { name: nm, elems: em } = v@ {
                        assert(elems_model(elems@) =~= em);
                    }
                    assert(out@ =~= out0 + spec_render(v@, pad@));
                }
            }
        },
        Value::List(elems) => {
            if elems.len() == 0 {
                out.append("[]");
            } else {
                out.append("[\n");
                let mut pad4 = pad.to_owned();
                pad4.append("    ");
                render_elems_into(elems, pad4.as_str(), out);
                out.append(pad);
                out.append("]");
                proof {
                    if let SpecValue::List(em) = v@ {
                        assert(elems_model(elems@) =~= em);
                    }
                    assert(out@ =~= out0 + spec_render(v@, pad@));
                }
            }
        },
        Value::SetOf(elems) => {
            if elems.len() == 0 {
                out.append("{}");
            } else {
                out.append("{\n");
                let mut pad4 = pad.to_owned();
                pad4.append("    ");
                render_elems_into(elems, pad4.as_str(), out);
                out.append(pad);
                out.append("}");
                proof {
                    if let SpecValue::SetOf(em) = v@ {
                        assert(elems_model(elems@) =~= em);
                    }
                    assert(out@ =~= out0 + spec_render(v@, pad@));
                }
            }
        },
        Value::MapOf(entries) => {
            if entries.len() == 0 {
                out.append("{}");
            } else {
                out.append("{\n");
                let mut pad4 = pad.to_owned();
                pad4.append("    ");
                render_entries_into(entries, pad4.as_str(), out);
                out.append(pad);
                out.append("}");
                proof {
                    if let SpecValue::MapOf(em) = v@ {
                        assert(entries_model(entries@) =~= em);
                    }
                    assert(out@ =~= out0 + spec_render(v@, pad@));
                }
            }
        },
    }
}

/// Appends one `pad`-indented, comma-closed line per element.
fn render_elems_into(elems: &Vec<Value>, pad: &str, out: &mut String)
    ensures
        final(out)@ == old(out)@ + spec_render_elems(elems_model(elems@), pad@),
    decreases elems,
{
    let ghost out0 = old(out)@;
    let ghost em = elems_model(elems@);
    let mut i: usize = 0;
    proof {
        assert(em.subrange(0, 0) =~= Seq::empty());
        assert(out@ =~= out0 + spec_render_elems(em.subrange(0, 0), pad@));
    }
    while i < elems.len()
        invariant
            0 <= i <= elems.len(),
            em == elems_model(elems@),
            out@ == out0 + spec_render_elems(em.subrange(0, i as int), pad@),
        decreases elems.len() - i,
    {
        out.append(pad);
        render_value(&elems[i], pad, out);
        out.append(",\n");
        proof {
            assert(em.subrange(0, i + 1).subrange(0, i as int) =~= em.subrange(0, i as int));
            assert(out@ =~= out0 + spec_render_elems(em.subrange(0, i + 1), pad@));
        }
        i = i + 1;
    }
    proof {
        assert(em.subrange(0, elems@.len() as int) =~= em);
    }
}

/// Appends one `pad`-indented `name: value,` line per field.
fn render_fields_into(fields: &Vec<Field>, pad: &str, out: &mut String)
    ensures
        final(out)@ == old(out)@ + spec_render_fields(fields_model(fields@), pad@),
    decreases fields,
{
    let ghost out0 = old(out)@;
    let ghost fm = fields_model(fields@);
    let mut i: usize = 0;
    proof {
        assert(fm.subrange(0, 0) =~= Seq::empty());
        assert(out@ =~= out0 + spec_render_fields(fm.subrange(0, 0), pad@));
    }
    while i < fields.len()
        invariant
            0 <= i <= fields.len(),
            fm == fields_model(fields@),
            out@ == out0 + spec_render_fields(fm.subrange(0, i as int), pad@),
        decreases fields.len() - i,
    {
        out.append(pad);
        out.append(fields[i].name.as_str());
        out.append(": ");
        render_value(&fields[i].value, pad, out);
        out.append(",\n");
        proof {
            assert(fm.subrange(0, i + 1).subrange(0, i as int) =~= fm.subrange(0, i as int));
            assert(out@ =~= out0 + spec_render_fields(fm.subrange(0, i + 1), pad@));
        }
        i = i + 1;
    }
    proof {
        assert(fm.subrange(0, fields@.len() as int) =~= fm);
    }
}

/// Appends one `pad`-indented `key: value,` line per entry.
fn render_entries_into(entries: &Vec<Entry>, pad: &str, out: &mut String)
    ensures
        final(out)@ == old(out)@ + spec_render_entries(entries_model(entries@), pad@),
    decreases entries,
{
    let ghost out0 = old(out)@;
    let ghost em = entries_model(entries@);
    let mut i: usize = 0;
    proof {
        assert(em.subrange(0, 0) =~= Seq::empty());
        assert(out@ =~= out0 + spec_render_entries(em.subrange(0, 0), pad@));
    }
    while i < entries.len()
        invariant
            0 <= i <= entries.len(),
            em == entries_model(entries@),
            out@ == out0 + spec_render_entries(em.subrange(0, i as int), pad@),
        decreases entries.len() - i,
    {
        out.append(pad);
        render_value(&entries[i].key, pad, out);
        out.append(": ");
        render_value(&entries[i].value, pad, out);
        out.append(",\n");
        proof {
            assert(em.subrange(0, i + 1).subrange(0, i as int) =~= em.subrange(0, i as int));
            assert(out@ =~= out0 + spec_render_entries(em.subrange(0, i + 1), pad@));
        }
        i = i + 1;
    }
    proof {
        assert(em.subrange(0, entries@.len() as int) =~= em);
    }
}

/// The text of `v`, starting at the left margin.
pub fn render(v: &Value) -> (r: String)
    ensures
        r@ == spec_render(v@, ""@),
{
    let mut out = String::new();
    render_value(v, "", &mut out);
    proof {
        assert(Seq::<char>::empty() + spec_render(v@, ""@) =~= spec_render(v@, ""@));
    }
    out
}

} // verus!
