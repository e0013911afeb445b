use vstd::prelude::*;

use crate::order::{lex_le, str_le};
use crate::render::{render, spec_render};
use crate::value::{entries_model, Entry, Field, SpecValue, Value};

verus! {

/// The order the canonicalizer sorts map entries by: a key precedes
/// another when its rendered text does lexicographically.
pub open spec fn key_le(a: SpecValue, b: SpecValue) -> bool {
    lex_le(spec_render(a, ""@), spec_render(b, ""@))
}

/// Inserts `e` into `s` before the first entry whose key is strictly
/// greater, so that inserting into a sorted sequence keeps it sorted and
/// keeps entries with equal keys in their old order.
pub open spec fn insert_entry(
    e: (SpecValue, SpecValue),
    s: Seq<(SpecValue, SpecValue)>,
) -> Seq<(SpecValue, SpecValue)>
    decreases s.len(),
{
    if s.len() == 0 {
        seq![e]
    } else if key_le(e.0, s[0].0) {
        seq![e] + s
    } else {
        seq![s[0]] + insert_entry(e, s.subrange(1, s.len() as int))
    }
}

/// Stable insertion sort of map entries by `key_le` over their keys.
pub open spec fn sort_entries(s: Seq<(SpecValue, SpecValue)>) -> Seq<(SpecValue, SpecValue)>
    decreases s.len(),
{
    if s.len() == 0 {
        s
    } else {
        insert_entry(s[0], sort_entries(s.subrange(1, s.len() as int)))
    }
}

/// Canonicalizes each element of a sequence.
pub open spec fn canon_elems(es: Seq<SpecValue>) -> Seq<SpecValue>
    decreases es,
{
    Seq::new(
        es.len(),
        |i: int|
            if 0 <= i < es.len() {
                canon(es[i])
            } else {
                SpecValue::Term(Seq::empty())
            },
    )
}

/// Canonicalizes each field's value; field names and their order stay.
pub open spec fn canon_fields(fs: Seq<(Seq<char>, SpecValue)>) -> Seq<(Seq<char>, SpecValue)>
    decreases fs,
{
    Seq::new(
        fs.len(),
        |i: int|
            if 0 <= i < fs.len() {
                (fs[i].0, canon(fs[i].1))
            } else {
                (Seq::empty(), SpecValue::Term(Seq::empty()))
            },
    )
}

/// Canonicalizes each entry's key and value, keeping the entry order.
pub open spec fn canon_entries(es: Seq<(SpecValue, SpecValue)>) -> Seq<(SpecValue, SpecValue)>
    decreases es,
{
    Seq::new(
        es.len(),
        |i: int|
            if 0 <= i < es.len() {
                (canon(es[i].0), canon(es[i].1))
            } else {
                (SpecValue::Term(Seq::empty()), SpecValue::Term(Seq::empty()))
            },
    )
}

/// The canonical form of a value: every map's entries, at every depth,
/// are first canonicalized themselves and then sorted by the rendered
/// text of their keys; terms, struct field order, tuple, list and set
/// element order are untouched.
pub open spec fn canon(v: SpecValue) -> SpecValue
    decreases v,
{
    match v {
        SpecValue::Term(t) => SpecValue::Term(t),
        SpecValue::Struct { name, fields } => SpecValue::Struct {
            name,
            fields: canon_fields(fields),
        },
        SpecValue::Tuple { name, elems } => SpecValue::Tuple { name, elems: canon_elems(elems) },
        SpecValue::List(es) => SpecValue::List(canon_elems(es)),
        SpecValue::SetOf(es) => SpecValue::SetOf(canon_elems(es)),
        SpecValue::MapOf(es) => SpecValue::MapOf(sort_entries(canon_entries(es))),
    }
}

/// Decides `key_le` on two trees by rendering both.
fn key_le_exec(a: &Value, b: &Value) -> (r: bool)
    ensures
        r == key_le(a@, b@),
{
    let ra = render(a);
    let rb = render(b);
    str_le(ra.as_str(), rb.as_str())
}

fn insert_entry_exec(e: Entry, s: Vec<Entry>) -> (r: Vec<Entry>)
    ensures
        entries_model(r@) == insert_entry((e.key@, e.value@), entries_model(s@)),
    decreases s@.len(),
{
    let ghost s0 = s@;
    let mut s = s;
    if s.len() == 0 {
        let mut r: Vec<Entry> = Vec::new();
        r.push(e);
        proof {
            assert(entries_model(r@) =~= insert_entry((e.key@, e.value@), entries_model(s0)));
        }
        r
    } else {
        let le = key_le_exec(&e.key, &s[0].key);
        if le {
            s.insert(0, e);
            proof {
                assert(entries_model(s@) =~= insert_entry((e.key@, e.value@), entries_model(s0)));
            }
            s
        } else {
            let head = s.remove(0);
            let mut r = insert_entry_exec(e, s);
            r.insert(0, head);
            proof {
                assert(entries_model(s@) =~= entries_model(s0).subrange(1, s0.len() as int));
                assert(entries_model(r@) =~= insert_entry((e.key@, e.value@), entries_model(s0)));
            }
            r
        }
    }
}

fn sort_entries_exec(es: Vec<Entry>) -> (r: Vec<Entry>)
    ensures
        entries_model(r@) == sort_entries(entries_model(es@)),
    decreases es@.len(),
{
    let ghost es0 = es@;
    let mut es = es;
    if es.len() == 0 {
        es
    } else {
        let head = es.remove(0);
        let sorted = sort_entries_exec(es);
        let r = insert_entry_exec(head, sorted);
        proof {
            assert(entries_model(es@) =~= entries_model(es0).subrange(1, es0.len() as int));
            assert((head.key@, head.value@) == entries_model(es0)[0]);
        }
        r
    }
}

/// Builds the canonical form of `v`: the same tree with every map's
/// entries sorted by the rendered text of their canonical keys.
pub fn canon_value(v: &Value) -> (r: Value)
    ensures
        r@ == canon(v@),
    decreases v,
{
    match v {
        Value::Term(t) => Value::Term(t.clone()),
        Value::Struct { name, fields } => {
            let out = canon_fields_exec(fields);
            let rv = Value::Struct { name: name.clone(), fields: out };
            proof {
                if let SpecValue::Struct { name: na, fields: fa } = rv@ {
                    if let SpecValue::Struct { name: nb, fields: fb } = canon(v@) {
                        assert(fa =~= fb);
                    }
                }
                assert(rv@ == canon(v@));
            }
            rv
        },
        Value::Tuple { name, elems } => {
            let cname = match name {
                Option::Some(n) => Option::Some(n.clone()),
                Option::None => Option::None,
            };
            let out = canon_elems_exec(elems);
            let rv = Value::Tuple { name: cname, elems: out };
            proof {
                if let SpecValue::Tuple { name: na, elems: ea } = rv@ {
                    if let SpecValue::Tuple { name: nb, elems: eb } = canon(v@) {
                        assert(ea =~= eb);
                    }
                }
                assert(rv@ == canon(v@));
            }
            rv
        },
        Value::List(elems) => {
            let out = canon_elems_exec(elems);
            let rv = Value::List(out);
            proof {
                if let SpecValue::List(ea) = rv@ {
                    if let SpecValue::List(eb) = canon(v@) {
                        assert(ea =~= eb);
                    }
                }
                assert(rv@ == canon(v@));
            }
            rv
        },
        Value::SetOf(elems) => {
            let out = canon_elems_exec(elems);
            let rv = Value::SetOf(out);
            proof {
                if let SpecValue::SetOf(ea) = rv@ {
                    if let SpecValue::SetOf(eb) = canon(v@) {
                        assert(ea =~= eb);
                    }
                }
                assert(rv@ == canon(v@));
            }
            rv
        },
        Value::MapOf(entries) => {
            let ce = canon_entries_exec(entries);
            proof {
                if let SpecValue::MapOf(eb) = v@ {
                    assert(entries_model(ce@) =~= canon_entries(eb));
                }
            }
            let sorted = sort_entries_exec(ce);
            let rv = Value::MapOf(sorted);
            proof {
                if let SpecValue::MapOf(ea) = rv@ {
                    assert(ea =~= entries_model(sorted@));
                }
                assert(rv@ == canon(v@));
            }
            rv
        },
    }
}

/// Canonicalizes each element of a vector of values.
fn canon_elems_exec(elems: &Vec<Value>) -> (r: Vec<Value>)
    ensures
        r@.len() == elems@.len(),
        forall|j: int| 0 <= j < elems@.len() ==> r@[j]@ == canon(elems@[j]@),
    decreases elems,
{
    let mut out: Vec<Value> = Vec::new();
    let mut i: usize = 0;
    while i < elems.len()
        invariant
            0 <= i <= elems.len(),
            out@.len() == i,
            forall|j: int| 0 <= j < i ==> out@[j]@ == canon(elems@[j]@),
        decreases elems.len() - i,
    {
        out.push(canon_value(&elems[i]));
        i = i + 1;
    }
    out
}

/// Canonicalizes each field's value of a vector of fields.
fn canon_fields_exec(fields: &Vec<Field>) -> (r: Vec<Field>)
    ensures
        r@.len() == fields@.len(),
        forall|j: int|
            0 <= j < fields@.len() ==> r@[j].name@ == fields@[j].name@ && r@[j].value@ == canon(
                fields@[j].value@,
            ),
    decreases fields,
{
    let mut out: Vec<Field> = Vec::new();
    let mut i: usize = 0;
    while i < fields.len()
        invariant
            0 <= i <= fields.len(),
            out@.len() == i,
            forall|j: int|
                0 <= j < i ==> out@[j].name@ == fields@[j].name@ && out@[j].value@ == canon(
                    fields@[j].value@,
                ),
        decreases fields.len() - i,
    {
        let f = &fields[i];
        out.push(Field { name: f.name.clone(), value: canon_value(&f.value) });
        i = i + 1;
    }
    out
}

/// Canonicalizes each entry's key and value of a vector of entries.
fn canon_entries_exec(entries: &Vec<Entry>) -> (r: Vec<Entry>)
    ensures
        r@.len() == entries@.len(),
        forall|j: int|
            0 <= j < entries@.len() ==> r@[j].key@ == canon(entries@[j].key@) && r@[j].value@
                == canon(entries@[j].value@),
    decreases entries,
{
    let mut out: Vec<Entry> = Vec::new();
    let mut i: usize = 0;
    while i < entries.len()
        invariant
            0 <= i <= entries.len(),
            out@.len() == i,
            forall|j: int|
                0 <= j < i ==> out@[j].key@ == canon(entries@[j].key@) && out@[j].value@ == canon(
                    entries@[j].value@,
                ),
        decreases entries.len() - i,
    {
        let en = &entries[i];
        out.push(Entry { key: canon_value(&en.key), value: canon_value(&en.value) });
        i = i + 1;
    }
    out
}

/// Reorders every map's entries in `v`, at every depth, into the
/// deterministic canonical order; nothing else about the tree changes.
pub fn sort_maps(v: &mut Value)
    ensures
        final(v)@ == canon(old(v)@),
{
    let c = canon_value(&*v);
    *v = c;
}

} // verus!
