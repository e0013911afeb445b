use vstd::prelude::*;

verus! {

/// The mathematical form of a parsed debug tree: the same shapes as
/// `Value`, with `Seq` in place of `Vec` and `Seq<char>` in place of
/// `String`. All contracts of this crate speak in terms of this type.
#[allow(inconsistent_fields)]
pub enum SpecValue {
    /// An atomic token, stored as its literal source text.
    Term(Seq<char>),
    /// A named aggregate with ordered `(field name, value)` pairs.
    Struct { name: Seq<char>, fields: Seq<(Seq<char>, SpecValue)> },
    /// An ordered sequence of unnamed values, optionally carrying a name.
    Tuple { name: Option<Seq<char>>, elems: Seq<SpecValue> },
    /// An ordered sequence of values.
    List(Seq<SpecValue>),
    /// An unordered collection of values; element order is kept as parsed.
    SetOf(Seq<SpecValue>),
    /// An unordered collection of `(key, value)` pairs; entry order is
    /// not meaningful and is canonicalized.
    MapOf(Seq<(SpecValue, SpecValue)>),
}

/// One `field name: value` pair of a struct.
pub struct Field {
    pub name: String,
    pub value: Value,
}

/// One `key: value` pair of a map.
pub struct Entry {
    pub key: Value,
    pub value: Value,
}

/// A tree reconstructed from the textual debug rendering of a value.
#[allow(inconsistent_fields)]
pub enum Value {
    Term(String),
    Struct { name: String, fields: Vec<Field> },
    Tuple { name: Option<String>, elems: Vec<Value> },
    List(Vec<Value>),
    SetOf(Vec<Value>),
    MapOf(Vec<Entry>),
}

/// The model of a sequence of struct fields.
pub open spec fn fields_model(fs: Seq<Field>) -> Seq<(Seq<char>, SpecValue)> {
    Seq::new(fs.len(), |i: int| (fs[i].name@, fs[i].value.model()))
}

/// The model of a sequence of map entries.
pub open spec fn entries_model(es: Seq<Entry>) -> Seq<(SpecValue, SpecValue)> {
    Seq::new(es.len(), |i: int| (es[i].key.model(), es[i].value.model()))
}

/// The model of a sequence of values.
pub open spec fn elems_model(vs: Seq<Value>) -> Seq<SpecValue> {
    Seq::new(vs.len(), |i: int| vs[i].model())
}

impl Value {
    /// The mathematical value that this tree stands for.
    pub open spec fn model(self) -> SpecValue
        decreases self,
    {
        match self {
            Value::Term(t) => SpecValue::Term(t@),
            Value::Struct { name, fields } => SpecValue::Struct {
                name: name@,
                fields: Seq::new(
                    fields@.len(),
                    |i: int|
                        if 0 <= i < fields@.len() {
                            (fields@[i].name@, fields@[i].value.model())
                        } else {
                            (Seq::empty(), SpecValue::Term(Seq::empty()))
                        },
                ),
            },
            Value::Tuple { name, elems } => SpecValue::Tuple {
                name: match name {
                    Option::Some(n) => Option::Some(n@),
                    Option::None => Option::None,
                },
                elems: Seq::new(
                    elems@.len(),
                    |i: int|
                        if 0 <= i < elems@.len() {
                            elems@[i].model()
                        } else {
                            SpecValue::Term(Seq::empty())
                        },
                ),
            },
            Value::List(elems) => SpecValue::List(
                Seq::new(
                    elems@.len(),
                    |i: int|
                        if 0 <= i < elems@.len() {
                            elems@[i].model()
                        } else {
                            SpecValue::Term(Seq::empty())
                        },
                ),
            ),
            Value::SetOf(elems) => SpecValue::SetOf(
                Seq::new(
                    elems@.len(),
                    |i: int|
                        if 0 <= i < elems@.len() {
                            elems@[i].model()
                        } else {
                            SpecValue::Term(Seq::empty())
                        },
                ),
            ),
            Value::MapOf(entries) => SpecValue::MapOf(
                Seq::new(
                    entries@.len(),
                    |i: int|
                        if 0 <= i < entries@.len() {
                            (entries@[i].key.model(), entries@[i].value.model())
                        } else {
                            (SpecValue::Term(Seq::empty()), SpecValue::Term(Seq::empty()))
                        },
                ),
            ),
        }
    }
}

impl View for Value {
    type V = SpecValue;

    open spec fn view(&self) -> SpecValue {
        self.model()
    }
}

} // verus!
