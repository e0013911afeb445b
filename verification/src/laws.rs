use vstd::prelude::*;

use crate::canon::{
    canon, canon_elems, canon_entries, canon_fields, insert_entry, key_le, sort_entries,
};
use crate::order::{lemma_lex_le_antisym, lemma_lex_le_total, lemma_lex_le_trans};
use crate::parser::{
    is_ident_char, is_ident_start, is_term_char, is_ws_char, parse_text, parse_value, scan_ident,
    scan_term, skip_ws,
};
use crate::render::spec_render;
use crate::value::SpecValue;

verus! {

/// Map entries stand in canonical order: each key is less than or equal
/// to the next one by `key_le`.
pub open spec fn entries_sorted(s: Seq<(SpecValue, SpecValue)>) -> bool {
    forall|i: int| #![trigger s[i]] 0 <= i < s.len() - 1 ==> key_le(s[i].0, s[i + 1].0)
}

/// The canonicalizer's work is done on `v`: the entries of every map in
/// the tree, at every depth, are sorted.
pub open spec fn is_canon(v: SpecValue) -> bool
    decreases v,
{
    match v {
        SpecValue::Term(t) => true,
        SpecValue::Struct { name, fields } => forall|i: int| #![trigger fields[i]]
            0 <= i < fields.len() ==> is_canon(fields[i].1),
        SpecValue::Tuple { name, elems } => forall|i: int| #![trigger elems[i]]
            0 <= i < elems.len() ==> is_canon(elems[i]),
        SpecValue::List(es) => forall|i: int| #![trigger es[i]]
            0 <= i < es.len() ==> is_canon(es[i]),
        SpecValue::SetOf(es) => forall|i: int| #![trigger es[i]]
            0 <= i < es.len() ==> is_canon(es[i]),
        SpecValue::MapOf(es) => entries_sorted(es) && forall|i: int| #![trigger es[i]]
            0 <= i < es.len() ==> is_canon(es[i].0) && is_canon(es[i].1),
    }
}

/// The key order is total.
pub proof fn lemma_key_le_total(a: SpecValue, b: SpecValue)
    ensures
        key_le(a, b) || key_le(b, a),
{
    lemma_lex_le_total(spec_render(a, ""@), spec_render(b, ""@));
}

/// The key order is transitive.
pub proof fn lemma_key_le_trans(a: SpecValue, b: SpecValue, c: SpecValue)
    requires
        key_le(a, b),
        key_le(b, c),
    ensures
        key_le(a, c),
{
    lemma_lex_le_trans(spec_render(a, ""@), spec_render(b, ""@), spec_render(c, ""@));
}

/// Keys that compare both ways render to the same text.
pub proof fn lemma_key_le_antisym(a: SpecValue, b: SpecValue)
    requires
        key_le(a, b),
        key_le(b, a),
    ensures
        spec_render(a, ""@) == spec_render(b, ""@),
{
    lemma_lex_le_antisym(spec_render(a, ""@), spec_render(b, ""@));
}

proof fn lemma_insert_entry_len(e: (SpecValue, SpecValue), s: Seq<(SpecValue, SpecValue)>)
    ensures
        insert_entry(e, s).len() == s.len() + 1,
    decreases s.len(),
{
    if s.len() > 0 && !key_le(e.0, s[0].0) {
        lemma_insert_entry_len(e, s.subrange(1, s.len() as int));
    }
}

proof fn lemma_insert_entry_membership(e: (SpecValue, SpecValue), s: Seq<(SpecValue, SpecValue)>)
    ensures
        forall|k: int|
            0 <= k < insert_entry(e, s).len() ==> #[trigger] insert_entry(e, s)[k] == e
                || s.contains(insert_entry(e, s)[k]),
    decreases s.len(),
{
    lemma_insert_entry_len(e, s);
    if s.len() == 0 {
    } else if key_le(e.0, s[0].0) {
        assert forall|k: int| 0 <= k < insert_entry(e, s).len() implies #[trigger] insert_entry(
            e,
            s,
        )[k] == e || s.contains(insert_entry(e, s)[k]) by {
            if k > 0 {
                assert(insert_entry(e, s)[k] == s[k - 1]);
            }
        }
    } else {
        let rest = s.subrange(1, s.len() as int);
        lemma_insert_entry_membership(e, rest);
        lemma_insert_entry_len(e, rest);
        assert forall|k: int| 0 <= k < insert_entry(e, s).len() implies #[trigger] insert_entry(
            e,
            s,
        )[k] == e || s.contains(insert_entry(e, s)[k]) by {
            if k == 0 {
                assert(insert_entry(e, s)[0] == s[0]);
                assert(s.contains(s[0]));
            } else {
                let x = insert_entry(e, rest)[k - 1];
                assert(insert_entry(e, s)[k] == x);
                if x != e {
                    let m = choose|m: int| 0 <= m < rest.len() && rest[m] == x;
                    assert(s[m + 1] == x);
                    assert(s.contains(x));
                }
            }
        }
    }
}

proof fn lemma_insert_entry_sorted(e: (SpecValue, SpecValue), s: Seq<(SpecValue, SpecValue)>)
    requires
        entries_sorted(s),
    ensures
        entries_sorted(insert_entry(e, s)),
    decreases s.len(),
{
    lemma_insert_entry_len(e, s);
    if s.len() == 0 {
    } else if key_le(e.0, s[0].0) {
        let r = seq![e] + s;
        assert forall|i: int| #![trigger r[i]] 0 <= i < r.len() - 1 implies key_le(
            r[i].0,
            r[i + 1].0,
        ) by {
            if i == 0 {
                assert(r[0] == e && r[1] == s[0]);
            } else {
                assert(r[i] == s[i - 1] && r[i + 1] == s[i]);
            }
        }
    } else {
        lemma_key_le_total(e.0, s[0].0);
        let rest = s.subrange(1, s.len() as int);
        assert forall|i: int| #![trigger rest[i]] 0 <= i < rest.len() - 1 implies key_le(
            rest[i].0,
            rest[i + 1].0,
        ) by {
            assert(rest[i] == s[i + 1] && rest[i + 1] == s[i + 2]);
        }
        lemma_insert_entry_sorted(e, rest);
        lemma_insert_entry_len(e, rest);
        let ins = insert_entry(e, rest);
        // the first element of `ins` is `e` or `rest[0]`; either follows `s[0]`
        assert(ins[0] == e || (rest.len() > 0 && ins[0] == rest[0]));
        let r = seq![s[0]] + ins;
        assert forall|i: int| #![trigger r[i]] 0 <= i < r.len() - 1 implies key_le(
            r[i].0,
            r[i + 1].0,
        ) by {
            if i == 0 {
                assert(r[0] == s[0] && r[1] == ins[0]);
                if ins[0] == e {
                } else {
                    assert(ins[0] == rest[0] && rest[0] == s[1]);
                }
            } else {
                assert(r[i] == ins[i - 1] && r[i + 1] == ins[i]);
            }
        }
    }
}

/// Sorting yields a sorted sequence of the same length whose entries all
/// come from the input.
pub proof fn lemma_sort_entries_sorted(s: Seq<(SpecValue, SpecValue)>)
    ensures
        entries_sorted(sort_entries(s)),
        sort_entries(s).len() == s.len(),
        forall|k: int|
            0 <= k < sort_entries(s).len() ==> s.contains(#[trigger] sort_entries(s)[k]),
    decreases s.len(),
{
    if s.len() > 0 {
        let rest = s.subrange(1, s.len() as int);
        lemma_sort_entries_sorted(rest);
        lemma_insert_entry_sorted(s[0], sort_entries(rest));
        lemma_insert_entry_len(s[0], sort_entries(rest));
        lemma_insert_entry_membership(s[0], sort_entries(rest));
        assert forall|k: int| 0 <= k < sort_entries(s).len() implies s.contains(
            #[trigger] sort_entries(s)[k],
        ) by {
            let x = sort_entries(s)[k];
            if x == s[0] {
                assert(s.contains(x));
            } else {
                assert(sort_entries(rest).contains(x));
                let m = choose|m: int| 0 <= m < sort_entries(rest).len() && sort_entries(rest)[m]
                    == x;
                let p = choose|p: int| 0 <= p < rest.len() && rest[p] == x;
                assert(s[p + 1] == x);
                assert(s.contains(x));
            }
        }
    }
}

/// Sorting an already-sorted sequence is the identity.
pub proof fn lemma_sort_entries_id(s: Seq<(SpecValue, SpecValue)>)
    requires
        entries_sorted(s),
    ensures
        sort_entries(s) == s,
    decreases s.len(),
{
    if s.len() > 0 {
        let rest = s.subrange(1, s.len() as int);
        assert forall|i: int| #![trigger rest[i]] 0 <= i < rest.len() - 1 implies key_le(
            rest[i].0,
            rest[i + 1].0,
        ) by {
            assert(rest[i] == s[i + 1] && rest[i + 1] == s[i + 2]);
        }
        lemma_sort_entries_id(rest);
        if rest.len() == 0 {
            assert(insert_entry(s[0], rest) =~= s);
        } else {
            assert(rest[0] == s[1]);
            assert(key_le(s[0].0, s[1].0));
            assert(insert_entry(s[0], rest) =~= s);
        }
    }
}

/// Canonicalization leaves every map in the tree sorted, at every depth.
#[verifier::rlimit(50)]
pub proof fn lemma_canon_is_canon(v: SpecValue)
    ensures
        is_canon(canon(v)),
    decreases v,
{
    match v {
        SpecValue::Term(t) => {},
        SpecValue::Struct { name, fields } => {
            let cf = canon_fields(fields);
            assert forall|i: int| #![trigger cf[i]] 0 <= i < cf.len() implies is_canon(
                cf[i].1,
            ) by {
                lemma_canon_is_canon(fields[i].1);
            }
            assert(canon(v) == SpecValue::Struct { name, fields: cf });
            assert(is_canon(SpecValue::Struct { name, fields: cf }));
        },
        SpecValue::Tuple { name, elems } => {
            let ce = canon_elems(elems);
            assert forall|i: int| #![trigger ce[i]] 0 <= i < ce.len() implies is_canon(
                ce[i],
            ) by {
                lemma_canon_is_canon(elems[i]);
            }
            assert(canon(v) == SpecValue::Tuple { name, elems: ce });
            assert(is_canon(SpecValue::Tuple { name, elems: ce }));
        },
        SpecValue::List(es) => {
            let ce = canon_elems(es);
            assert forall|i: int| #![trigger ce[i]] 0 <= i < ce.len() implies is_canon(
                ce[i],
            ) by {
                lemma_canon_is_canon(es[i]);
            }
            assert(canon(v) == SpecValue::List(ce));
            assert(is_canon(SpecValue::List(ce)));
        },
        SpecValue::SetOf(es) => {
            let ce = canon_elems(es);
            assert forall|i: int| #![trigger ce[i]] 0 <= i < ce.len() implies is_canon(
                ce[i],
            ) by {
                lemma_canon_is_canon(es[i]);
            }
            assert(canon(v) == SpecValue::SetOf(ce));
            assert(is_canon(SpecValue::SetOf(ce)));
        },
        SpecValue::MapOf(es) => {
            let ce = canon_entries(es);
            lemma_sort_entries_sorted(ce);
            let sc = sort_entries(ce);
            assert forall|i: int| #![trigger sc[i]] 0 <= i < sc.len() implies is_canon(sc[i].0)
                && is_canon(sc[i].1) by {
                let x = sc[i];
                assert(ce.contains(x));
                let m = choose|m: int| 0 <= m < ce.len() && ce[m] == x;
                assert(x == (canon(es[m].0), canon(es[m].1)));
                lemma_canon_is_canon(es[m].0);
                lemma_canon_is_canon(es[m].1);
            }
            assert(entries_sorted(sc));
            assert(canon(v) == SpecValue::MapOf(sc));
            assert(is_canon(SpecValue::MapOf(sc)));
        },
    }
}

/// Canonicalization is the identity on a tree whose maps are all sorted.
pub proof fn lemma_canon_id_on_canon(v: SpecValue)
    requires
        is_canon(v),
    ensures
        canon(v) == v,
    decreases v,
{
    match v {
        SpecValue::Term(t) => {},
        SpecValue::Struct { name, fields } => {
            assert forall|i: int| 0 <= i < fields.len() implies #[trigger] canon_fields(fields)[i]
                == fields[i] by {
                lemma_canon_id_on_canon(fields[i].1);
            }
            assert(canon_fields(fields) =~= fields);
        },
        SpecValue::Tuple { name, elems } => {
            assert forall|i: int| 0 <= i < elems.len() implies #[trigger] canon_elems(elems)[i]
                == elems[i] by {
                lemma_canon_id_on_canon(elems[i]);
            }
            assert(canon_elems(elems) =~= elems);
        },
        SpecValue::List(es) => {
            assert forall|i: int| 0 <= i < es.len() implies #[trigger] canon_elems(es)[i]
                == es[i] by {
                lemma_canon_id_on_canon(es[i]);
            }
            assert(canon_elems(es) =~= es);
        },
        SpecValue::SetOf(es) => {
            assert forall|i: int| 0 <= i < es.len() implies #[trigger] canon_elems(es)[i]
                == es[i] by {
                lemma_canon_id_on_canon(es[i]);
            }
            assert(canon_elems(es) =~= es);
        },
        SpecValue::MapOf(es) => {
            assert forall|i: int| 0 <= i < es.len() implies #[trigger] canon_entries(es)[i]
                == es[i] by {
                lemma_canon_id_on_canon(es[i].0);
                lemma_canon_id_on_canon(es[i].1);
            }
            assert(canon_entries(es) =~= es);
            lemma_sort_entries_id(es);
        },
    }
}

/// Canonicalizing an already-canonical tree yields an identical tree:
/// one pass does all the work, a second changes nothing.
pub proof fn lemma_canon_idempotent(v: SpecValue)
    ensures
        canon(canon(v)) == canon(v),
{
    lemma_canon_is_canon(v);
    lemma_canon_id_on_canon(canon(v));
}

/// Canonicalization never reorders what is ordered: struct fields keep
/// their names and order, tuple, list and set elements keep their order;
/// each child is canonicalized in place.
pub proof fn lemma_canon_preserves_order(v: SpecValue)
    ensures
        v matches SpecValue::Struct { name, fields } ==> canon(v) == (SpecValue::Struct {
            name,
            fields: canon_fields(fields),
        }) && canon_fields(fields).len() == fields.len() && forall|i: int|
            0 <= i < fields.len() ==> #[trigger] canon_fields(fields)[i] == (
            fields[i].0,
            canon(fields[i].1),
            ),
        v matches SpecValue::Tuple { name, elems } ==> canon(v) == (SpecValue::Tuple {
            name,
            elems: canon_elems(elems),
        }) && canon_elems(elems).len() == elems.len() && forall|i: int|
            0 <= i < elems.len() ==> #[trigger] canon_elems(elems)[i] == canon(elems[i]),
        v matches SpecValue::List(es) ==> canon(v) == SpecValue::List(canon_elems(es))
            && canon_elems(es).len() == es.len() && forall|i: int|
            0 <= i < es.len() ==> #[trigger] canon_elems(es)[i] == canon(es[i]),
        v matches SpecValue::SetOf(es) ==> canon(v) == SpecValue::SetOf(canon_elems(es))
            && canon_elems(es).len() == es.len() && forall|i: int|
            0 <= i < es.len() ==> #[trigger] canon_elems(es)[i] == canon(es[i]),
{
}

/// The entries of a canonicalized map are sorted by the rendered text of
/// their canonical keys, whatever shape the keys have.
pub proof fn lemma_canon_map_sorted(es: Seq<(SpecValue, SpecValue)>)
    ensures
        canon(SpecValue::MapOf(es)) == SpecValue::MapOf(sort_entries(canon_entries(es))),
        entries_sorted(sort_entries(canon_entries(es))),
        sort_entries(canon_entries(es)).len() == es.len(),
{
    lemma_sort_entries_sorted(canon_entries(es));
}

proof fn lemma_scan_term_all(s: Seq<char>, i: int)
    requires
        0 <= i <= s.len(),
        forall|k: int| i <= k < s.len() ==> is_term_char(#[trigger] s[k]),
    ensures
        scan_term(s, i) == s.len(),
    decreases s.len() - i,
{
    if i < s.len() {
        lemma_scan_term_all(s, i + 1);
    }
}

proof fn lemma_scan_ident_le(s: Seq<char>, i: int)
    requires
        0 <= i <= s.len(),
    ensures
        i <= scan_ident(s, i) <= s.len(),
    decreases s.len() - i,
{
    if i < s.len() && is_ident_char(s[i]) {
        lemma_scan_ident_le(s, i + 1);
    }
}

/// A bare scalar is a fixed point of the whole pipeline: the text
/// parses to a single term, canonicalizing it changes nothing, and the
/// rendered output is the original text.
pub proof fn lemma_scalar_roundtrip(s: Seq<char>)
    requires
        s.len() > 0,
        forall|k: int| 0 <= k < s.len() ==> is_term_char(#[trigger] s[k]),
    ensures
        parse_text(s) == Option::Some(SpecValue::Term(s)),
        canon(SpecValue::Term(s)) == SpecValue::Term(s),
        spec_render(SpecValue::Term(s), ""@) == s,
{
    let n = s.len() as int;
    assert(!is_ws_char(s[0]));
    assert(skip_ws(s, 0) == 0);
    if is_ident_start(s[0]) {
        assert(is_ident_char(s[0]));
        let k = scan_ident(s, 0);
        assert(k == scan_ident(s, 1));
        lemma_scan_ident_le(s, 1);
        assert(0 < k <= n);
        if k < n {
            assert(!is_ws_char(s[k]));
            assert(skip_ws(s, k) == k);
            assert(s[k] != '{' && s[k] != '(');
        } else {
            assert(skip_ws(s, k) == k);
        }
        lemma_scan_term_all(s, k);
        assert(s.subrange(0, n) =~= s);
        assert(parse_value(s, 0) == Option::Some((SpecValue::Term(s), n)));
    } else {
        lemma_scan_term_all(s, 0);
        assert(s.subrange(0, n) =~= s);
        assert(parse_value(s, 0) == Option::Some((SpecValue::Term(s), n)));
    }
    assert(skip_ws(s, n) == n);
}

/// The key order is reflexive.
pub proof fn lemma_key_le_refl(a: SpecValue)
    ensures
        key_le(a, a),
{
    lemma_key_le_total(a, a);
}

proof fn lemma_sorted_le(s: Seq<(SpecValue, SpecValue)>, i: int, j: int)
    requires
        entries_sorted(s),
        0 <= i <= j < s.len(),
    ensures
        key_le(s[i].0, s[j].0),
    decreases j - i,
{
    if i == j {
        lemma_key_le_refl(s[i].0);
    } else {
        lemma_sorted_le(s, i, j - 1);
        assert(key_le(s[j - 1].0, s[j].0));
        lemma_key_le_trans(s[i].0, s[j - 1].0, s[j].0);
    }
}

proof fn lemma_insert_entry_multiset(e: (SpecValue, SpecValue), s: Seq<(SpecValue, SpecValue)>)
    ensures
        insert_entry(e, s).to_multiset() == s.to_multiset().insert(e),
    decreases s.len(),
{
    broadcast use vstd::seq_lib::group_to_multiset_ensures;

    if s.len() == 0 {
        assert(insert_entry(e, s) =~= s.push(e));
    } else if key_le(e.0, s[0].0) {
        assert(seq![e] + s =~= (seq![e] + s.drop_last()).push(s.last()));
        lemma_concat_singleton_multiset(e, s);
    } else {
        let rest = s.subrange(1, s.len() as int);
        lemma_insert_entry_multiset(e, rest);
        lemma_concat_singleton_multiset(s[0], insert_entry(e, rest));
        lemma_concat_singleton_multiset(s[0], rest);
        assert(seq![s[0]] + rest =~= s);
        assert(insert_entry(e, s).to_multiset() =~= s.to_multiset().insert(e));
    }
}

proof fn lemma_concat_singleton_multiset(e: (SpecValue, SpecValue), s: Seq<(SpecValue, SpecValue)>)
    ensures
        (seq![e] + s).to_multiset() == s.to_multiset().insert(e),
    decreases s.len(),
{
    broadcast use vstd::seq_lib::group_to_multiset_ensures;

    if s.len() == 0 {
        assert(seq![e] + s =~= Seq::empty().push(e));
        assert((Seq::<(SpecValue, SpecValue)>::empty().push(e)).to_multiset() =~= Seq::<(
            SpecValue,
            SpecValue,
        )>::empty().to_multiset().insert(e));
    } else {
        lemma_concat_singleton_multiset(e, s.drop_last());
        assert(seq![e] + s =~= (seq![e] + s.drop_last()).push(s.last()));
        assert(s =~= s.drop_last().push(s.last()));
        assert((seq![e] + s).to_multiset() =~= s.to_multiset().insert(e));
    }
}

proof fn lemma_sort_entries_multiset(s: Seq<(SpecValue, SpecValue)>)
    ensures
        sort_entries(s).to_multiset() == s.to_multiset(),
    decreases s.len(),
{
    broadcast use vstd::seq_lib::group_to_multiset_ensures;

    if s.len() > 0 {
        let rest = s.subrange(1, s.len() as int);
        lemma_sort_entries_multiset(rest);
        lemma_insert_entry_multiset(s[0], sort_entries(rest));
        lemma_concat_singleton_multiset(s[0], rest);
        assert(seq![s[0]] + rest =~= s);
    }
}

proof fn lemma_canon_entries_remove(es: Seq<(SpecValue, SpecValue)>, i: int)
    requires
        0 <= i < es.len(),
    ensures
        canon_entries(es).remove(i) =~= canon_entries(es.remove(i)),
{
    assert forall|k: int| 0 <= k < es.len() - 1 implies canon_entries(es).remove(i)[k]
        == canon_entries(es.remove(i))[k] by {
        if k < i {
            assert(es.remove(i)[k] == es[k]);
        } else {
            assert(es.remove(i)[k] == es[k + 1]);
        }
    }
}

proof fn lemma_canon_entries_multiset(es1: Seq<(SpecValue, SpecValue)>, es2: Seq<(SpecValue, SpecValue)>)
    requires
        es1.to_multiset() == es2.to_multiset(),
    ensures
        canon_entries(es1).to_multiset() == canon_entries(es2).to_multiset(),
    decreases es1.len(),
{
    broadcast use vstd::seq_lib::group_to_multiset_ensures;

    assert(es1.to_multiset().len() == es1.len());
    assert(es2.to_multiset().len() == es2.len());
    if es1.len() == 0 {
        assert(es2.len() == 0);
        assert(canon_entries(es1) =~= canon_entries(es2));
    } else {
        let e = es1[0];
        assert(es1.contains(e));
        assert(es2.to_multiset().count(e) > 0);
        assert(es2.contains(e));
        let j = choose|j: int| 0 <= j < es2.len() && es2[j] == e;
        let r1 = es1.remove(0);
        let r2 = es2.remove(j);
        assert(r1.to_multiset() == es1.to_multiset().remove(e));
        assert(r2.to_multiset() == es2.to_multiset().remove(e));
        lemma_canon_entries_multiset(r1, r2);
        lemma_canon_entries_remove(es1, 0);
        lemma_canon_entries_remove(es2, j);
        let ce1 = canon_entries(es1);
        let ce2 = canon_entries(es2);
        let cp = (canon(e.0), canon(e.1));
        assert(ce1[0] == cp && ce2[j] == cp);
        assert(ce1.remove(0).to_multiset() == ce1.to_multiset().remove(cp));
        assert(ce2.remove(j).to_multiset() == ce2.to_multiset().remove(cp));
        assert(ce1.remove(0).to_multiset() == canon_entries(r1).to_multiset());
        assert(ce2.remove(j).to_multiset() == canon_entries(r2).to_multiset());
        assert(ce1.contains(cp) && ce2.contains(cp));
        assert(ce1.to_multiset().count(cp) > 0 && ce2.to_multiset().count(cp) > 0);
        assert(ce1.to_multiset() =~= ce1.to_multiset().remove(cp).insert(cp));
        assert(ce2.to_multiset() =~= ce2.to_multiset().remove(cp).insert(cp));
    }
}

/// The keys of the entries, in canonical form, all render to different
/// texts: the map has no two entries standing for the same key.
pub open spec fn distinct_canon_keys(es: Seq<(SpecValue, SpecValue)>) -> bool {
    forall|i: int, j: int| #![trigger es[i], es[j]]
        0 <= i < es.len() && 0 <= j < es.len() && i != j ==> spec_render(canon(es[i].0), ""@)
            != spec_render(canon(es[j].0), ""@)
}

spec fn distinct_rendered_keys(s: Seq<(SpecValue, SpecValue)>) -> bool {
    forall|i: int, j: int| #![trigger s[i], s[j]]
        0 <= i < s.len() && 0 <= j < s.len() && i != j ==> spec_render(s[i].0, ""@)
            != spec_render(s[j].0, ""@)
}

proof fn lemma_sorted_unique(s: Seq<(SpecValue, SpecValue)>, t: Seq<(SpecValue, SpecValue)>)
    requires
        entries_sorted(s),
        entries_sorted(t),
        s.to_multiset() == t.to_multiset(),
        distinct_rendered_keys(s),
    ensures
        s == t,
    decreases s.len(),
{
    broadcast use vstd::seq_lib::group_to_multiset_ensures;

    assert(s.to_multiset().len() == s.len());
    assert(t.to_multiset().len() == t.len());
    if s.len() == 0 {
        assert(t.len() == 0);
        assert(s =~= t);
    } else {
        assert(t.len() == s.len());
        assert(s.contains(s[0]) && t.contains(t[0]));
        assert(t.to_multiset().count(s[0]) > 0);
        assert(s.to_multiset().count(t[0]) > 0);
        assert(t.contains(s[0]) && s.contains(t[0]));
        let a = choose|a: int| 0 <= a < s.len() && s[a] == t[0];
        let b = choose|b: int| 0 <= b < t.len() && t[b] == s[0];
        lemma_sorted_le(s, 0, a);
        lemma_sorted_le(t, 0, b);
        lemma_key_le_antisym(s[0].0, t[0].0);
        assert(spec_render(s[0].0, ""@) == spec_render(s[a].0, ""@));
        assert(a == 0);
        assert(s[0] == t[0]);
        let s1 = s.remove(0);
        let t1 = t.remove(0);
        assert(s1.to_multiset() == t1.to_multiset());
        assert forall|i: int| #![trigger s1[i]] 0 <= i < s1.len() - 1 implies key_le(
            s1[i].0,
            s1[i + 1].0,
        ) by {
            assert(s1[i] == s[i + 1] && s1[i + 1] == s[i + 2]);
        }
        assert forall|i: int| #![trigger t1[i]] 0 <= i < t1.len() - 1 implies key_le(
            t1[i].0,
            t1[i + 1].0,
        ) by {
            assert(t1[i] == t[i + 1] && t1[i + 1] == t[i + 2]);
        }
        assert forall|i: int, j: int| #![trigger s1[i], s1[j]]
            0 <= i < s1.len() && 0 <= j < s1.len() && i != j implies spec_render(s1[i].0, ""@)
            != spec_render(s1[j].0, ""@) by {
            assert(s1[i] == s[i + 1] && s1[j] == s[j + 1]);
        }
        lemma_sorted_unique(s1, t1);
        assert forall|k: int| 0 <= k < s.len() implies s[k] == t[k] by {
            if k > 0 {
                assert(s[k] == s1[k - 1] && t[k] == t1[k - 1]);
            }
        }
        assert(s =~= t);
    }
}

/// Permutation invariance: two maps holding the same entries, in any
/// two orders, have the same canonical form, provided no two entries
/// stand for the same key (their canonical keys all render apart).
pub proof fn lemma_canon_map_permutation(
    es1: Seq<(SpecValue, SpecValue)>,
    es2: Seq<(SpecValue, SpecValue)>,
)
    requires
        es1.to_multiset() == es2.to_multiset(),
        distinct_canon_keys(es1),
    ensures
        canon(SpecValue::MapOf(es1)) == canon(SpecValue::MapOf(es2)),
{
    broadcast use vstd::seq_lib::group_to_multiset_ensures;

    let ce1 = canon_entries(es1);
    let ce2 = canon_entries(es2);
    lemma_canon_entries_multiset(es1, es2);
    let sc1 = sort_entries(ce1);
    let sc2 = sort_entries(ce2);
    lemma_sort_entries_sorted(ce1);
    lemma_sort_entries_sorted(ce2);
    lemma_sort_entries_multiset(ce1);
    lemma_sort_entries_multiset(ce2);
    assert(ce1.no_duplicates()) by {
        assert forall|i: int, j: int|
            0 <= i < ce1.len() && 0 <= j < ce1.len() && i != j implies ce1[i] != ce1[j] by {
            assert(spec_render(canon(es1[i].0), ""@) != spec_render(canon(es1[j].0), ""@));
            assert(ce1[i].0 == canon(es1[i].0) && ce1[j].0 == canon(es1[j].0));
        }
    }
    ce1.lemma_multiset_has_no_duplicates();
    sc1.lemma_multiset_has_no_duplicates_conv();
    assert(distinct_rendered_keys(sc1)) by {
        assert forall|i: int, j: int|
            0 <= i < sc1.len() && 0 <= j < sc1.len() && i != j implies spec_render(sc1[i].0, ""@)
            != spec_render(sc1[j].0, ""@) by {
            assert(ce1.contains(sc1[i]) && ce1.contains(sc1[j]));
            let mi = choose|m: int| 0 <= m < ce1.len() && ce1[m] == sc1[i];
            let mj = choose|m: int| 0 <= m < ce1.len() && ce1[m] == sc1[j];
            assert(sc1[i] != sc1[j]);
            assert(mi != mj);
            assert(spec_render(canon(es1[mi].0), ""@) != spec_render(canon(es1[mj].0), ""@));
            assert(sc1[i].0 == canon(es1[mi].0) && sc1[j].0 == canon(es1[mj].0));
        }
    }
    lemma_sorted_unique(sc1, sc2);
}

} // verus!
