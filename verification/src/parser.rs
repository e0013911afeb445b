use vstd::prelude::*;

use crate::value::{elems_model, entries_model, fields_model, Entry, Field, SpecValue, Value};

verus! {

/// Characters that are insignificant between tokens.
pub open spec fn is_ws_char(c: char) -> bool {
    c == ' ' || c == '\n' || c == '\t' || c == '\r'
}

/// Characters an identifier may start with.
pub open spec fn is_ident_start(c: char) -> bool {
    (('a' as u32) <= (c as u32) && (c as u32) <= ('z' as u32)) || (('A' as u32) <= (c as u32) && (c
        as u32) <= ('Z' as u32)) || c == '_'
}

/// Characters an identifier may continue with.
pub open spec fn is_ident_char(c: char) -> bool {
    is_ident_start(c) || (('0' as u32) <= (c as u32) && (c as u32) <= ('9' as u32))
}

/// Characters a bare term may contain: anything but whitespace, the
/// delimiters, the separators and the quote.
pub open spec fn is_term_char(c: char) -> bool {
    !(c == ':' || c == ',' || c == '{' || c == '}' || c == '[' || c == ']' || c == '(' || c == ')'
        || c == '"' || is_ws_char(c))
}

/// The first position at or after `i` that does not hold whitespace.
pub open spec fn skip_ws(s: Seq<char>, i: int) -> int
    decreases s.len() - i,
{
    if 0 <= i < s.len() && is_ws_char(s[i]) {
        skip_ws(s, i + 1)
    } else {
        i
    }
}

/// The end of the identifier run starting at `i`.
pub open spec fn scan_ident(s: Seq<char>, i: int) -> int
    decreases s.len() - i,
{
    if 0 <= i < s.len() && is_ident_char(s[i]) {
        scan_ident(s, i + 1)
    } else {
        i
    }
}

/// The end of the bare-term run starting at `i`.
pub open spec fn scan_term(s: Seq<char>, i: int) -> int
    decreases s.len() - i,
{
    if 0 <= i < s.len() && is_term_char(s[i]) {
        scan_term(s, i + 1)
    } else {
        i
    }
}

/// Scans a quoted string from `i`, the position just after the opening
/// quote, to just after the closing quote; a backslash escapes the
/// character after it. `None` when the string never closes.
pub open spec fn scan_string(s: Seq<char>, i: int) -> Option<int>
    decreases s.len() - i,
{
    if !(0 <= i < s.len()) {
        Option::None
    } else if s[i] == '"' {
        Option::Some(i + 1)
    } else if s[i] == '\\' {
        if i + 1 < s.len() {
            scan_string(s, i + 2)
        } else {
            Option::None
        }
    } else {
        scan_string(s, i + 1)
    }
}

/// Parses one value starting at `i` (leading whitespace allowed);
/// `Some((v, k))` leaves `k` just after the value's last character.
pub open spec fn parse_value(s: Seq<char>, i: int) -> Option<(SpecValue, int)>
    decreases s.len() - i, 0int,
{
    if !(0 <= i <= s.len()) {
        Option::None
    } else {
        let j = skip_ws(s, i);
        if !(i <= j <= s.len()) {
            Option::None
        } else if j == s.len() {
            Option::None
        } else if s[j] == '[' {
            match parse_elems(s, j + 1, ']') {
                Option::None => Option::None,
                Option::Some((vs, e)) => Option::Some((SpecValue::List(vs), e)),
            }
        } else if s[j] == '{' {
            parse_braced(s, j + 1)
        } else if s[j] == '(' {
            match parse_elems(s, j + 1, ')') {
                Option::None => Option::None,
                Option::Some((vs, e)) => Option::Some(
                    (SpecValue::Tuple { name: Option::None, elems: vs }, e),
                ),
            }
        } else if s[j] == '"' {
            match scan_string(s, j + 1) {
                Option::None => Option::None,
                Option::Some(k) => {
                    if !(j < k <= s.len()) {
                        Option::None
                    } else {
                        Option::Some((SpecValue::Term(s.subrange(j, k)), k))
                    }
                },
            }
        } else if is_ident_start(s[j]) {
            let k = scan_ident(s, j);
            if !(j < k <= s.len()) {
                Option::None
            } else {
                let m = skip_ws(s, k);
                if !(k <= m <= s.len()) {
                    Option::None
                } else if m < s.len() && s[m] == '{' {
                    match parse_fields(s, m + 1) {
                        Option::None => Option::None,
                        Option::Some((fs, e)) => Option::Some(
                            (SpecValue::Struct { name: s.subrange(j, k), fields: fs }, e),
                        ),
                    }
                } else if m < s.len() && s[m] == '(' {
                    match parse_elems(s, m + 1, ')') {
                        Option::None => Option::None,
                        Option::Some((vs, e)) => Option::Some(
                            (
                                SpecValue::Tuple {
                                    name: Option::Some(s.subrange(j, k)),
                                    elems: vs,
                                },
                                e,
                            ),
                        ),
                    }
                } else {
                    let t = scan_term(s, k);
                    if !(k <= t <= s.len()) {
                        Option::None
                    } else {
                        Option::Some((SpecValue::Term(s.subrange(j, t)), t))
                    }
                }
            }
        } else if is_term_char(s[j]) {
            let t = scan_term(s, j);
            if !(j < t <= s.len()) {
                Option::None
            } else {
                Option::Some((SpecValue::Term(s.subrange(j, t)), t))
            }
        } else {
            Option::None
        }
    }
}

/// Parses the inside of a `{`-group: an empty group or one whose first
/// item decides between a map (`key: value` entries) and a set (bare
/// values). `i` is the position just after the opening brace.
pub open spec fn parse_braced(s: Seq<char>, i: int) -> Option<(SpecValue, int)>
    decreases s.len() - i, 2int,
{
    if !(0 <= i <= s.len()) {
        Option::None
    } else {
        let j = skip_ws(s, i);
        if !(i <= j <= s.len()) {
            Option::None
        } else if j == s.len() {
            Option::None
        } else if s[j] == '}' {
            Option::Some((SpecValue::MapOf(Seq::empty()), j + 1))
        } else {
            match parse_value(s, j) {
                Option::None => Option::None,
                Option::Some((v, k)) => {
                    if !(j < k <= s.len()) {
                        Option::None
                    } else {
                        let m = skip_ws(s, k);
                        if !(k <= m <= s.len()) {
                            Option::None
                        } else if m == s.len() {
                            Option::None
                        } else if s[m] == ':' {
                            match parse_value(s, m + 1) {
                                Option::None => Option::None,
                                Option::Some((w, p)) => {
                                    if !(m < p <= s.len()) {
                                        Option::None
                                    } else {
                                        let q = skip_ws(s, p);
                                        if !(p <= q <= s.len()) {
                                            Option::None
                                        } else if q == s.len() {
                                            Option::None
                                        } else if s[q] == ',' {
                                            match parse_entries(s, q + 1) {
                                                Option::None => Option::None,
                                                Option::Some((rest, e)) => Option::Some(
                                                    (SpecValue::MapOf(seq![(v, w)] + rest), e),
                                                ),
                                            }
                                        } else if s[q] == '}' {
                                            Option::Some((SpecValue::MapOf(seq![(v, w)]), q + 1))
                                        } else {
                                            Option::None
                                        }
                                    }
                                },
                            }
                        } else if s[m] == ',' {
                            match parse_elems(s, m + 1, '}') {
                                Option::None => Option::None,
                                Option::Some((rest, e)) => Option::Some(
                                    (SpecValue::SetOf(seq![v] + rest), e),
                                ),
                            }
                        } else if s[m] == '}' {
                            Option::Some((SpecValue::SetOf(seq![v]), m + 1))
                        } else {
                            Option::None
                        }
                    }
                },
            }
        }
    }
}

/// Parses `value (, value)* ,? close` or just `close`, starting after
/// the opening delimiter; returns the elements and the position after
/// `close`.
pub open spec fn parse_elems(s: Seq<char>, i: int, close: char) -> Option<(Seq<SpecValue>, int)>
    decreases s.len() - i, 1int,
{
    if !(0 <= i <= s.len()) {
        Option::None
    } else {
        let j = skip_ws(s, i);
        if !(i <= j <= s.len()) {
            Option::None
        } else if j == s.len() {
            Option::None
        } else if s[j] == close {
            Option::Some((Seq::empty(), j + 1))
        } else {
            match parse_value(s, j) {
                Option::None => Option::None,
                Option::Some((v, k)) => {
                    if !(j < k <= s.len()) {
                        Option::None
                    } else {
                        let m = skip_ws(s, k);
                        if !(k <= m <= s.len()) {
                            Option::None
                        } else if m == s.len() {
                            Option::None
                        } else if s[m] == ',' {
                            match parse_elems(s, m + 1, close) {
                                Option::None => Option::None,
                                Option::Some((rest, e)) => Option::Some((seq![v] + rest, e)),
                            }
                        } else if s[m] == close {
                            Option::Some((seq![v], m + 1))
                        } else {
                            Option::None
                        }
                    }
                },
            }
        }
    }
}

/// Parses `name: value (, name: value)* ,? }` or just `}`: the fields
/// of a struct, starting after the opening brace.
pub open spec fn parse_fields(s: Seq<char>, i: int) -> Option<(Seq<(Seq<char>, SpecValue)>, int)>
    decreases s.len() - i, 1int,
{
    if !(0 <= i <= s.len()) {
        Option::None
    } else {
        let j = skip_ws(s, i);
        if !(i <= j <= s.len()) {
            Option::None
        } else if j == s.len() {
            Option::None
        } else if s[j] == '}' {
            Option::Some((Seq::empty(), j + 1))
        } else if !is_ident_start(s[j]) {
            Option::None
        } else {
            let k = scan_ident(s, j);
            if !(j < k <= s.len()) {
                Option::None
            } else {
                let m = skip_ws(s, k);
                if !(k <= m <= s.len()) {
                    Option::None
                } else if m == s.len() {
                    Option::None
                } else if s[m] != ':' {
                    Option::None
                } else {
                    match parse_value(s, m + 1) {
                        Option::None => Option::None,
                        Option::Some((v, p)) => {
                            if !(m < p <= s.len()) {
                                Option::None
                            } else {
                                let q = skip_ws(s, p);
                                if !(p <= q <= s.len()) {
                                    Option::None
                                } else if q == s.len() {
                                    Option::None
                                } else if s[q] == ',' {
                                    match parse_fields(s, q + 1) {
                                        Option::None => Option::None,
                                        Option::Some((rest, e)) => Option::Some(
                                            (seq![(s.subrange(j, k), v)] + rest, e),
                                        ),
                                    }
                                } else if s[q] == '}' {
                                    Option::Some((seq![(s.subrange(j, k), v)], q + 1))
                                } else {
                                    Option::None
                                }
                            }
                        },
                    }
                }
            }
        }
    }
}

/// Parses `key: value (, key: value)* ,? }` or just `}`: the entries of
/// a map, starting after the opening brace or a separating comma.
pub open spec fn parse_entries(s: Seq<char>, i: int) -> Option<
    (Seq<(SpecValue, SpecValue)>, int),
>
    decreases s.len() - i, 1int,
{
    if !(0 <= i <= s.len()) {
        Option::None
    } else {
        let j = skip_ws(s, i);
        if !(i <= j <= s.len()) {
            Option::None
        } else if j == s.len() {
            Option::None
        } else if s[j] == '}' {
            Option::Some((Seq::empty(), j + 1))
        } else {
            match parse_value(s, j) {
                Option::None => Option::None,
                Option::Some((v, k)) => {
                    if !(j < k <= s.len()) {
                        Option::None
                    } else {
                        let m = skip_ws(s, k);
                        if !(k <= m <= s.len()) {
                            Option::None
                        } else if m == s.len() {
                            Option::None
                        } else if s[m] != ':' {
                            Option::None
                        } else {
                            match parse_value(s, m + 1) {
                                Option::None => Option::None,
                                Option::Some((w, p)) => {
                                    if !(m < p <= s.len()) {
                                        Option::None
                                    } else {
                                        let q = skip_ws(s, p);
                                        if !(p <= q <= s.len()) {
                                            Option::None
                                        } else if q == s.len() {
                                            Option::None
                                        } else if s[q] == ',' {
                                            match parse_entries(s, q + 1) {
                                                Option::None => Option::None,
                                                Option::Some((rest, e)) => Option::Some(
                                                    (seq![(v, w)] + rest, e),
                                                ),
                                            }
                                        } else if s[q] == '}' {
                                            Option::Some((seq![(v, w)], q + 1))
                                        } else {
                                            Option::None
                                        }
                                    }
                                },
                            }
                        }
                    }
                },
            }
        }
    }
}

/// Parses a whole text: one value, with whitespace allowed around it and
/// nothing else before the end.
pub open spec fn parse_text(s: Seq<char>) -> Option<SpecValue> {
    match parse_value(s, 0) {
        Option::None => Option::None,
        Option::Some((v, k)) => {
            if !(0 <= k <= s.len()) {
                Option::None
            } else if skip_ws(s, k) == s.len() {
                Option::Some(v)
            } else {
                Option::None
            }
        },
    }
}

/// The model of an executable value-parse result.
pub open spec fn value_res(r: Option<(Value, usize)>) -> Option<(SpecValue, int)> {
    match r {
        Option::None => Option::None,
        Option::Some((v, k)) => Option::Some((v@, k as int)),
    }
}

/// The model of an executable element-list parse result.
pub open spec fn elems_res(r: Option<(Vec<Value>, usize)>) -> Option<(Seq<SpecValue>, int)> {
    match r {
        Option::None => Option::None,
        Option::Some((vs, k)) => Option::Some((elems_model(vs@), k as int)),
    }
}

/// The model of an executable field-list parse result.
pub open spec fn fields_res(r: Option<(Vec<Field>, usize)>) -> Option<
    (Seq<(Seq<char>, SpecValue)>, int),
> {
    match r {
        Option::None => Option::None,
        Option::Some((fs, k)) => Option::Some((fields_model(fs@), k as int)),
    }
}

/// The model of an executable entry-list parse result.
pub open spec fn entries_res(r: Option<(Vec<Entry>, usize)>) -> Option<
    (Seq<(SpecValue, SpecValue)>, int),
> {
    match r {
        Option::None => Option::None,
        Option::Some((es, k)) => Option::Some((entries_model(es@), k as int)),
    }
}

fn is_ws_exec(c: char) -> (r: bool)
    ensures
        r == is_ws_char(c),
{
    c == ' ' || c == '\n' || c == '\t' || c == '\r'
}

fn is_ident_start_exec(c: char) -> (r: bool)
    ensures
        r == is_ident_start(c),
{
    let u = c as u32;
    (('a' as u32) <= u && u <= ('z' as u32)) || (('A' as u32) <= u && u <= ('Z' as u32)) || c == '_'
}

fn is_ident_char_exec(c: char) -> (r: bool)
    ensures
        r == is_ident_char(c),
{
    let u = c as u32;
    is_ident_start_exec(c) || (('0' as u32) <= u && u <= ('9' as u32))
}

fn is_term_char_exec(c: char) -> (r: bool)
    ensures
        r == is_term_char(c),
{
    !(c == ':' || c == ',' || c == '{' || c == '}' || c == '[' || c == ']' || c == '(' || c == ')'
        || c == '"' || is_ws_exec(c))
}

fn scan_ws_exec(s: &str, i: usize) -> (r: usize)
    requires
        i <= s@.len(),
    ensures
        i <= r <= s@.len(),
        r as int == skip_ws(s@, i as int),
    decreases s@.len() - i,
{
    let n = s.unicode_len();
    if i < n {
        let c = s.get_char(i);
        if is_ws_exec(c) {
            return scan_ws_exec(s, i + 1);
        }
    }
    i
}

fn scan_ident_exec(s: &str, i: usize) -> (r: usize)
    requires
        i <= s@.len(),
    ensures
        i <= r <= s@.len(),
        r as int == scan_ident(s@, i as int),
    decreases s@.len() - i,
{
    let n = s.unicode_len();
    if i < n {
        let c = s.get_char(i);
        if is_ident_char_exec(c) {
            return scan_ident_exec(s, i + 1);
        }
    }
    i
}

fn scan_term_exec(s: &str, i: usize) -> (r: usize)
    requires
        i <= s@.len(),
    ensures
        i <= r <= s@.len(),
        r as int == scan_term(s@, i as int),
    decreases s@.len() - i,
{
    let n = s.unicode_len();
    if i < n {
        let c = s.get_char(i);
        if is_term_char_exec(c) {
            return scan_term_exec(s, i + 1);
        }
    }
    i
}

fn scan_string_exec(s: &str, i: usize) -> (r: Option<usize>)
    requires
        i <= s@.len(),
    ensures
        match r {
            Option::Some(k) => i < k <= s@.len() && scan_string(s@, i as int) == Option::Some(
                k as int,
            ),
            Option::None => scan_string(s@, i as int) is None,
        },
    decreases s@.len() - i,
{
    let n = s.unicode_len();
    if i >= n {
        return Option::None;
    }
    let c = s.get_char(i);
    if c == '"' {
        Option::Some(i + 1)
    } else if c == '\\' {
        if i + 1 < n {
            scan_string_exec(s, i + 2)
        } else {
            Option::None
        }
    } else {
        scan_string_exec(s, i + 1)
    }
}

/// Parses one value of the debug grammar starting at `i`.
pub fn p_value(s: &str, i: usize) -> (r: Option<(Value, usize)>)
    requires
        i <= s@.len(),
    ensures
        value_res(r) == parse_value(s@, i as int),
        match r {
            Option::Some(pr) => i < pr.1 <= s@.len(),
            Option::None => true,
        },
    decreases s@.len() - i, 0int,
{
    let n = s.unicode_len();
    let j = scan_ws_exec(s, i);
    if j >= n {
        return Option::None;
    }
    let c = s.get_char(j);
    if c == '[' {
        match p_elems(s, j + 1, ']') {
            Option::None => Option::None,
            Option::Some((vs, e)) => {
                let rv = Value::List(vs);
                proof {
                    if let SpecValue::List(em) = rv@ {
                        assert(em =~= elems_model(rv->List_0@));
                    }
                }
                Option::Some((rv, e))
            },
        }
    } else if c == '{' {
        p_braced(s, j + 1)
    } else if c == '(' {
        match p_elems(s, j + 1, ')') {
            Option::None => Option::None,
            Option::Some((vs, e)) => {
                let rv = Value::Tuple { name: Option::None, elems: vs };
                proof {
                    if let SpecValue::Tuple { name: nm, elems: em } = rv@ {
                        assert(em =~= elems_model(rv->Tuple_elems@));
                    }
                }
                Option::Some((rv, e))
            },
        }
    } else if c == '"' {
        match scan_string_exec(s, j + 1) {
            Option::None => Option::None,
            Option::Some(k) => {
                let txt = s.substring_char(j, k).to_owned();
                Option::Some((Value::Term(txt), k))
            },
        }
    } else if is_ident_start_exec(c) {
        let k = scan_ident_exec(s, j);
        if !(j < k) {
            return Option::None;
        }
        let m = scan_ws_exec(s, k);
        if m < n && s.get_char(m) == '{' {
            match p_fields(s, m + 1) {
                Option::None => Option::None,
                Option::Some((fs, e)) => {
                    let rv = Value::Struct { name: s.substring_char(j, k).to_owned(), fields: fs };
                    proof {
                        if let SpecValue::Struct { name: nm, fields: fm } = rv@ {
                            assert(fm =~= fields_model(rv->Struct_fields@));
                        }
                    }
                    Option::Some((rv, e))
                },
            }
        } else if m < n && s.get_char(m) == '(' {
            match p_elems(s, m + 1, ')') {
                Option::None => Option::None,
                Option::Some((vs, e)) => {
                    let rv = Value::Tuple {
                        name: Option::Some(s.substring_char(j, k).to_owned()),
                        elems: vs,
                    };
                    proof {
                        if let SpecValue::Tuple { name: nm, elems: em } = rv@ {
                            assert(em =~= elems_model(rv->Tuple_elems@));
                        }
                    }
                    Option::Some((rv, e))
                },
            }
        } else {
            let t = scan_term_exec(s, k);
            Option::Some((Value::Term(s.substring_char(j, t).to_owned()), t))
        }
    } else if is_term_char_exec(c) {
        let t = scan_term_exec(s, j);
        if !(j < t) {
            return Option::None;
        }
        Option::Some((Value::Term(s.substring_char(j, t).to_owned()), t))
    } else {
        Option::None
    }
}

/// Parses the inside of a `{`-group, deciding between map and set.
fn p_braced(s: &str, i: usize) -> (r: Option<(Value, usize)>)
    requires
        i <= s@.len(),
    ensures
        value_res(r) == parse_braced(s@, i as int),
        match r {
            Option::Some(pr) => i < pr.1 <= s@.len(),
            Option::None => true,
        },
    decreases s@.len() - i, 2int,
{
    let n = s.unicode_len();
    let j = scan_ws_exec(s, i);
    if j >= n {
        return Option::None;
    }
    if s.get_char(j) == '}' {
        let rv = Value::MapOf(Vec::new());
        proof {
            if let SpecValue::MapOf(em) = rv@ {
                assert(em =~= Seq::<(SpecValue, SpecValue)>::empty());
            }
        }
        return Option::Some((rv, j + 1));
    }
    match p_value(s, j) {
        Option::None => Option::None,
        Option::Some((v, k)) => {
            if !(j < k) {
                return Option::None;
            }
            let m = scan_ws_exec(s, k);
            if m >= n {
                return Option::None;
            }
            if s.get_char(m) == ':' {
                match p_value(s, m + 1) {
                    Option::None => Option::None,
                    Option::Some((w, p)) => {
                        if !(m < p) {
                            return Option::None;
                        }
                        let q = scan_ws_exec(s, p);
                        if q >= n {
                            return Option::None;
                        }
                        if s.get_char(q) == ',' {
                            match p_entries(s, q + 1) {
                                Option::None => Option::None,
                                Option::Some((rest, e)) => {
                                    let mut rest = rest;
                                    let ghost rest0 = rest@;
                                    rest.insert(0, Entry { key: v, value: w });
                                    let rv = Value::MapOf(rest);
                                    proof {
                                        if let SpecValue::MapOf(em) = rv@ {
                                            assert(em =~= seq![(v@, w@)] + entries_model(rest0));
                                        }
                                    }
                                    Option::Some((rv, e))
                                },
                            }
                        } else if s.get_char(q) == '}' {
                            let mut es: Vec<Entry> = Vec::new();
                            es.push(Entry { key: v, value: w });
                            let rv = Value::MapOf(es);
                            proof {
                                if let SpecValue::MapOf(em) = rv@ {
                                    assert(em =~= seq![(v@, w@)]);
                                }
                            }
                            Option::Some((rv, q + 1))
                        } else {
                            Option::None
                        }
                    },
                }
            } else if s.get_char(m) == ',' {
                match p_elems(s, m + 1, '}') {
                    Option::None => Option::None,
                    Option::Some((rest, e)) => {
                        let mut rest = rest;
                        let ghost rest0 = rest@;
                        rest.insert(0, v);
                        let rv = Value::SetOf(rest);
                        proof {
                            if let SpecValue::SetOf(em) = rv@ {
                                assert(em =~= seq![rest0.insert(0, rest@[0])[0]@] + elems_model(
                                    rest0,
                                ));
                            }
                        }
                        Option::Some((rv, e))
                    },
                }
            } else if s.get_char(m) == '}' {
                let mut es: Vec<Value> = Vec::new();
                es.push(v);
                let rv = Value::SetOf(es);
                proof {
                    if let SpecValue::SetOf(em) = rv@ {
                        assert(em =~= seq![es@[0]@]);
                    }
                }
                Option::Some((rv, m + 1))
            } else {
                Option::None
            }
        },
    }
}

/// Parses a comma-separated, `close`-terminated list of values.
fn p_elems(s: &str, i: usize, close: char) -> (r: Option<(Vec<Value>, usize)>)
    requires
        i <= s@.len(),
    ensures
        elems_res(r) == parse_elems(s@, i as int, close),
        match r {
            Option::Some(pr) => i < pr.1 <= s@.len(),
            Option::None => true,
        },
    decreases s@.len() - i, 1int,
{
    let n = s.unicode_len();
    let j = scan_ws_exec(s, i);
    if j >= n {
        return Option::None;
    }
    if s.get_char(j) == close {
        let vs: Vec<Value> = Vec::new();
        proof {
            assert(elems_model(vs@) =~= Seq::<SpecValue>::empty());
        }
        return Option::Some((vs, j + 1));
    }
    match p_value(s, j) {
        Option::None => Option::None,
        Option::Some((v, k)) => {
            if !(j < k) {
                return Option::None;
            }
            let m = scan_ws_exec(s, k);
            if m >= n {
                return Option::None;
            }
            if s.get_char(m) == ',' {
                match p_elems(s, m + 1, close) {
                    Option::None => Option::None,
                    Option::Some((rest, e)) => {
                        let mut rest = rest;
                        let ghost rest0 = rest@;
                        rest.insert(0, v);
                        proof {
                            assert(elems_model(rest@) =~= seq![v@] + elems_model(rest0));
                        }
                        Option::Some((rest, e))
                    },
                }
            } else if s.get_char(m) == close {
                let mut vs: Vec<Value> = Vec::new();
                vs.push(v);
                proof {
                    assert(elems_model(vs@) =~= seq![v@]);
                }
                Option::Some((vs, m + 1))
            } else {
                Option::None
            }
        },
    }
}

/// Parses the `name: value` fields of a struct body.
fn p_fields(s: &str, i: usize) -> (r: Option<(Vec<Field>, usize)>)
    requires
        i <= s@.len(),
    ensures
        fields_res(r) == parse_fields(s@, i as int),
        match r {
            Option::Some(pr) => i < pr.1 <= s@.len(),
            Option::None => true,
        },
    decreases s@.len() - i, 1int,
{
    let n = s.unicode_len();
    let j = scan_ws_exec(s, i);
    if j >= n {
        return Option::None;
    }
    if s.get_char(j) == '}' {
        let fs: Vec<Field> = Vec::new();
        proof {
            assert(fields_model(fs@) =~= Seq::<(Seq<char>, SpecValue)>::empty());
        }
        return Option::Some((fs, j + 1));
    }
    if !is_ident_start_exec(s.get_char(j)) {
        return Option::None;
    }
    let k = scan_ident_exec(s, j);
    if !(j < k) {
        return Option::None;
    }
    let m = scan_ws_exec(s, k);
    if m >= n {
        return Option::None;
    }
    if s.get_char(m) != ':' {
        return Option::None;
    }
    match p_value(s, m + 1) {
        Option::None => Option::None,
        Option::Some((v, p)) => {
            if !(m < p) {
                return Option::None;
            }
            let q = scan_ws_exec(s, p);
            if q >= n {
                return Option::None;
            }
            let fname = s.substring_char(j, k).to_owned();
            if s.get_char(q) == ',' {
                match p_fields(s, q + 1) {
                    Option::None => Option::None,
                    Option::Some((rest, e)) => {
                        let mut rest = rest;
                        let ghost rest0 = rest@;
                        let ghost fnv = fname@;
                        rest.insert(0, Field { name: fname, value: v });
                        proof {
                            assert(fields_model(rest@) =~= seq![(fnv, v@)] + fields_model(rest0));
                        }
                        Option::Some((rest, e))
                    },
                }
            } else if s.get_char(q) == '}' {
                let ghost fnv = fname@;
                let mut fs: Vec<Field> = Vec::new();
                fs.push(Field { name: fname, value: v });
                proof {
                    assert(fields_model(fs@) =~= seq![(fnv, v@)]);
                }
                Option::Some((fs, q + 1))
            } else {
                Option::None
            }
        },
    }
}

/// Parses the `key: value` entries of a map body.
fn p_entries(s: &str, i: usize) -> (r: Option<(Vec<Entry>, usize)>)
    requires
        i <= s@.len(),
    ensures
        entries_res(r) == parse_entries(s@, i as int),
        match r {
            Option::Some(pr) => i < pr.1 <= s@.len(),
            Option::None => true,
        },
    decreases s@.len() - i, 1int,
{
    let n = s.unicode_len();
    let j = scan_ws_exec(s, i);
    if j >= n {
        return Option::None;
    }
    if s.get_char(j) == '}' {
        let es: Vec<Entry> = Vec::new();
        proof {
            assert(entries_model(es@) =~= Seq::<(SpecValue, SpecValue)>::empty());
        }
        return Option::Some((es, j + 1));
    }
    match p_value(s, j) {
        Option::None => Option::None,
        Option::Some((v, k)) => {
            if !(j < k) {
                return Option::None;
            }
            let m = scan_ws_exec(s, k);
            if m >= n {
                return Option::None;
            }
            if s.get_char(m) != ':' {
                return Option::None;
            }
            match p_value(s, m + 1) {
                Option::None => Option::None,
                Option::Some((w, p)) => {
                    if !(m < p) {
                        return Option::None;
                    }
                    let q = scan_ws_exec(s, p);
                    if q >= n {
                        return Option::None;
                    }
                    if s.get_char(q) == ',' {
                        match p_entries(s, q + 1) {
                            Option::None => Option::None,
                            Option::Some((rest, e)) => {
                                let mut rest = rest;
                                let ghost rest0 = rest@;
                                rest.insert(0, Entry { key: v, value: w });
                                proof {
                                    assert(entries_model(rest@) =~= seq![(v@, w@)] + entries_model(
                                        rest0,
                                    ));
                                }
                                Option::Some((rest, e))
                            },
                        }
                    } else if s.get_char(q) == '}' {
                        let mut es: Vec<Entry> = Vec::new();
                        es.push(Entry { key: v, value: w });
                        proof {
                            assert(entries_model(es@) =~= seq![(v@, w@)]);
                        }
                        Option::Some((es, q + 1))
                    } else {
                        Option::None
                    }
                },
            }
        },
    }
}

/// Parses a whole text: one value with only whitespace around it;
/// `None` exactly when the text does not match the grammar.
pub fn p_text(s: &str) -> (r: Option<Value>)
    ensures
        match r {
            Option::Some(v) => parse_text(s@) == Option::Some(v@),
            Option::None => parse_text(s@) is None,
        },
{
    match p_value(s, 0) {
        Option::None => Option::None,
        Option::Some((v, k)) => {
            let e = scan_ws_exec(s, k);
            if e == s.unicode_len() {
                Option::Some(v)
            } else {
                Option::None
            }
        },
    }
}

} // verus!
