use sorted_debug::{parse_debug_text, ParseError, SortedDebug};

fn canonical(s: &str) -> String {
    SortedDebug::new(s).unwrap().text()
}

#[test]
fn scalar_terms_round_trip() {
    assert_eq!(canonical("2"), "2");
    assert_eq!(canonical("-12.5"), "-12.5");
    assert_eq!(canonical("true"), "true");
    assert_eq!(canonical("\"hello world\""), "\"hello world\"");
    assert_eq!(canonical("\"esc \\\" and \\\\ stay\""), "\"esc \\\" and \\\\ stay\"");
    assert_eq!(canonical("2022-10-5"), "2022-10-5");
}

#[test]
fn map_entries_sorted_whatever_the_insertion_order() {
    let a = canonical("{2: \"b\", 1: \"a\", 20: \"c\"}");
    let b = canonical("{20: \"c\", 1: \"a\", 2: \"b\"}");
    let c = canonical("{1: \"a\", 20: \"c\", 2: \"b\"}");
    assert_eq!(a, "{\n    1: \"a\",\n    2: \"b\",\n    20: \"c\",\n}");
    assert_eq!(a, b);
    assert_eq!(a, c);
}

#[test]
fn lists_tuples_and_sets_keep_their_order() {
    assert_eq!(
        canonical("[Bar { elo: 200 }, Bar { elo: -12 }]"),
        "[\n    Bar {\n        elo: 200,\n    },\n    Bar {\n        elo: -12,\n    },\n]"
    );
    assert_eq!(canonical("(1, 2)"), "(\n    1,\n    2,\n)");
    assert_eq!(canonical("Foo(2, 1)"), "Foo(\n    2,\n    1,\n)");
    assert_eq!(canonical("{3, 1, 2}"), "{\n    3,\n    1,\n    2,\n}");
}

#[test]
fn struct_fields_keep_their_order_while_inner_maps_sort() {
    let text = "Foo { zed: 1, bar: Bar { count: {\"b\": 2, \"a\": 1} } }";
    let expected = "Foo {\n    zed: 1,\n    bar: Bar {\n        count: {\n            \"a\": 1,\n            \"b\": 2,\n        },\n    },\n}";
    assert_eq!(canonical(text), expected);
}

#[test]
fn structured_keys_order_by_their_rendering() {
    let a = canonical("{Foo { value: 12 }: \"x\", Foo { value: -2 }: \"y\"}");
    let b = canonical("{Foo { value: -2 }: \"y\", Foo { value: 12 }: \"x\"}");
    let expected = "{\n    Foo {\n        value: -2,\n    }: \"y\",\n    Foo {\n        value: 12,\n    }: \"x\",\n}";
    assert_eq!(a, expected);
    assert_eq!(a, b);
}

#[test]
fn keys_holding_maps_sort_the_same_from_any_entry_order() {
    let a = canonical("{{2: \"b\", 1: \"a\"}: \"v\", {0: \"z\"}: \"w\"}");
    let b = canonical("{{1: \"a\", 2: \"b\"}: \"v\", {0: \"z\"}: \"w\"}");
    assert_eq!(a, b);
}

#[test]
fn repetition_is_stable() {
    let first = canonical("{2: true, 1: true, 20: true}");
    for _ in 0..100 {
        assert_eq!(canonical("{2: true, 1: true, 20: true}"), first);
        let again = SortedDebug::new(&first).unwrap().text();
        assert_eq!(again, first);
    }
}

#[test]
fn empty_containers_render_compactly() {
    assert_eq!(canonical("[]"), "[]");
    assert_eq!(canonical("{}"), "{}");
    assert_eq!(canonical("()"), "()");
    assert_eq!(canonical("Zed"), "Zed");
}

#[test]
fn trailing_commas_and_pretty_whitespace_are_insignificant() {
    assert_eq!(
        canonical("{\n    2: true,\n    1: true,\n}"),
        "{\n    1: true,\n    2: true,\n}"
    );
    assert_eq!(canonical("[1, 2,]"), "[\n    1,\n    2,\n]");
}

#[test]
fn malformed_text_is_a_parse_error() {
    assert!(parse_debug_text("\"unterminated").is_err());
    assert!(parse_debug_text("{1: true").is_err());
    assert!(parse_debug_text("[1, 2").is_err());
    assert!(parse_debug_text("").is_err());
    assert!(parse_debug_text("a b").is_err());
    assert!(parse_debug_text("{1: true, 2}").is_err());
    assert!(parse_debug_text("Foo { 1: true }").is_err());
    assert!(SortedDebug::new("{{").is_err());
    assert_eq!(
        ParseError.message(),
        "debug text does not conform to the supported grammar"
    );
}
