use std::collections::HashMap;

use sorted_debug::SortedDebug;

const TEST_RERUNS_FOR_DETERMINISM: u32 = 100;

fn sorted_debug<T: std::fmt::Debug>(v: T) -> String {
    SortedDebug::new(&format!("{:?}", v)).unwrap().text()
}

#[derive(Debug, PartialEq, Eq, Hash)]
struct Foo {
    value: i32,
    bar: Vec<Bar>,
}

#[derive(Debug, PartialEq, Eq, Hash)]
struct Bar {
    elo: i32,
}

#[test]
fn hashmap_with_object_keys() {
    for _ in 0..TEST_RERUNS_FOR_DETERMINISM {
        let item = {
            let mut map = HashMap::new();
            map.insert(
                Foo {
                    value: 12,
                    bar: vec![Bar { elo: 200 }, Bar { elo: -12 }],
                },
                "foo",
            );
            map.insert(
                Foo {
                    value: -2,
                    bar: vec![],
                },
                "foo2",
            );
            map
        };

        let expected = "{\n    Foo {\n        value: -2,\n        bar: [],\n    }: \"foo2\",\n    Foo {\n        value: 12,\n        bar: [\n            Bar {\n                elo: 200,\n            },\n            Bar {\n                elo: -12,\n            },\n        ],\n    }: \"foo\",\n}";
        assert_eq!(sorted_debug(item), expected);
    }
}
