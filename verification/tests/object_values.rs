use std::collections::HashMap;

use sorted_debug::SortedDebug;

const TEST_RERUNS_FOR_DETERMINISM: u32 = 100;

fn sorted_debug<T: std::fmt::Debug>(v: T) -> String {
    SortedDebug::new(&format!("{:?}", v)).unwrap().text()
}

#[derive(Debug)]
struct Foo {
    value: f32,
    bar: Vec<Bar>,
}

#[derive(Debug)]
struct Bar {
    elo: i32,
}

#[test]
fn hashmap_with_object_values() {
    for _ in 0..TEST_RERUNS_FOR_DETERMINISM {
        let item = {
            let mut map = HashMap::new();
            map.insert(
                "foo",
                Foo {
                    value: 12.2,
                    bar: vec![Bar { elo: 200 }, Bar { elo: -12 }],
                },
            );
            map.insert(
                "foo2",
                Foo {
                    value: -0.2,
                    bar: vec![],
                },
            );
            map
        };

        let expected = "{\n    \"foo\": Foo {\n        value: 12.2,\n        bar: [\n            Bar {\n                elo: 200,\n            },\n            Bar {\n                elo: -12,\n            },\n        ],\n    },\n    \"foo2\": Foo {\n        value: -0.2,\n        bar: [],\n    },\n}";
        assert_eq!(sorted_debug(item), expected);
    }
}
