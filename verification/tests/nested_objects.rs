use std::collections::HashMap;

use sorted_debug::SortedDebug;

const TEST_RERUNS_FOR_DETERMINISM: u32 = 100;

fn sorted_debug<T: std::fmt::Debug>(v: T) -> String {
    SortedDebug::new(&format!("{:?}", v)).unwrap().text()
}

#[derive(Debug)]
struct Foo {
    bar: Bar,
}

#[derive(Debug)]
struct Bar {
    count: HashMap<&'static str, Zed>,
    value: usize,
}

#[derive(Debug)]
struct Zed;

#[test]
fn sorts_object_with_hashmap() {
    for _ in 0..TEST_RERUNS_FOR_DETERMINISM {
        let item = Foo {
            bar: Bar {
                count: {
                    let mut map = HashMap::new();
                    map.insert("hello world", Zed);
                    map.insert("lorem ipsum", Zed);
                    map
                },
                value: 200,
            },
        };

        let expected = "Foo {\n    bar: Bar {\n        count: {\n            \"hello world\": Zed,\n            \"lorem ipsum\": Zed,\n        },\n        value: 200,\n    },\n}";
        assert_eq!(sorted_debug(item), expected);
    }
}
