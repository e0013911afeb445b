use std::collections::HashMap;

use sorted_debug::SortedDebug;

const TEST_RERUNS_FOR_DETERMINISM: u32 = 100;

fn sorted_debug<T: std::fmt::Debug>(v: T) -> String {
    SortedDebug::new(&format!("{:?}", v)).unwrap().text()
}

#[test]
fn noop_sorts() {
    for _ in 0..TEST_RERUNS_FOR_DETERMINISM {
        assert_eq!(sorted_debug(2), "2");
    }
}

#[test]
fn sorts_hashmap() {
    for _ in 0..TEST_RERUNS_FOR_DETERMINISM {
        // Note that we have to create the HashMaps each try
        // in order to induce non-determinism in the debug output.
        let item = {
            let mut map = HashMap::new();
            map.insert(1, true);
            map.insert(2, true);
            map.insert(20, true);
            map
        };

        let expected = "{\n    1: true,\n    2: true,\n    20: true,\n}";
        assert_eq!(sorted_debug(item), expected);
    }
}
