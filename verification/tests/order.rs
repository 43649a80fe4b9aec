use rebuilderd::order::{compare_texts, same_text, Order};
use rebuilderd::sorted_map::SortedMap;
use std::cmp::Ordering;

#[test]
fn texts_are_ordered_like_strings() {
    let texts = ["", "a", "aa", "ab", "b", "B", "\u{e9}", "\u{ffff}", "\u{10000}"];
    for a in texts {
        for b in texts {
            let expected = match a.cmp(b) {
                Ordering::Less => Order::Less,
                Ordering::Equal => Order::Equal,
                Ordering::Greater => Order::Greater,
            };
            assert_eq!(compare_texts(a, b), expected, "{a:?} {b:?}");
            assert_eq!(same_text(a, b), a == b);
        }
    }
}

#[test]
fn sorted_map_keeps_values_by_key() {
    let mut map: SortedMap<String, u32> = SortedMap::new();
    for (key, value) in [("m", 1), ("c", 2), ("x", 4), ("m", 8), ("a", 16), ("c", 32)] {
        *map.entry_or_insert(key.to_string(), 0) += value;
    }
    let entries = map.into_entries();
    let entries = entries
        .iter()
        .map(|(key, value)| (key.as_str(), *value))
        .collect::<Vec<_>>();
    assert_eq!(entries, vec![("a", 16), ("c", 34), ("m", 9), ("x", 4)]);
}
