use hydra_services::outputs::OutputMap;
use hydra_services::text::{decimal, text_order, TextOrder};

#[test]
fn decimal_texts() {
    for n in [0, 7, 10, 99, 100, 12345, -1, -10, 2147483647, -2147483648] {
        assert_eq!(decimal(n), n.to_string());
    }
}

#[test]
fn texts_are_ordered_as_strings_are() {
    let texts = ["", "a", "ab", "b", "ba", "out", "outa", "\u{e9}", "\u{10000}", "\u{ffff}", "A"];
    for a in texts {
        for b in texts {
            let wanted = if a < b {
                TextOrder::Less
            } else if a == b {
                TextOrder::Equal
            } else {
                TextOrder::Greater
            };
            assert_eq!(text_order(a, b), wanted, "{a:?} {b:?}");
        }
    }
}

#[test]
fn output_map_keeps_names_in_order() {
    let mut map = OutputMap::new();
    for name in ["m", "z", "a", "m", "b"] {
        map = map.insert(name.to_string(), format!("path of {name}"));
    }
    let names: Vec<&str> = map.entries().iter().map(|(name, _)| name.as_str()).collect();
    assert_eq!(names, vec!["a", "b", "m", "z"]);
    assert_eq!(map.get("b"), Some(&"path of b".to_string()));
    assert_eq!(map.get("c"), None);
}
