use cup::index::TextMap;
use cup::lists::{batch_texts, unique_texts};
use cup::text::{fill_format, without_leading, without_trailing, write_decimal};

#[test]
fn first_occurrences_are_kept_in_order() {
    assert_eq!(unique_texts(&vec!["b", "a", "b", "c", "a"]), vec!["b", "a", "c"]);
    assert!(unique_texts(&vec![]).is_empty());
}

#[test]
fn batches_hold_everything_in_order() {
    let items = vec!["a", "b", "c", "d", "e"];
    assert_eq!(
        batch_texts(&items, 2),
        vec![vec!["a", "b"], vec!["c", "d"], vec!["e"]]
    );
    assert_eq!(batch_texts(&items, 5), vec![items.clone()]);
    assert!(batch_texts(&vec![], 2).is_empty());
}

#[test]
fn a_map_gives_back_what_was_stored() {
    let mut map: TextMap<u32> = TextMap::new();
    assert_eq!(map.get("a"), None);
    map.insert("a".to_string(), 1);
    map.insert("b".to_string(), 2);
    map.insert("a".to_string(), 3);
    assert_eq!(map.get("a"), Some(&3));
    assert_eq!(map.get("b"), Some(&2));
    assert!(map.contains("b"));
    assert!(!map.contains("c"));
}

#[test]
fn a_map_of_lists_collects() {
    let mut map: TextMap<Vec<u32>> = TextMap::new();
    map.add("a".to_string(), 1);
    map.add("b".to_string(), 2);
    map.add("a".to_string(), 3);
    assert_eq!(map.get("a"), Some(&vec![1, 3]));
    assert_eq!(map.get("b"), Some(&vec![2]));
}

#[test]
fn numbers_are_written_in_decimal() {
    assert_eq!(write_decimal(0), "0");
    assert_eq!(write_decimal(1009), "1009");
    assert_eq!(write_decimal(4294967295), "4294967295");
}

#[test]
fn formats_are_filled_from_the_left() {
    let numbers = vec!["1".to_string(), "20".to_string()];
    assert_eq!(fill_format("v{}.{}-rc", &numbers), "v1.20-rc");
    assert_eq!(fill_format("{}.{}.{}", &numbers), "1.20.{}");
    assert_eq!(fill_format("none", &numbers), "none");
}

#[test]
fn runs_are_trimmed() {
    assert_eq!(without_trailing("a/b//", '/'), "a/b");
    assert_eq!(without_trailing("//", '/'), "");
    assert_eq!(without_leading("//test-web", '/'), "test-web");
    assert_eq!(without_leading("a/", '/'), "a/");
}
