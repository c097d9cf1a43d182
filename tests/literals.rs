use maplit::{btreemap, btreeset, hashmap, hashset};
use std::collections::{BTreeMap, BTreeSet, HashMap, HashSet};

#[test]
fn test_hashmap() {
    let names: HashMap<i32, &str> = hashmap(vec![(1, "one"), (2, "two")]);
    assert_eq!(names.len(), 2);
    assert_eq!(names[&1], "one");
    assert_eq!(names[&2], "two");
    assert_eq!(names.get(&3), None);

    let empty: HashMap<i32, i32> = hashmap(vec![]);
    assert_eq!(empty.len(), 0);

    let into: HashMap<String, String> = hashmap(vec![
        ("one".into(), "two".into()),
        ("three".into(), "four".into()),
    ]);
    assert_eq!(into.len(), 2);
    assert_eq!(into["one"], "two");
    assert_eq!(into["three"], "four");
    assert_eq!(into.get("five"), None);

    let _nested_compiles: HashMap<i32, HashMap<i32, i32>> = hashmap(vec![
        (1, hashmap(vec![(0, 1 + 2)])),
        (2, hashmap(vec![(1, 1)])),
    ]);
}

#[test]
fn test_btreemap() {
    let names: BTreeMap<i32, &str> = btreemap(vec![(1, "one"), (2, "two")]);
    assert_eq!(names.len(), 2);
    assert_eq!(names[&1], "one");
    assert_eq!(names[&2], "two");
    assert_eq!(names.get(&3), None);

    let empty: BTreeMap<i32, i32> = btreemap(vec![]);
    assert_eq!(empty.len(), 0);

    let into: BTreeMap<String, i32> = btreemap(vec![("foo".into(), 42), ("bar".into(), 1337)]);
    assert_eq!(into.len(), 2);
    assert_eq!(into["foo"], 42);
    assert_eq!(into["bar"], 1337);
    assert_eq!(into.get("qux"), None);

    let _nested_compiles: BTreeMap<i32, BTreeMap<i32, i32>> = btreemap(vec![
        (1, btreemap(vec![(0, 1 + 2)])),
        (2, btreemap(vec![(1, 1)])),
    ]);
}

#[test]
fn test_hashset() {
    let settie: HashSet<i32> = hashset(vec![256, 2, -7, 0]);
    assert_eq!(settie.len(), 4);

    assert!(settie.contains(&-7));
    assert!(settie.contains(&2));
    assert!(settie.contains(&0));
    assert!(settie.contains(&256));

    assert!(!settie.contains(&7));
    assert!(!settie.contains(&-2));
    assert!(!settie.contains(&999));
    assert!(!settie.contains(&-1));

    let empty: HashSet<()> = hashset(vec![]);
    assert_eq!(empty.len(), 0);

    let into: HashSet<char> = hashset(vec![
        char::from(97u8), // 'a'
        char::from(32u8), // ' '
        char::from(90u8), // 'Z'
    ]);
    assert_eq!(into.len(), 3);

    assert!(into.contains(&'a'));
    assert!(into.contains(&'Z'));
    assert!(into.contains(&' '));

    assert!(!into.contains(&'b'));
    assert!(!into.contains(&'#'));
    assert!(!into.contains(&'\n'));
}

#[test]
fn test_btreeset() {
    let fruits: BTreeSet<&str> = btreeset(vec!["apple", "banana", "orange"]);
    assert_eq!(fruits.len(), 3);

    assert!(fruits.contains("apple"));
    assert!(fruits.contains("orange"));
    assert!(fruits.contains("banana"));

    assert!(!fruits.contains("potato"));
    assert!(!fruits.contains("carrot"));
    assert!(!fruits.contains("cucumber"));

    let empty: BTreeSet<usize> = btreeset(vec![]);
    assert_eq!(empty.len(), 0);

    let into: BTreeSet<Option<i32>> = btreeset(vec![Some(9), Some(-17), Some(0)]);
    assert_eq!(into.len(), 3);

    assert!(into.contains(&Some(9)));
    assert!(into.contains(&Some(0)));
    assert!(into.contains(&Some(-17)));

    assert!(!into.contains(&Some(17)));
    assert!(!into.contains(&Some(65536)));
    assert!(!into.contains(&None));

    let _nested_compiles: BTreeSet<BTreeSet<BTreeSet<i32>>> = btreeset(vec![
        btreeset(vec![btreeset(vec![1, 2, 3])]),
        btreeset(vec![]),
    ]);
}

#[test]
fn test_complex() {
    let bits: BTreeMap<i8, HashSet<&str>> = btreemap(vec![
        (1, hashset(vec!["one", "true", "yes"])),
        (0, hashset(vec!["zero", "false", "no"])),
    ]);
    assert_eq!(bits.len(), 2);
    assert_eq!(bits.keys().collect::<Vec<_>>(), vec![&0, &1]); // order matters
    assert_eq!(bits[&0], hashset(vec!["no", "false", "zero"]));

    assert!(bits.contains_key(&1));
    assert!(!bits.contains_key(&2));

    let s = |a: &str, b: &str| -> BTreeSet<String> { btreeset(vec![a.into(), b.into()]) };
    let octal: HashMap<i8, BTreeSet<String>> = hashmap(vec![
        (0, s("zero", "nul")),
        (1, s("one", "un")),
        (2, s("two", "deux")),
        (3, s("three", "trois")),
        (4, s("four", "quatre")),
        (5, s("five", "cinq")),
        (6, s("six", "six")),
        (7, s("seven", "sept")),
    ]);
    assert_eq!(octal.len(), 8);
    assert_eq!(octal[&3], s("trois", "three"));

    assert!(octal.contains_key(&0));
    assert!(octal.contains_key(&7));

    assert!(!octal.contains_key(&-1));
    assert!(!octal.contains_key(&8));
}

#[test]
fn test_parse() {
    let mut m = hashmap(vec![]);
    m.insert(1, 1);
    let _: HashMap<i32, i32> = hashmap(vec![(1, 1)]);
    let _: HashMap<i32, i32> = hashmap(vec![(1, 1),]);
    let _: HashMap<i32, i32> = hashmap(vec![(1 + 1, 1), (2 + 1, 2)]);
    let _: HashMap<i32, i32> = hashmap(vec![(1 + 1, 1), (2 + 1, 2),]);
    let _: HashMap<i32, i32> = hashmap(vec![({ 1 + 2 }, 1), ((1 + 3), { 0 + 2 })]);
    let m: HashMap<String, i32> = hashmap(vec![("a".into(), 1 + 2), ("b".into(), 1 + 3)]);
    assert_eq!(m["a"], 3);
    assert_eq!(m["b"], 4);
    let m: HashMap<String, i32> = hashmap(vec![("a".into(), 1 + 2), ("b".into(), 1 + 3),]);
    assert_eq!(m["a"], 3);
    assert_eq!(m["b"], 4);

    let mut s = hashset(vec![]);
    s.insert(1);
    let _: HashSet<i32> = hashset(vec![1]);
    let _: HashSet<i32> = hashset(vec![1,]);
    let _: HashSet<i32> = hashset(vec![1, 2]);
    let _: HashSet<i32> = hashset(vec![1, 2,]);
    let _: HashSet<i32> = hashset(vec![1 + 1, 2 + 1]);
    let _: HashSet<i32> = hashset(vec![1 + 1, 2 + 1,]);
    let _: HashSet<i32> = hashset(vec![{ 1 + 1 }, (2 + 1)]);
}
