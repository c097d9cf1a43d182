use maplit::{make_map, convert, read_entry_list, ListItem};

fn written(s: &str) -> Vec<ListItem<char>> {
    s.chars()
        .map(|c| if c == ',' { ListItem::Separator } else { ListItem::Entry(c) })
        .collect()
}

#[test]
fn trailing_separator_changes_nothing() {
    assert_eq!(read_entry_list(written("abc")), None);
    assert_eq!(read_entry_list(written("a,b,c")), Some(vec!['a', 'b', 'c']));
    assert_eq!(read_entry_list(written("a,b,c,")), Some(vec!['a', 'b', 'c']));
    assert_eq!(read_entry_list(written("a")), Some(vec!['a']));
    assert_eq!(read_entry_list(written("a,")), Some(vec!['a']));
}

#[test]
fn empty_list_has_no_entries() {
    assert_eq!(read_entry_list(written("")), Some(vec![]));
}

#[test]
fn malformed_lists_are_refused() {
    assert_eq!(read_entry_list(written(",")), None);
    assert_eq!(read_entry_list(written("a,,")), None);
    assert_eq!(read_entry_list(written(",a")), None);
    assert_eq!(read_entry_list(written("a,,b")), None);
    assert_eq!(read_entry_list(written("ab,")), None);
}

#[test]
fn make_map_holds_two_strings() {
    let s = make_map();
    assert_eq!(s.len(), 2);
    assert!(s.contains("a1"));
    assert!(s.contains("a2"));
    assert!(!s.contains("a3"));
}

#[test]
fn convert_holds_two_strings() {
    let s = convert();
    assert_eq!(s.len(), 2);
    assert!(s.contains("a"));
    assert!(s.contains("b"));
}
