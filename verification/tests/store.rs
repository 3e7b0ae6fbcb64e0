use clippin::error::StoreError;
use clippin::store::{decode, encode, store_location, ClipboardStore};

fn texts(items: &[&str]) -> Vec<String> {
    items.iter().map(|item| item.to_string()).collect()
}

#[test]
fn encode_joins_entries_with_line_feeds() {
    assert_eq!(encode(&texts(&["/a", "/b/c", "/d"])), "/a\n/b/c\n/d");
    assert_eq!(encode(&texts(&["/only"])), "/only");
}

#[test]
fn encode_of_no_entries_is_empty() {
    assert_eq!(encode(&Vec::new()), "");
}

#[test]
fn decode_splits_at_line_feeds() {
    assert_eq!(decode("/a\n/b/c\n/d"), texts(&["/a", "/b/c", "/d"]));
    assert_eq!(decode("/only"), texts(&["/only"]));
}

#[test]
fn decode_of_empty_text_is_no_entry() {
    assert_eq!(decode(""), Vec::<String>::new());
}

#[test]
fn decode_skips_empty_lines() {
    assert_eq!(decode("/a\n"), texts(&["/a"]));
    assert_eq!(decode("\n/a\n\n/b"), texts(&["/a", "/b"]));
    assert_eq!(decode("\n"), Vec::<String>::new());
    assert_eq!(decode("\n\n\n"), Vec::<String>::new());
}

#[test]
fn decode_keeps_lines_of_blanks() {
    assert_eq!(decode(" \n/a\n\t"), texts(&[" ", "/a", "\t"]));
}

#[test]
fn decode_does_not_split_at_carriage_returns() {
    assert_eq!(decode("/a\r\n/b"), texts(&["/a\r", "/b"]));
}

#[test]
fn decode_undoes_encode() {
    let lists: Vec<Vec<String>> = vec![
        Vec::new(),
        texts(&["/only"]),
        texts(&["/home/u/a.txt", "/home/u/dir with space", "/x/é"]),
        texts(&["/twice", "/twice"]),
    ];
    for entries in lists {
        assert_eq!(decode(&encode(&entries)), entries);
    }
}

#[test]
fn encode_undoes_decode_of_text_without_empty_lines() {
    for content in ["", "/a", "/a\n/b", "no separator", "/é\n/日本/x"] {
        assert_eq!(encode(&decode(content)), content);
    }
}

#[test]
fn store_location_is_fixed_name_in_temp_root() {
    assert_eq!(store_location("/tmp"), "/tmp/clippin.txt");
    assert_eq!(store_location("/var/tmp/"), "/var/tmp/clippin.txt");
}

#[test]
fn read_of_absent_store_is_not_found() {
    let store = ClipboardStore::absent();
    assert_eq!(store.content, None);
    assert_eq!(store.read(), Err(StoreError::NotFound));
}

#[test]
fn read_yields_lines_of_content() {
    let store = ClipboardStore::holding("/a\n/b".to_string());
    assert_eq!(store.read(), Ok(texts(&["/a", "/b"])));
}

#[test]
fn read_leaves_store_as_it_is() {
    let store = ClipboardStore::holding("/a\n/b".to_string());
    let first = store.read();
    let second = store.read();
    assert_eq!(first, second);
    assert_eq!(store.content, Some("/a\n/b".to_string()));
}

#[test]
fn write_then_read_yields_entries() {
    let mut store = ClipboardStore::absent();
    let entries = texts(&["/home/u/a.txt", "/home/u/b.txt"]);
    store.write(&entries);
    assert_eq!(store.content, Some("/home/u/a.txt\n/home/u/b.txt".to_string()));
    assert_eq!(store.read(), Ok(entries));
}

#[test]
fn second_write_replaces_first() {
    let mut store = ClipboardStore::absent();
    store.write(&texts(&["/first/a", "/first/b", "/first/c"]));
    store.write(&texts(&["/second/x"]));
    assert_eq!(store.content, Some("/second/x".to_string()));
    assert_eq!(store.read(), Ok(texts(&["/second/x"])));
}

#[test]
fn write_of_no_entries_reads_as_no_entries() {
    let mut store = ClipboardStore::holding("/old".to_string());
    store.write(&Vec::new());
    assert_eq!(store.content, Some(String::new()));
    assert_eq!(store.read(), Ok(Vec::new()));
}

#[test]
fn read_never_yields_an_empty_entry() {
    for content in ["", "\n", "/a\n", "\n/a", "/a\n\n/b", "\n\n"] {
        let entries = ClipboardStore::holding(content.to_string()).read().unwrap();
        assert!(entries.iter().all(|entry| !entry.is_empty() && !entry.contains('\n')));
    }
}

#[test]
fn entry_with_line_feed_reads_as_two() {
    let mut store = ClipboardStore::absent();
    store.write(&texts(&["/odd\nname"]));
    assert_eq!(store.read(), Ok(texts(&["/odd", "name"])));
}

#[test]
fn decode_agrees_with_std_split_without_empty_lines() {
    for content in ["", "\n", "/a", "/a\n/b", "/a\n\n/b\n", "/é\n/日本/x", "\n\n\n"] {
        let expected: Vec<String> = content
            .split("\n")
            .filter(|line| !line.is_empty())
            .map(|line| line.to_string())
            .collect();
        assert_eq!(decode(content), expected);
    }
}

#[test]
fn encode_agrees_with_std_join() {
    let lists: Vec<Vec<String>> = vec![
        Vec::new(),
        texts(&[""]),
        texts(&["/a"]),
        texts(&["/a", "/b"]),
        texts(&["", "", ""]),
        texts(&["/é", "/日本/x", "/with space"]),
    ];
    for entries in lists {
        assert_eq!(encode(&entries), entries.join("\n"));
    }
}
