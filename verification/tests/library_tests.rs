use rootftp::library::{plugin_index_text, read_plugin_index, select_plugins, LibraryEntry, PluginIndex};

fn entry(name: &str, kind: &str, url: Option<&str>) -> LibraryEntry {
    LibraryEntry { name: name.into(), kind: kind.into(), download_url: url.map(|u| u.to_string()) }
}

#[test]
fn only_shared_library_files_are_offered() {
    let listing = vec![
        entry("README.md", "file", Some("u0")),
        entry("ocr.so", "file", Some("u1")),
        entry("sub.so", "dir", Some("u2")),
        entry("cpp.so", "file", None),
        entry("ocr.so", "file", Some("u3")),
    ];
    let index = select_plugins(&listing);
    let mut names = index.names();
    names.sort();
    assert_eq!(names, vec!["cpp.so".to_string(), "ocr.so".to_string()]);
    assert_eq!(index.get("ocr.so"), Some("u3".to_string()));
    assert_eq!(index.get("cpp.so"), Some("".to_string()));
    assert_eq!(index.get("README.md"), None);
    assert_eq!(index.get("sub.so"), None);
}

#[test]
fn insert_replaces() {
    let mut i = PluginIndex::new();
    i.insert("a.so", "x");
    i.insert("b.so", "y");
    i.insert("a.so", "z");
    assert_eq!(i.entries.len(), 2);
    assert_eq!(i.get("a.so"), Some("z".to_string()));
}

#[test]
fn plugin_entries_and_index_file() {
    assert!(rootftp::library::is_plugin(&entry("x.so", "file", None)));
    assert!(!rootftp::library::is_plugin(&entry("x.so", "dir", None)));
    assert!(!rootftp::library::is_plugin(&entry("x.sox", "file", None)));
    assert_eq!(rootftp::server::plugin_index_path_in("/cfg/"), "/cfg/plugins.json");
}

#[test]
fn index_file_is_read() {
    let index = read_plugin_index("{\n  \"ocr.so\": \"https://x/ocr.so\",\n  \"cpp.so\": \"\"\n}").unwrap();
    let mut names = index.names();
    names.sort();
    assert_eq!(names, vec!["cpp.so".to_string(), "ocr.so".to_string()]);
    assert_eq!(index.get("ocr.so"), Some("https://x/ocr.so".to_string()));
    assert_eq!(index.get("cpp.so"), Some("".to_string()));
    assert_eq!(index.get("img.so"), None);
}

#[test]
fn index_file_last_value_wins() {
    let index = read_plugin_index("{\"a.so\": \"x\", \"a.so\": \"y\"}").unwrap();
    assert_eq!(index.names(), vec!["a.so".to_string()]);
    assert_eq!(index.get("a.so"), Some("y".to_string()));
}

#[test]
fn index_file_that_is_not_an_object_of_strings() {
    assert!(read_plugin_index("").is_err());
    assert!(read_plugin_index("[\"a.so\"]").is_err());
    assert!(read_plugin_index("{\"a.so\": 1}").is_err());
    assert!(read_plugin_index("{}").unwrap().names().is_empty());
}

#[test]
fn index_text_reads_back() {
    let mut i = PluginIndex::new();
    i.insert("a.so", "http://a");
    i.insert("b \"q\".so", "line\nbreak");
    let text = plugin_index_text(&i);
    assert!(text.starts_with('{'));
    let back = read_plugin_index(&text).unwrap();
    assert_eq!(back.names().len(), 2);
    assert_eq!(back.get("a.so"), Some("http://a".to_string()));
    assert_eq!(back.get("b \"q\".so"), Some("line\nbreak".to_string()));
}
