use rootftp::path::{FsPath, PathComponent, name_extension, name_stem, join_text};

fn texts(p: &FsPath) -> Vec<String> {
    p.comps
        .iter()
        .map(|c| match c {
            PathComponent::RootDir => "<root>".to_string(),
            PathComponent::CurDir => "<cur>".to_string(),
            PathComponent::ParentDir => "<parent>".to_string(),
            PathComponent::Normal(s) => s.clone(),
        })
        .collect()
}

#[test]
fn parse_absolute_path_drops_empty_parts_and_dots() {
    let p = FsPath::parse("/home//alice/./ftproot/");
    assert_eq!(texts(&p), vec!["<root>", "home", "alice", "ftproot"]);
}

#[test]
fn parse_keeps_leading_dot_and_parent() {
    assert_eq!(texts(&FsPath::parse("./a/../b")), vec!["<cur>", "a", "<parent>", "b"]);
    assert_eq!(texts(&FsPath::parse("a/./b")), vec!["a", "b"]);
    assert!(FsPath::parse("").comps.is_empty());
    assert_eq!(texts(&FsPath::parse("//")), vec!["<root>"]);
}

#[test]
fn join_appends_or_replaces() {
    let base = FsPath::parse("/srv/ftpd");
    assert_eq!(texts(&base.join("bob")), vec!["<root>", "srv", "ftpd", "bob"]);
    assert_eq!(texts(&base.join("./x/y")), vec!["<root>", "srv", "ftpd", "x", "y"]);
    assert_eq!(texts(&base.join("/etc")), vec!["<root>", "etc"]);
    assert_eq!(texts(&FsPath::parse("").join("./x")), vec!["<cur>", "x"]);
}

#[test]
fn to_text_writes_components() {
    assert_eq!(FsPath::parse("/srv//ftpd/./bob/").to_text(), "/srv/ftpd/bob");
    assert_eq!(FsPath::parse("a/b").join("c").to_text(), "a/b/c");
    assert_eq!(FsPath::empty().to_text(), "");
}

#[test]
fn extensions_and_stems_follow_std() {
    assert_eq!(name_extension("main.cpp"), Some("cpp".to_string()));
    assert_eq!(name_extension("a.tar.gz"), Some("gz".to_string()));
    assert_eq!(name_extension(".bashrc"), None);
    assert_eq!(name_extension(".."), None);
    assert_eq!(name_extension("noext"), None);
    assert_eq!(name_extension("a."), Some("".to_string()));
    assert_eq!(name_stem("a.tar.gz"), "a.tar");
    assert_eq!(name_stem(".bashrc"), ".bashrc");
    assert_eq!(name_stem(".."), "..");
    for n in ["main.cpp", "a.tar.gz", ".bashrc", "..", "noext", "a.", "x.y.z.", "..a"] {
        let p = std::path::Path::new(n);
        assert_eq!(
            name_extension(n),
            p.extension().map(|e| e.to_string_lossy().into_owned()),
            "{}",
            n
        );
        if n != ".." {
            assert_eq!(
                Some(name_stem(n)),
                p.file_stem().map(|e| e.to_string_lossy().into_owned()),
                "{}",
                n
            );
        }
    }
}

#[test]
fn file_name_parent_and_strip_prefix() {
    let p = FsPath::parse("/srv/ftpd/alice/outbox/share.bob");
    assert_eq!(p.file_name(), Some("share.bob".to_string()));
    assert_eq!(p.extension(), Some("bob".to_string()));
    assert_eq!(p.file_stem(), Some("share".to_string()));
    assert_eq!(p.parent().unwrap().to_text(), "/srv/ftpd/alice/outbox");
    assert!(FsPath::parse("/").parent().is_none());
    assert!(FsPath::parse("a/..").file_name().is_none());
    let base = FsPath::parse("/srv/ftpd/alice");
    let rel = p.strip_prefix(&base).unwrap();
    assert_eq!(texts(&rel), vec!["outbox", "share.bob"]);
    assert!(base.strip_prefix(&p).is_none());
    assert!(p.strip_prefix(&FsPath::parse("/srv/ftpd/bob")).is_none());
}

#[test]
fn join_text_pushes_like_pathbuf() {
    for (b, n) in [("/home/a", "ftproot"), ("/home/a/", "ftproot"), ("", "x"), ("/a", "/b"), ("a", "")] {
        let expect = std::path::PathBuf::from(b).join(n).to_string_lossy().into_owned();
        assert_eq!(join_text(b, n), expect, "{} {}", b, n);
    }
}

#[test]
fn text_of_a_path_parses_back() {
    for s in ["/srv//ftpd/./bob/", "./a/../b", "", "/", "a", "..", "./", "x/y/."] {
        let p = FsPath::parse(s);
        let again = FsPath::parse(&p.to_text());
        assert_eq!(texts(&again), texts(&p), "{:?}", s);
    }
}

#[test]
fn joining_text_and_joining_components_agree() {
    for (b, n) in [("/srv", "ftpd"), ("/srv/", "./x"), ("", "./x"), ("a", "/b"), ("a", "b/../c"), ("/", "x")] {
        let by_text = FsPath::parse(&join_text(b, n));
        let by_comps = FsPath::parse(b).join(n);
        assert_eq!(texts(&by_text), texts(&by_comps), "{:?} {:?}", b, n);
    }
}
