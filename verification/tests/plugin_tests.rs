use rootftp::cpp_plugin::CppPlugin;
use rootftp::layout::{plugin_input_dir, plugin_output_dir};
use rootftp::plugins::{load_plugin, plugin_name, PluginAction, PluginInfo, PluginWatcher};
use rootftp::path::FsPath;
use rootftp::watch::EventFlags;

#[test]
fn plugin_names_and_install_targets() {
    assert_eq!(plugin_name(&FsPath::parse("/p/libocr.so")), Some("libocr".to_string()));
    assert_eq!(plugin_name(&FsPath::parse("/p/readme.md")), None);
    assert_eq!(plugin_name(&FsPath::parse("/p/.so")), None);
    assert_eq!(
        load_plugin("/srv/root", &FsPath::parse("/tmp/build/cpp.so")).unwrap().to_text(),
        "/srv/root/plugins/cpp.so"
    );
    assert!(load_plugin("/srv/root", &FsPath::parse("/tmp/build/cpp.dll")).is_none());
}

#[test]
fn dropped_files_go_to_the_plugin_that_handles_them() {
    let ftpd = FsPath::parse("/srv/ftpd");
    let plugins = vec![
        PluginInfo { name: "img".into(), exts: vec!["png".into(), "jpg".into()] },
        PluginInfo { name: "cpp".into(), exts: vec!["cpp".into()] },
    ];
    let mut w = PluginWatcher::new(ftpd, "alice".into(), plugins);
    let dirs = w.plugin_dirs();
    assert_eq!(dirs.len(), 2);
    assert_eq!(dirs[1].input.to_text(), "/srv/ftpd/alice/cpp/input");
    assert_eq!(dirs[1].output.to_text(), "/srv/ftpd/alice/cpp/output");
    w.record_watch(5, "cpp");
    w.record_watch(6, "img");
    let f = EventFlags { create: false, moved_to: false, close_write: true, is_dir: false };
    match w.on_event(5, f, Some("main.cpp")) {
        PluginAction::Dispatch { plugin, input, output } => {
            assert_eq!(plugin, 1);
            assert_eq!(input.to_text(), "/srv/ftpd/alice/cpp/input/main.cpp");
            assert_eq!(output.to_text(), "/srv/ftpd/alice/cpp/output");
        }
        other => panic!("{:?}", other),
    }
    assert!(matches!(w.on_event(5, f, Some("main.py")), PluginAction::Ignore));
    assert!(matches!(w.on_event(6, f, Some("cat.jpg")), PluginAction::Dispatch { plugin: 0, .. }));
    assert!(matches!(w.on_event(7, f, Some("cat.jpg")), PluginAction::Ignore));
    assert!(matches!(w.on_event(5, f, None), PluginAction::Ignore));
    let none = EventFlags { create: false, moved_to: false, close_write: false, is_dir: false };
    assert!(matches!(w.on_event(5, none, Some("main.cpp")), PluginAction::Ignore));
}

#[test]
fn layout_of_plugin_dirs() {
    let ftpd = FsPath::parse("/r/ftpd");
    assert_eq!(plugin_input_dir(&ftpd, "u", "p").to_text(), "/r/ftpd/u/p/input");
    assert_eq!(plugin_output_dir(&ftpd, "u", "p").to_text(), "/r/ftpd/u/p/output");
}

#[test]
fn cpp_plugin_files() {
    let c = CppPlugin;
    assert_eq!(c.extensions(), &["cpp"]);
    let input = FsPath::parse("/r/ftpd/u/cpp/input/main.cpp");
    let out = FsPath::parse("/r/ftpd/u/cpp/output");
    assert_eq!(c.output_file(&input, &out).unwrap().to_text(), "/r/ftpd/u/cpp/output/main.txt");
    assert_eq!(c.stdin_file(&input).unwrap().to_text(), "/r/ftpd/u/cpp/input/input.in");
    assert!(c.output_file(&FsPath::parse("/"), &out).is_none());
    assert!(c.stdin_file(&FsPath::parse("/")).is_none());
}
