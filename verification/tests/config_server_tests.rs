use rootftp::config::{Config, ConfigCache, ConfigSource, StoredConfig};
use rootftp::layout::{init, shared_dir};
use rootftp::server::{int_text, listen_address, parse_pid, pid_path_in, pid_text};

#[test]
fn load_plans() {
    let mut cache = ConfigCache::new();
    assert!(Config::plan_load(&cache, None, Some("/c".into())).is_none());
    match Config::plan_load(&cache, Some("/home/a".into()), Some("/home/a/.config/rootftp".into())) {
        Some(ConfigSource::Stored { dir, file, default }) => {
            assert_eq!(dir, "/home/a/.config/rootftp");
            assert_eq!(file, "/home/a/.config/rootftp/config.json");
            assert_eq!(default.root_dir, "/home/a/ftproot");
        }
        other => panic!("{:?}", other),
    }
    match Config::plan_load(&cache, Some("/home/a/".into()), None) {
        Some(ConfigSource::Default(c)) => assert_eq!(c.root_dir, "/home/a/ftproot"),
        other => panic!("{:?}", other),
    }
    let saved = Config { root_dir: "/data".into() };
    let r = saved.save_with(&mut cache, Some("/cfg".into())).unwrap();
    assert_eq!(r, ("/cfg".to_string(), "/cfg/config.json".to_string()));
    match Config::plan_load(&cache, None, None) {
        Some(ConfigSource::Cached(c)) => assert_eq!(c.root_dir, "/data"),
        other => panic!("{:?}", other),
    }
    match Config::load(&mut cache) {
        Some(ConfigSource::Cached(c)) => assert_eq!(c.root_dir, "/data"),
        other => panic!("{:?}", other),
    }
    assert_eq!(cache.cached.as_ref().unwrap().root_dir, "/data");
    assert!(saved.save_with(&mut cache, None).is_none());
}

#[test]
fn resolve_prefers_the_stored_config() {
    let d = || Config { root_dir: "/home/a/ftproot".into() };
    let (c, w) = Config::resolve(d(), StoredConfig::Parsed(Config { root_dir: "/x".into() }));
    assert_eq!((c.root_dir.as_str(), w), ("/x", false));
    let (c, w) = Config::resolve(d(), StoredConfig::Unparsable);
    assert_eq!((c.root_dir.as_str(), w), ("/home/a/ftproot", false));
    let (c, w) = Config::resolve(d(), StoredConfig::Unreadable);
    assert_eq!((c.root_dir.as_str(), w), ("/home/a/ftproot", true));
    let mut cache = ConfigCache::new();
    cache.remember(&c);
    assert_eq!(cache.cached.unwrap().root_dir, "/home/a/ftproot");
}

#[test]
fn a_finished_load_is_kept() {
    let mut cache = ConfigCache::new();
    let d = Config { root_dir: "/home/a/ftproot".into() };
    let (c, w) = Config::finish_load(&mut cache, d, StoredConfig::Parsed(Config { root_dir: "/srv".into() }));
    assert_eq!((c.root_dir.as_str(), w), ("/srv", false));
    match Config::load(&mut cache) {
        Some(ConfigSource::Cached(c)) => assert_eq!(c.root_dir, "/srv"),
        other => panic!("{:?}", other),
    }
    let mut cache = ConfigCache::new();
    let d = Config { root_dir: "/home/a/ftproot".into() };
    let (c, w) = Config::finish_load(&mut cache, d, StoredConfig::Unreadable);
    assert_eq!((c.root_dir.as_str(), w), ("/home/a/ftproot", true));
    match Config::load(&mut cache) {
        Some(ConfigSource::Cached(c)) => assert_eq!(c.root_dir, "/home/a/ftproot"),
        other => panic!("{:?}", other),
    }
}

#[test]
fn pid_text_round_trip() {
    assert_eq!(pid_text(0), "0");
    assert_eq!(pid_text(4194304), "4194304");
    assert_eq!(pid_text(u32::MAX), u32::MAX.to_string());
    for x in [0i32, 7, -1, 1234, i32::MAX, i32::MIN] {
        assert_eq!(int_text(x), x.to_string());
        assert_eq!(parse_pid(&int_text(x)), Some(x));
    }
    assert_eq!(parse_pid(&pid_text(31337)), Some(31337));
    assert_eq!(parse_pid(&pid_text(2147483648)), None);
}

#[test]
fn parse_pid_matches_i32_from_str() {
    for s in [" 42\n", "+7", "-0", "2147483648", "-2147483648", "-2147483649", "", "12a", "-", "+", "0042", " \u{a0}9\t", "99999999999999999999", "--1", "1 2"] {
        assert_eq!(parse_pid(s), s.trim().parse::<i32>().ok(), "{:?}", s);
    }
}

#[test]
fn addresses_and_layout() {
    assert_eq!(listen_address("192.168.1.5"), "192.168.1.5:2121");
    assert_eq!(pid_path_in("/cfg"), "/cfg/rootftp.pid");
    let l = init("/srv/root");
    assert_eq!(l.root.to_text(), "/srv/root");
    assert_eq!(l.ftpd.to_text(), "/srv/root/ftpd");
    assert_eq!(l.credentials.to_text(), "/srv/root/credentials.json");
    assert_eq!(l.plugins.to_text(), "/srv/root/plugins");
    assert_eq!(shared_dir("/srv/root").to_text(), "/srv/root/ftpd/shared");
}

#[test]
fn configuration_directory_is_the_projects() {
    if let Some(d) = rootftp::config::config_dir() {
        assert!(d.ends_with("/rootftp"), "{}", d);
    }
    if let Some(p) = rootftp::server::pid_path() {
        assert!(p.ends_with("/rootftp/rootftp.pid"), "{}", p);
    }
}
