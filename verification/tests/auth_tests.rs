use rootftp::auth::{AuthError, SimpleAuthenticator, UserEntry};

fn empty() -> SimpleAuthenticator {
    SimpleAuthenticator::new("/srv/ftproot/credentials.json".to_string(), Vec::new())
}

#[test]
fn refused_names() {
    let mut a = empty();
    assert_eq!(a.authenticate("", Some("pw")).unwrap_err(), AuthError::BadUser);
    assert_eq!(a.authenticate("anonymous", Some("pw")).unwrap_err(), AuthError::BadUser);
    assert_eq!(a.authenticate("AnonYMous", None).unwrap_err(), AuthError::BadUser);
    assert!(a.users.is_empty());
}

#[test]
fn first_sign_in_registers_then_password_is_required() {
    let mut a = empty();
    let l = a.authenticate("alice", Some("secret")).unwrap();
    assert!(l.registered);
    assert_eq!(l.user.username, "alice");
    assert_eq!(l.user.password, "secret");
    assert_eq!(l.user.home_dir, Some("alice".to_string()));
    assert_eq!(a.users.len(), 1);

    let again = a.authenticate("alice", Some("secret")).unwrap();
    assert!(!again.registered);
    assert_eq!(again.user.password, "secret");
    assert_eq!(a.users.len(), 1);

    assert_eq!(a.authenticate("alice", Some("guess")).unwrap_err(), AuthError::BadPassword);
    assert_eq!(a.authenticate("alice", None).unwrap_err(), AuthError::BadPassword);
    assert_eq!(a.users.len(), 1);
}

#[test]
fn new_name_without_password_is_not_registered() {
    let mut a = empty();
    assert_eq!(a.authenticate("bob", None).unwrap_err(), AuthError::BadPassword);
    assert!(a.users.is_empty());
}

#[test]
fn names_are_case_sensitive_and_first_match_wins() {
    let users = vec![
        UserEntry { username: "carol".into(), password: "one".into(), home_dir: None },
        UserEntry { username: "carol".into(), password: "two".into(), home_dir: None },
    ];
    let mut a = SimpleAuthenticator::new("c.json".into(), users);
    assert!(a.authenticate("carol", Some("one")).is_ok());
    assert_eq!(a.authenticate("carol", Some("two")).unwrap_err(), AuthError::BadPassword);
    let l = a.authenticate("Carol", Some("x")).unwrap();
    assert!(l.registered);
    assert_eq!(a.users.len(), 3);
}

#[test]
fn describe_and_root() {
    let u = UserEntry { username: "d\"e".into(), password: "p".into(), home_dir: Some("d".into()) };
    assert_eq!(u.describe(), "User(username: \"d\\\"e\"");
    assert_eq!(u.user_root(), Some("d".to_string()));
}

#[test]
fn user_dirs_and_services() {
    let mut a = empty();
    let first = a.ensure_user_dirs("/srv/root", "alice", 0);
    assert!(first.services.is_none());
    let dirs: Vec<String> = first.dirs.iter().map(|p| p.to_text()).collect();
    assert_eq!(
        dirs,
        vec![
            "/srv/root/ftpd/alice",
            "/srv/root/ftpd/alice/uploads",
            "/srv/root/ftpd/alice/home",
            "/srv/root/ftpd/alice/inbox",
            "/srv/root/ftpd/alice/outbox",
            "/srv/root/ftpd/alice/private",
        ]
    );
    assert!(a.ensure_user_dirs("/srv/root", "alice", 5).services.is_none());
    assert!(!a.sessions.outbox_started);
    assert!(a.sessions.users.is_empty());

    let s1 = a.ensure_user_dirs("/srv/root", "alice", 6).services.unwrap();
    assert!(s1.start_outbox_watchers);
    assert!(s1.start_plugin_watchers);
    assert_eq!(s1.load_plugins_from.unwrap().to_text(), "/srv/root/plugins");
    assert_eq!(s1.ftpd.to_text(), "/srv/root/ftpd");

    let s2 = a.ensure_user_dirs("/srv/root", "alice", 6).services.unwrap();
    assert!(!s2.start_outbox_watchers);
    assert!(!s2.start_plugin_watchers);
    assert!(s2.load_plugins_from.is_none());

    assert!(a.ensure_user_dirs("/srv/root", "bob", 2).services.is_none());
    let s3 = a.ensure_user_dirs("/srv/root", "bob", 6).services.unwrap();
    assert!(!s3.start_outbox_watchers);
    assert!(s3.start_plugin_watchers);
    assert!(s3.load_plugins_from.is_none());
    assert_eq!(a.sessions.users, vec!["alice".to_string(), "bob".to_string()]);
}

#[test]
fn failed_directories_start_nothing() {
    let mut a = empty();
    assert!(a.ensure_user_dirs("/srv/root", "carol", 0).services.is_none());
    assert!(a.ensure_user_dirs("/srv/root", "carol", 3).services.is_none());
    assert!(!a.sessions.outbox_started);
    let s = a.ensure_user_dirs("/srv/root", "carol", 6).services.unwrap();
    assert!(s.start_outbox_watchers);
    assert!(s.start_plugin_watchers);
    assert!(s.load_plugins_from.is_some());
}
