use rootftp::outbox::{route, OutboxAction, OutboxWatcher};
use rootftp::path::FsPath;
use rootftp::watch::EventFlags;

fn flags(create: bool, moved_to: bool, close_write: bool, is_dir: bool) -> EventFlags {
    EventFlags { create, moved_to, close_write, is_dir }
}

#[test]
fn share_directory_delivers_to_inbox() {
    let ftpd = FsPath::parse("/srv/ftpd");
    let mut w = OutboxWatcher::for_user(&ftpd, "alice");
    assert_eq!(w.outbox.to_text(), "/srv/ftpd/alice/outbox");
    w.record_watch(1, w.outbox.duplicate());
    let share = w.outbox.join("share.bob");
    w.record_watch(2, share);
    match w.on_event(2, flags(false, false, true, false), Some("notes.txt")) {
        OutboxAction::Deliver { src, dest_dir, dest } => {
            assert_eq!(src.to_text(), "/srv/ftpd/alice/outbox/share.bob/notes.txt");
            assert_eq!(dest_dir.to_text(), "/srv/ftpd/bob/inbox/alice");
            assert_eq!(dest.to_text(), "/srv/ftpd/bob/inbox/alice/notes.txt");
        }
        other => panic!("{:?}", other),
    }
}

#[test]
fn other_events() {
    let ftpd = FsPath::parse("/srv/ftpd");
    let mut w = OutboxWatcher::for_user(&ftpd, "alice");
    w.record_watch(1, w.outbox.duplicate());
    // a file in the outbox itself goes nowhere
    assert!(matches!(w.on_event(1, flags(false, true, false, false), Some("a")), OutboxAction::Ignore));
    // a new directory is watched as a subdirectory of the outbox
    match w.on_event(1, flags(true, false, false, true), Some("share.carol")) {
        OutboxAction::WatchSubdir(p) => assert_eq!(p.to_text(), "/srv/ftpd/alice/outbox/share.carol"),
        other => panic!("{:?}", other),
    }
    // unknown descriptor
    assert!(matches!(w.on_event(9, flags(true, false, false, false), Some("a")), OutboxAction::UnknownWatch(9)));
    // nothing that arrives
    assert!(matches!(w.on_event(1, flags(false, false, false, false), Some("a")), OutboxAction::Ignore));
    // a subdirectory not named share.*
    w.record_watch(3, w.outbox.join("drafts"));
    assert!(matches!(w.on_event(3, flags(false, false, true, false), Some("a")), OutboxAction::Ignore));
    // a later watch of the same descriptor replaces the earlier
    w.record_watch(3, w.outbox.join("share.dave"));
    assert!(matches!(w.on_event(3, flags(false, false, true, false), Some("a")), OutboxAction::Deliver { .. }));
}

#[test]
fn route_outside_user_dir_is_ignored() {
    let ftpd = FsPath::parse("/srv/ftpd");
    let watched = FsPath::parse("/elsewhere/outbox/share.bob");
    assert!(matches!(route(&ftpd, "alice", &watched, "f"), OutboxAction::Ignore));
}
