//! Moving files between users: a file that a user puts into
//! `outbox/share.<other>/` is moved into `<other>/inbox/<user>/` under the same name.
//! Each user's outbox is watched; the watcher decides, event by event, what to
//! watch next and what to move where.

use vstd::prelude::*;
use crate::path::{Comp, FsPath, spec_join, spec_strip_prefix, comp_text, is_plain_name, lemma_join_plain};
use crate::text::{strip_prefix, spec_starts_with};
use crate::watch::{EventFlags, WatchTable, is_arrival};
use vstd::string::StringExecFns;
use crate::text::opt_str_view;

verus! {

/// The watcher of one user's outbox.
#[derive(Debug)]
pub struct OutboxWatcher {
    /// The directory that holds the users' directories.
    pub ftpd_root: FsPath,
    /// The user whose outbox this is.
    pub username: String,
    /// The outbox directory.
    pub outbox: FsPath,
    /// The watched directories: the outbox and its subdirectories.
    pub watches: WatchTable<FsPath>,
}

/// What the watcher does about an event.
#[derive(Debug)]
pub enum OutboxAction {
    /// Nothing.
    Ignore,
    /// Watch this new subdirectory of the outbox (if it is a directory), and
    /// note its descriptor.
    WatchSubdir(FsPath),
    /// Report an event from a descriptor that is not known.
    UnknownWatch(i32),
    /// Move the file `src` to `dest`, in the directory `dest_dir`.
    Deliver { src: FsPath, dest_dir: FsPath, dest: FsPath },
}

/// The model of an action.
pub enum OutboxMove {
    Ignore,
    WatchSubdir(Seq<Comp>),
    UnknownWatch(i32),
    Deliver(Seq<Comp>, Seq<Comp>, Seq<Comp>),
}

impl View for OutboxAction {
    type V = OutboxMove;

    open spec fn view(&self) -> OutboxMove {
        match self {
            OutboxAction::Ignore => OutboxMove::Ignore,
            OutboxAction::WatchSubdir(p) => OutboxMove::WatchSubdir(p@),
            OutboxAction::UnknownWatch(wd) => OutboxMove::UnknownWatch(*wd),
            OutboxAction::Deliver { src, dest_dir, dest } => OutboxMove::Deliver(
                src@,
                dest_dir@,
                dest@,
            ),
        }
    }
}

pub open spec fn share_prefix() -> Seq<char> {
    seq!['s', 'h', 'a', 'r', 'e', '.']
}

/// Where a file named `file` that arrived in the watched directory `watched`
/// of `user` goes: if `watched` lies under `ftpd/user` and its second component
/// below that is `share.<target>`, to `ftpd/<target>/inbox/<user>/<file>`.
pub open spec fn spec_route(
    ftpd: Seq<Comp>,
    user: Seq<char>,
    watched: Seq<Comp>,
    file: Seq<char>,
) -> OutboxMove {
    match spec_strip_prefix(watched, spec_join(ftpd, user)) {
        None => OutboxMove::Ignore,
        Some(rel) => if rel.len() >= 2 && spec_starts_with(comp_text(rel[1]), share_prefix()) {
            let target = comp_text(rel[1]).skip(share_prefix().len() as int);
            let dir = spec_join(spec_join(spec_join(ftpd, target), "inbox"@), user);
            OutboxMove::Deliver(spec_join(watched, file), dir, spec_join(dir, file))
        } else {
            OutboxMove::Ignore
        },
    }
}

/// What the watcher does about an event from descriptor `wd` with flags `f`
/// about the entry `name`: a new directory is watched as a subdirectory of the
/// outbox; an arrival in a known directory is routed; an arrival from an
/// unknown descriptor is reported.
pub open spec fn spec_outbox_event(
    ftpd: Seq<Comp>,
    user: Seq<char>,
    outbox: Seq<Comp>,
    watched: Option<Seq<Comp>>,
    wd: i32,
    f: EventFlags,
    name: Option<Seq<char>>,
) -> OutboxMove {
    if f.create && f.is_dir {
        match name {
            Some(n) => OutboxMove::WatchSubdir(spec_join(outbox, n)),
            None => OutboxMove::Ignore,
        }
    } else if is_arrival(f) {
        match watched {
            None => OutboxMove::UnknownWatch(wd),
            Some(w) => match name {
                Some(n) => spec_route(ftpd, user, w, n),
                None => OutboxMove::Ignore,
            },
        }
    } else {
        OutboxMove::Ignore
    }
}

/// The move of a file `file` that arrived in `watched`.
pub fn route(ftpd: &FsPath, user: &str, watched: &FsPath, file: &str) -> (r: OutboxAction)
    ensures
        r@ == spec_route(ftpd@, user@, watched@, file@),
{
    let base = ftpd.join(user);
    match watched.strip_prefix(&base) {
        None => OutboxAction::Ignore,
        Some(rel) => {
            if rel.len() >= 2 {
                let part = rel.comps[1].text();
                proof {
                    reveal_strlit("share.");
                    assert("share."@ =~= share_prefix());
                }
                match strip_prefix(part.as_str(), "share.") {
                    Some(target) => {
                        let src = watched.join(file);
                        let dest_dir = ftpd.join(target.as_str()).join("inbox").join(user);
                        let dest = dest_dir.join(file);
                        OutboxAction::Deliver { src, dest_dir, dest }
                    },
                    None => OutboxAction::Ignore,
                }
            } else {
                OutboxAction::Ignore
            }
        },
    }
}

impl OutboxWatcher {
    /// The watcher of the outbox of `user`, under `ftpd_root`, watching nothing yet.
    pub fn for_user(ftpd_root: &FsPath, user: &str) -> (w: OutboxWatcher)
        ensures
            w.ftpd_root@ == ftpd_root@,
            w.username@ == user@,
            w.outbox@ == spec_join(spec_join(ftpd_root@, user@), "outbox"@),
            forall|wd: i32| #[trigger] w.watches.lookup(wd) is None,
    {
        OutboxWatcher {
            ftpd_root: ftpd_root.duplicate(),
            username: String::from_str(user),
            outbox: ftpd_root.join(user).join("outbox"),
            watches: WatchTable::new(),
        }
    }

    /// Notes that `wd` watches `dir`.
    pub fn record_watch(&mut self, wd: i32, dir: FsPath)
        ensures
            final(self).watches.lookup(wd) == Some(dir),
            forall|k: i32| k != wd ==> #[trigger] final(self).watches.lookup(k) == old(self).watches.lookup(k),
            final(self).ftpd_root == old(self).ftpd_root,
            final(self).username == old(self).username,
            final(self).outbox == old(self).outbox,
    {
        self.watches.insert(wd, dir);
    }

    pub open spec fn watched_dir(&self, wd: i32) -> Option<Seq<Comp>> {
        match self.watches.lookup(wd) {
            Some(p) => Some(p@),
            None => None,
        }
    }

    /// What to do about an event from `wd` with flags `flags` about the entry `name`.
    pub fn on_event(&self, wd: i32, flags: EventFlags, name: Option<&str>) -> (r: OutboxAction)
        ensures
            r@ == spec_outbox_event(
                self.ftpd_root@,
                self.username@,
                self.outbox@,
                self.watched_dir(wd),
                wd,
                flags,
                opt_str_view(name),
            ),
    {
        if flags.create && flags.is_dir {
            match name {
                Some(n) => OutboxAction::WatchSubdir(self.outbox.join(n)),
                None => OutboxAction::Ignore,
            }
        } else if flags.create || flags.moved_to || flags.close_write {
            match self.watches.get(wd) {
                None => OutboxAction::UnknownWatch(wd),
                Some(watched) => match name {
                    Some(n) => route(&self.ftpd_root, self.username.as_str(), watched, n),
                    None => OutboxAction::Ignore,
                },
            }
        } else {
            OutboxAction::Ignore
        }
    }
}

/// A directory `share.<to>` that a user makes in the outbox is watched, and a
/// file that the user puts into it is moved, under the same name, into the
/// directory named after the sender in the inbox of the user `to`.
pub proof fn law_share_delivers_to_inbox(
    ftpd: Seq<Comp>,
    from: Seq<char>,
    to: Seq<char>,
    file: Seq<char>,
    wd: i32,
    f: EventFlags,
)
    requires
        ftpd.len() > 0,
        is_plain_name(from),
        is_plain_name(to),
        is_arrival(f),
        !(f.create && f.is_dir),
    ensures
        ({
            let outbox = spec_join(spec_join(ftpd, from), "outbox"@);
            let share = spec_join(outbox, share_prefix() + to);
            let made_dir = (EventFlags { create: true, moved_to: false, close_write: false, is_dir: true });
            &&& forall|watched: Option<Seq<Comp>>, d: i32| #[trigger] spec_outbox_event(ftpd, from, outbox, watched, d, made_dir, Some(share_prefix() + to))
                == OutboxMove::WatchSubdir(share)
            &&& spec_outbox_event(ftpd, from, outbox, Some(share), wd, f, Some(file))
                == OutboxMove::Deliver(
                spec_join(share, file),
                spec_join(spec_join(spec_join(ftpd, to), "inbox"@), from),
                spec_join(spec_join(spec_join(spec_join(ftpd, to), "inbox"@), from), file),
            )
        }),
{
    reveal_strlit("outbox");
    let user_dir = spec_join(ftpd, from);
    lemma_join_plain(ftpd, from);
    assert(is_plain_name("outbox"@));
    lemma_join_plain(user_dir, "outbox"@);
    let outbox = spec_join(user_dir, "outbox"@);
    let dir_name = share_prefix() + to;
    assert(is_plain_name(dir_name)) by {
        assert forall|i: int| 0 <= i < dir_name.len() implies dir_name[i] != '/' by {
            if i >= 6 {
                assert(dir_name[i] == to[i - 6]);
            }
        }
    }
    lemma_join_plain(outbox, dir_name);
    let share = spec_join(outbox, dir_name);
    assert(share =~= user_dir + seq![Comp::Normal("outbox"@), Comp::Normal(dir_name)]);
    assert(share.subrange(0, user_dir.len() as int) =~= user_dir);
    let rel = share.skip(user_dir.len() as int);
    assert(rel =~= seq![Comp::Normal("outbox"@), Comp::Normal(dir_name)]);
    assert(spec_starts_with(dir_name, share_prefix())) by {
        assert(dir_name.take(6) =~= share_prefix());
    }
    assert(dir_name.skip(6) =~= to);
}

} // verus!
