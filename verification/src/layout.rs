//! Where the server keeps things: under the root directory, `ftpd/` holds one
//! directory per user, `plugins/` the plugin libraries and `credentials.json`
//! the accounts; each user has `uploads/`, `home/`, `inbox/`, `outbox/` and
//! `private/`, and per plugin `<plugin>/input/` and `<plugin>/output/`.

use vstd::prelude::*;
use crate::path::{Comp, FsPath, spec_join, spec_components};

verus! {

pub open spec fn paths_view(v: Seq<FsPath>) -> Seq<Seq<Comp>> {
    Seq::new(v.len(), |i: int| v[i]@)
}

pub open spec fn spec_ftpd_dir(root: Seq<char>) -> Seq<Comp> {
    spec_join(spec_components(root), "ftpd"@)
}

pub open spec fn spec_user_dir(root: Seq<char>, user: Seq<char>) -> Seq<Comp> {
    spec_join(spec_ftpd_dir(root), user)
}

/// The directories that a signed-in user gets, in the order they are made.
pub open spec fn spec_user_dirs(root: Seq<char>, user: Seq<char>) -> Seq<Seq<Comp>> {
    let u = spec_user_dir(root, user);
    seq![
        u,
        spec_join(u, "uploads"@),
        spec_join(u, "home"@),
        spec_join(u, "inbox"@),
        spec_join(u, "outbox"@),
        spec_join(u, "private"@),
    ]
}

pub open spec fn spec_plugin_dir(ftpd: Seq<Comp>, user: Seq<char>, plugin: Seq<char>) -> Seq<Comp> {
    spec_join(spec_join(ftpd, user), plugin)
}

/// Where files for `plugin` are dropped by `user`.
pub open spec fn spec_plugin_input(ftpd: Seq<Comp>, user: Seq<char>, plugin: Seq<char>) -> Seq<
    Comp,
> {
    spec_join(spec_plugin_dir(ftpd, user, plugin), "input"@)
}

/// Where `plugin` writes what it makes for `user`.
pub open spec fn spec_plugin_output(ftpd: Seq<Comp>, user: Seq<char>, plugin: Seq<char>) -> Seq<
    Comp,
> {
    spec_join(spec_plugin_dir(ftpd, user, plugin), "output"@)
}

/// The `ftpd` directory under the root.
pub fn ftpd_dir(root: &str) -> (p: FsPath)
    ensures
        p@ == spec_ftpd_dir(root@),
{
    FsPath::parse(root).join("ftpd")
}

/// The directory of `user`.
pub fn user_dir(root: &str, user: &str) -> (p: FsPath)
    ensures
        p@ == spec_user_dir(root@, user@),
{
    ftpd_dir(root).join(user)
}

/// The directories that a signed-in user gets, in the order they are made.
pub fn user_dirs(root: &str, user: &str) -> (v: Vec<FsPath>)
    ensures
        paths_view(v@) == spec_user_dirs(root@, user@),
{
    let u = user_dir(root, user);
    let a = u.join("uploads");
    let b = u.join("home");
    let c = u.join("inbox");
    let d = u.join("outbox");
    let e = u.join("private");
    let mut v: Vec<FsPath> = Vec::new();
    v.push(u);
    v.push(a);
    v.push(b);
    v.push(c);
    v.push(d);
    v.push(e);
    assert(paths_view(v@) =~= spec_user_dirs(root@, user@));
    v
}

/// The directory of `plugin`'s files for `user`.
pub fn plugin_dir(ftpd: &FsPath, user: &str, plugin: &str) -> (p: FsPath)
    ensures
        p@ == spec_plugin_dir(ftpd@, user@, plugin@),
{
    ftpd.join(user).join(plugin)
}

/// Where files for `plugin` are dropped by `user`.
pub fn plugin_input_dir(ftpd: &FsPath, user: &str, plugin: &str) -> (p: FsPath)
    ensures
        p@ == spec_plugin_input(ftpd@, user@, plugin@),
{
    plugin_dir(ftpd, user, plugin).join("input")
}

/// Where `plugin` writes what it makes for `user`.
pub fn plugin_output_dir(ftpd: &FsPath, user: &str, plugin: &str) -> (p: FsPath)
    ensures
        p@ == spec_plugin_output(ftpd@, user@, plugin@),
{
    plugin_dir(ftpd, user, plugin).join("output")
}

/// The directory of installed plugin libraries.
pub fn plugins_dir(root: &str) -> (p: FsPath)
    ensures
        p@ == spec_join(spec_components(root@), "plugins"@),
{
    FsPath::parse(root).join("plugins")
}

/// The file that stores the accounts.
pub fn credentials_path(root: &str) -> (p: FsPath)
    ensures
        p@ == spec_join(spec_components(root@), "credentials.json"@),
{
    FsPath::parse(root).join("credentials.json")
}

/// What starting the server makes under the root: the root, `ftpd`, the
/// accounts file (where it is missing) and `plugins`, in that order.
#[derive(Debug)]
pub struct ServerLayout {
    pub root: FsPath,
    pub ftpd: FsPath,
    pub credentials: FsPath,
    pub plugins: FsPath,
}

/// The layout that starting the server makes under `root`.
pub fn init(root: &str) -> (l: ServerLayout)
    ensures
        l.root@ == spec_components(root@),
        l.ftpd@ == spec_ftpd_dir(root@),
        l.credentials@ == spec_join(spec_components(root@), "credentials.json"@),
        l.plugins@ == spec_join(spec_components(root@), "plugins"@),
{
    ServerLayout {
        root: FsPath::parse(root),
        ftpd: ftpd_dir(root),
        credentials: credentials_path(root),
        plugins: plugins_dir(root),
    }
}

/// The directory shared by all users.
pub fn shared_dir(root: &str) -> (p: FsPath)
    ensures
        p@ == spec_join(spec_ftpd_dir(root@), "shared"@),
{
    ftpd_dir(root).join("shared")
}

} // verus!
