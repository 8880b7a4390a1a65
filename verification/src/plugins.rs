//! Plugins: which libraries are plugins and under what name, where a plugin
//! library is installed, and which dropped files are handed to which plugin.

use vstd::prelude::*;
use vstd::string::StringExecFns;
use crate::path::{Comp, FsPath, spec_join, spec_components, spec_extension, spec_file_stem, spec_file_name, spec_name_extension, is_plain_name, lemma_join_plain};
use crate::text::str_eq;
use crate::layout::{spec_plugin_input, spec_plugin_output, plugin_input_dir, plugin_output_dir, plugins_dir};
use crate::watch::{EventFlags, WatchTable, is_arrival};
use crate::text::opt_str_view;

verus! {

pub open spec fn so_ext() -> Seq<char> {
    seq!['s', 'o']
}

/// The name under which the library at `p` is loaded as a plugin: its stem,
/// if its extension is `so`.
pub open spec fn spec_plugin_name(p: Seq<Comp>) -> Option<Seq<char>> {
    if spec_extension(p) == Some(so_ext()) {
        spec_file_stem(p)
    } else {
        None
    }
}

/// The name under which the library at `path` is loaded as a plugin, if it is one.
pub fn plugin_name(path: &FsPath) -> (r: Option<String>)
    ensures
        match r {
            Some(n) => spec_plugin_name(path@) == Some(n@),
            None => spec_plugin_name(path@) is None,
        },
{
    proof {
        reveal_strlit("so");
        assert("so"@ =~= so_ext());
    }
    match path.extension() {
        Some(e) => {
            if str_eq(e.as_str(), "so") {
                path.file_stem()
            } else {
                None
            }
        },
        None => None,
    }
}

/// Where the library at `src` is installed under the root `root`: in
/// `plugins/` under its own file name, if its extension is `so`.
pub open spec fn spec_install_target(root: Seq<char>, src: Seq<Comp>) -> Option<Seq<Comp>> {
    if spec_extension(src) == Some(so_ext()) {
        Some(spec_join(spec_join(spec_components(root), "plugins"@), spec_file_name(src)->Some_0))
    } else {
        None
    }
}

/// Where the library at `src` is copied to be installed, if it is a shared library.
pub fn load_plugin(root: &str, src: &FsPath) -> (r: Option<FsPath>)
    ensures
        match r {
            Some(p) => spec_install_target(root@, src@) == Some(p@),
            None => spec_install_target(root@, src@) is None,
        },
{
    proof {
        reveal_strlit("so");
        assert("so"@ =~= so_ext());
    }
    match src.extension() {
        Some(e) => {
            if str_eq(e.as_str(), "so") {
                match src.file_name() {
                    Some(n) => Some(plugins_dir(root).join(n.as_str())),
                    None => None,
                }
            } else {
                None
            }
        },
        None => None,
    }
}

/// Any path whose file name has the extension `so` (a bare file name, a
/// relative or an absolute path alike) is installed in `plugins/` under the
/// root, under that file name; a path whose file name has another extension,
/// or none, or that has no file name, is not installed.
pub proof fn law_shared_libraries_install_by_file_name(root: Seq<char>, src: Seq<Comp>)
    ensures
        spec_file_name(src) is Some && spec_name_extension(spec_file_name(src)->Some_0) == Some(
            seq!['s', 'o'],
        ) ==> spec_install_target(root, src) == Some(
            spec_join(
                spec_join(spec_components(root), seq!['p', 'l', 'u', 'g', 'i', 'n', 's']),
                spec_file_name(src)->Some_0,
            ),
        ),
        !(spec_file_name(src) is Some && spec_name_extension(spec_file_name(src)->Some_0) == Some(
            seq!['s', 'o'],
        )) ==> spec_install_target(root, src) is None,
{
    assert("plugins"@ =~= seq!['p', 'l', 'u', 'g', 'i', 'n', 's']) by {
        reveal_strlit("plugins");
    }
}

/// A loaded plugin: its name and the extensions it handles.
#[derive(Debug)]
pub struct PluginInfo {
    pub name: String,
    pub exts: Vec<String>,
}

pub struct PluginModel {
    pub name: Seq<char>,
    pub exts: Seq<Seq<char>>,
}

impl View for PluginInfo {
    type V = PluginModel;

    open spec fn view(&self) -> PluginModel {
        PluginModel { name: self.name@, exts: Seq::new(self.exts@.len(), |i: int| self.exts@[i]@) }
    }
}

/// The watcher of one user's plugin input directories.
#[derive(Debug)]
pub struct PluginWatcher {
    pub ftpd_root: FsPath,
    pub user: String,
    pub plugins: Vec<PluginInfo>,
    /// Each watched input directory: its user and plugin.
    pub watches: WatchTable<(String, String)>,
}

/// The directories of one plugin for one user.
#[derive(Debug)]
pub struct PluginDirs {
    pub plugin: String,
    pub input: FsPath,
    pub output: FsPath,
}

/// What the watcher does about an event.
#[derive(Debug)]
pub enum PluginAction {
    Ignore,
    /// Hand the file `input` to the plugin at this position, with the output
    /// directory `output`.
    Dispatch { plugin: usize, input: FsPath, output: FsPath },
}

pub enum PluginMove {
    Ignore,
    Dispatch(int, Seq<Comp>, Seq<Comp>),
}

impl View for PluginAction {
    type V = PluginMove;

    open spec fn view(&self) -> PluginMove {
        match self {
            PluginAction::Ignore => PluginMove::Ignore,
            PluginAction::Dispatch { plugin, input, output } => PluginMove::Dispatch(
                *plugin as int,
                input@,
                output@,
            ),
        }
    }
}

pub open spec fn plugins_view(v: Seq<PluginInfo>) -> Seq<PluginModel> {
    Seq::new(v.len(), |i: int| v[i]@)
}

/// `i` is the first plugin named `name`.
pub open spec fn is_first_plugin(plugins: Seq<PluginModel>, name: Seq<char>, i: int) -> bool {
    &&& 0 <= i < plugins.len()
    &&& plugins[i].name == name
    &&& forall|j: int| 0 <= j < i ==> #[trigger] plugins[j].name != name
}

pub open spec fn has_plugin(plugins: Seq<PluginModel>, name: Seq<char>) -> bool {
    exists|i: int| 0 <= i < plugins.len() && #[trigger] plugins[i].name == name
}

/// What the watcher does about an event from an input directory watched for
/// `watched` (user and plugin) with flags `f` about the file `name`: an arrival
/// of a file whose extension the first plugin of that name handles is handed
/// to that plugin; anything else is left alone.
pub open spec fn spec_plugin_event(
    ftpd: Seq<Comp>,
    plugins: Seq<PluginModel>,
    watched: Option<(Seq<char>, Seq<char>)>,
    f: EventFlags,
    name: Option<Seq<char>>,
) -> PluginMove {
    if !is_arrival(f) {
        PluginMove::Ignore
    } else {
        match (name, watched) {
            (Some(n), Some((user, plugin))) => {
                let input = spec_join(spec_plugin_input(ftpd, user, plugin), n);
                let output = spec_plugin_output(ftpd, user, plugin);
                if has_plugin(plugins, plugin) {
                    let i = choose|i: int| is_first_plugin(plugins, plugin, i);
                    match spec_extension(input) {
                        Some(e) => if plugins[i].exts.contains(e) {
                            PluginMove::Dispatch(i, input, output)
                        } else {
                            PluginMove::Ignore
                        },
                        None => PluginMove::Ignore,
                    }
                } else {
                    PluginMove::Ignore
                }
            },
            _ => PluginMove::Ignore,
        }
    }
}

proof fn lemma_first_plugin(plugins: Seq<PluginModel>, name: Seq<char>, i: int)
    requires
        is_first_plugin(plugins, name, i),
    ensures
        has_plugin(plugins, name),
        (choose|k: int| is_first_plugin(plugins, name, k)) == i,
{
    let k = choose|k: int| is_first_plugin(plugins, name, k);
    assert(is_first_plugin(plugins, name, k));
    if k < i {
        assert(plugins[k].name != name);
    }
    if i < k {
        assert(plugins[i].name != name);
    }
}

fn contains_text(v: &Vec<String>, s: &str) -> (r: bool)
    ensures
        r == Seq::new(v@.len(), |i: int| v@[i]@).contains(s@),
{
    let ghost m = Seq::new(v@.len(), |i: int| v@[i]@);
    let mut i: usize = 0;
    while i < v.len()
        invariant
            i <= v@.len(),
            m == Seq::new(v@.len(), |i: int| v@[i]@),
            forall|j: int| 0 <= j < i ==> m[j] != s@,
        decreases v@.len() - i,
    {
        if str_eq(v[i].as_str(), s) {
            assert(m[i as int] == s@);
            return true;
        }
        i = i + 1;
    }
    false
}

impl PluginWatcher {
    /// The watcher of `user`'s input directories for `plugins`, watching nothing yet.
    pub fn new(ftpd_root: FsPath, user: String, plugins: Vec<PluginInfo>) -> (w: PluginWatcher)
        ensures
            w.ftpd_root == ftpd_root,
            w.user == user,
            w.plugins == plugins,
            forall|wd: i32| #[trigger] w.watches.lookup(wd) is None,
    {
        PluginWatcher { ftpd_root, user, plugins, watches: WatchTable::new() }
    }

    /// The input and output directories of each plugin, in the order of the plugins.
    pub fn plugin_dirs(&self) -> (v: Vec<PluginDirs>)
        ensures
            v@.len() == self.plugins@.len(),
            forall|i: int|
                0 <= i < v@.len() ==> {
                    &&& #[trigger] v@[i].plugin@ == self.plugins@[i].name@
                    &&& v@[i].input@ == spec_plugin_input(
                        self.ftpd_root@,
                        self.user@,
                        self.plugins@[i].name@,
                    )
                    &&& v@[i].output@ == spec_plugin_output(
                        self.ftpd_root@,
                        self.user@,
                        self.plugins@[i].name@,
                    )
                },
    {
        let mut v: Vec<PluginDirs> = Vec::new();
        let mut i: usize = 0;
        while i < self.plugins.len()
            invariant
                i <= self.plugins@.len(),
                v@.len() == i,
                forall|k: int|
                    0 <= k < i ==> {
                        &&& #[trigger] v@[k].plugin@ == self.plugins@[k].name@
                        &&& v@[k].input@ == spec_plugin_input(
                            self.ftpd_root@,
                            self.user@,
                            self.plugins@[k].name@,
                        )
                        &&& v@[k].output@ == spec_plugin_output(
                            self.ftpd_root@,
                            self.user@,
                            self.plugins@[k].name@,
                        )
                    },
            decreases self.plugins@.len() - i,
        {
            let name = self.plugins[i].name.as_str();
            v.push(
                PluginDirs {
                    plugin: String::from_str(name),
                    input: plugin_input_dir(&self.ftpd_root, self.user.as_str(), name),
                    output: plugin_output_dir(&self.ftpd_root, self.user.as_str(), name),
                },
            );
            i = i + 1;
        }
        v
    }

    /// Notes that `wd` watches the input directory of `plugin` for this user.
    pub fn record_watch(&mut self, wd: i32, plugin: &str)
        ensures
            final(self).watches.lookup(wd) matches Some((u, p)) && u@ == old(self).user@ && p@
                == plugin@,
            forall|k: i32| k != wd ==> #[trigger] final(self).watches.lookup(k) == old(self).watches.lookup(k),
            final(self).ftpd_root == old(self).ftpd_root,
            final(self).user == old(self).user,
            final(self).plugins == old(self).plugins,
    {
        let u = self.user.clone();
        self.watches.insert(wd, (u, String::from_str(plugin)));
    }

    pub open spec fn watched(&self, wd: i32) -> Option<(Seq<char>, Seq<char>)> {
        match self.watches.lookup(wd) {
            Some((u, p)) => Some((u@, p@)),
            None => None,
        }
    }

    /// What to do about an event from `wd` with flags `flags` about the file `name`.
    pub fn on_event(&self, wd: i32, flags: EventFlags, name: Option<&str>) -> (r: PluginAction)
        ensures
            r@ == spec_plugin_event(
                self.ftpd_root@,
                plugins_view(self.plugins@),
                self.watched(wd),
                flags,
                opt_str_view(name),
            ),
            r matches PluginAction::Dispatch { plugin, .. } ==> plugin < self.plugins@.len(),
    {
        if !(flags.create || flags.moved_to || flags.close_write) {
            return PluginAction::Ignore;
        }
        let n = match name {
            Some(n) => n,
            None => {
                return PluginAction::Ignore;
            },
        };
        let (user, plugin) = match self.watches.get(wd) {
            Some(w) => (w.0.as_str(), w.1.as_str()),
            None => {
                return PluginAction::Ignore;
            },
        };
        let input = plugin_input_dir(&self.ftpd_root, user, plugin).join(n);
        let output = plugin_output_dir(&self.ftpd_root, user, plugin);
        let ghost pv = plugins_view(self.plugins@);
        let mut i: usize = 0;
        while i < self.plugins.len()
            invariant_except_break
                forall|j: int| 0 <= j < i ==> #[trigger] pv[j].name != plugin@,
            invariant
                i <= self.plugins@.len(),
                pv == plugins_view(self.plugins@),
            ensures
                i < self.plugins@.len() ==> is_first_plugin(pv, plugin@, i as int),
                i == self.plugins@.len() ==> !has_plugin(pv, plugin@),
            decreases self.plugins@.len() - i,
        {
            if str_eq(self.plugins[i].name.as_str(), plugin) {
                break;
            }
            i = i + 1;
        }
        if i == self.plugins.len() {
            return PluginAction::Ignore;
        }
        proof {
            lemma_first_plugin(pv, plugin@, i as int);
        }
        match input.extension() {
            Some(e) => {
                if contains_text(&self.plugins[i].exts, e.as_str()) {
                    PluginAction::Dispatch { plugin: i, input, output }
                } else {
                    PluginAction::Ignore
                }
            },
            None => PluginAction::Ignore,
        }
    }
}

/// A plugin is handed only files of the plugin's own input directory whose
/// extension it handles, and is told to write into its own output directory.
pub proof fn law_plugin_gets_only_its_files(
    ftpd: Seq<Comp>,
    plugins: Seq<PluginModel>,
    watched: Option<(Seq<char>, Seq<char>)>,
    f: EventFlags,
    name: Option<Seq<char>>,
)
    ensures
        spec_plugin_event(ftpd, plugins, watched, f, name) matches PluginMove::Dispatch(i, input, output)
            ==> {
            &&& 0 <= i < plugins.len()
            &&& watched matches Some((user, plugin))
            &&& plugins[i].name == plugin
            &&& name matches Some(n)
            &&& input == spec_join(spec_plugin_input(ftpd, user, plugin), n)
            &&& output == spec_plugin_output(ftpd, user, plugin)
            &&& spec_extension(input) matches Some(e)
            &&& plugins[i].exts.contains(e)
        },
{
    if let PluginMove::Dispatch(i, input, output) = spec_plugin_event(ftpd, plugins, watched, f, name) {
        let plugin = watched->Some_0.1;
        let k = choose|k: int| is_first_plugin(plugins, plugin, k);
        assert(is_first_plugin(plugins, plugin, k)) by {
            let w = choose|w: int| 0 <= w < plugins.len() && #[trigger] plugins[w].name == plugin;
            lemma_has_first_plugin(plugins, plugin, w);
        }
    }
}

proof fn lemma_has_first_plugin(plugins: Seq<PluginModel>, name: Seq<char>, w: int)
    requires
        0 <= w < plugins.len(),
        plugins[w].name == name,
    ensures
        is_first_plugin(plugins, name, choose|k: int| is_first_plugin(plugins, name, k)),
    decreases w,
{
    if forall|j: int| 0 <= j < w ==> #[trigger] plugins[j].name != name {
        assert(is_first_plugin(plugins, name, w));
    } else {
        let j = choose|j: int| 0 <= j < w && #[trigger] plugins[j].name == name;
        lemma_has_first_plugin(plugins, name, j);
    }
}

/// A file with a plain name dropped into a user's input directory of a plugin
/// is handed to the first plugin of that name exactly when the plugin handles
/// the file name's extension.
pub proof fn law_dropped_file_dispatch(
    ftpd: Seq<Comp>,
    plugins: Seq<PluginModel>,
    user: Seq<char>,
    i: int,
    file: Seq<char>,
    f: EventFlags,
)
    requires
        ftpd.len() > 0,
        is_first_plugin(plugins, plugins[i].name, i),
        is_plain_name(file),
        is_arrival(f),
    ensures
        ({
            let plugin = plugins[i].name;
            let input = spec_join(spec_plugin_input(ftpd, user, plugin), file);
            let output = spec_plugin_output(ftpd, user, plugin);
            spec_plugin_event(ftpd, plugins, Some((user, plugin)), f, Some(file)) == (
            if spec_name_extension(file) matches Some(e) && plugins[i].exts.contains(e) {
                PluginMove::Dispatch(i, input, output)
            } else {
                PluginMove::Ignore
            })
        }),
{
    let plugin = plugins[i].name;
    lemma_first_plugin(plugins, plugin, i);
    let dir = spec_plugin_input(ftpd, user, plugin);
    assert(dir.len() > 0) by {
        lemma_join_nonempty(ftpd, user);
        lemma_join_nonempty(spec_join(ftpd, user), plugin);
        lemma_join_nonempty(spec_join(spec_join(ftpd, user), plugin), "input"@);
    }
    lemma_join_plain(dir, file);
    let input = spec_join(dir, file);
    assert(spec_file_name(input) == Some(file));
}

/// Joining anything to a non-empty path gives a non-empty path, unless what is
/// joined is itself rooted, which gives a rooted (so non-empty) path too.
proof fn lemma_join_nonempty(base: Seq<Comp>, s: Seq<char>)
    requires
        base.len() > 0,
    ensures
        spec_join(base, s).len() > 0,
{
    if crate::path::is_rooted(s) {
        assert(spec_components(s)[0] == Comp::Root);
    } else {
        assert(spec_join(base, s)[0] == base[0]);
    }
}

} // verus!
