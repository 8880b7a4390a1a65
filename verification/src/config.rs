//! The server's configuration: the root directory, kept in `config.json` in
//! the project's configuration directory, and read from there once.

use vstd::prelude::*;
use vstd::string::StringExecFns;
use crate::path::{spec_join_text, join_text};
use crate::text::{opt_text_view, spec_ends_with};

verus! {

/// The configuration.
#[derive(Debug)]
pub struct Config {
    pub root_dir: String,
}

impl Config {
    /// A copy of this configuration.
    pub fn duplicate(&self) -> (c: Config)
        ensures
            c.root_dir@ == self.root_dir@,
    {
        Config { root_dir: self.root_dir.clone() }
    }
}

/// The configuration once it has been read.
#[derive(Debug)]
pub struct ConfigCache {
    pub cached: Option<Config>,
}

pub open spec fn cache_view(c: &ConfigCache) -> Option<Seq<char>> {
    match c.cached {
        Some(cfg) => Some(cfg.root_dir@),
        None => None,
    }
}

impl ConfigCache {
    /// Nothing read yet.
    pub fn new() -> (c: ConfigCache)
        ensures
            cache_view(&c) is None,
    {
        ConfigCache { cached: None }
    }

    /// Keeps `config` as the configuration read.
    pub fn remember(&mut self, config: &Config)
        ensures
            cache_view(final(self)) == Some(config.root_dir@),
    {
        self.cached = Some(config.duplicate());
    }
}

/// Where the configuration comes from.
#[derive(Debug)]
pub enum ConfigSource {
    /// It was read before.
    Cached(Config),
    /// From the file `file` in the directory `dir`, or `default` if that fails.
    Stored { dir: String, file: String, default: Config },
    /// There is no configuration directory: the default.
    Default(Config),
}

pub enum SourceModel {
    Cached(Seq<char>),
    Stored(Seq<char>, Seq<char>, Seq<char>),
    Default(Seq<char>),
}

pub open spec fn source_view(s: ConfigSource) -> SourceModel {
    match s {
        ConfigSource::Cached(c) => SourceModel::Cached(c.root_dir@),
        ConfigSource::Stored { dir, file, default } => SourceModel::Stored(
            dir@,
            file@,
            default.root_dir@,
        ),
        ConfigSource::Default(c) => SourceModel::Default(c.root_dir@),
    }
}

/// What reading the configuration file gave.
#[derive(Debug)]
pub enum StoredConfig {
    /// The file could not be read.
    Unreadable,
    /// The file held this configuration.
    Parsed(Config),
    /// The file was read but held no configuration.
    Unparsable,
}

/// What reading the configuration file gave, with the root directory as text.
pub enum StoredModel {
    Unreadable,
    Parsed(Seq<char>),
    Unparsable,
}

pub open spec fn stored_view(s: StoredConfig) -> StoredModel {
    match s {
        StoredConfig::Unreadable => StoredModel::Unreadable,
        StoredConfig::Parsed(c) => StoredModel::Parsed(c.root_dir@),
        StoredConfig::Unparsable => StoredModel::Unparsable,
    }
}

/// The root directory settled on: the file's where it held a configuration,
/// else the default.
pub open spec fn spec_resolve(default: Seq<char>, stored: StoredModel) -> Seq<char> {
    match stored {
        StoredModel::Parsed(r) => r,
        _ => default,
    }
}

/// The default root directory: `ftproot` in the home directory.
pub open spec fn default_root(home: Seq<char>) -> Seq<char> {
    spec_join_text(home, "ftproot"@)
}

/// Where the configuration comes from, given what was read before, the home
/// directory and the configuration directory; none where nothing was read
/// before and there is no home directory.
pub open spec fn spec_plan_load(
    cache: Option<Seq<char>>,
    home: Option<Seq<char>>,
    config_dir: Option<Seq<char>>,
) -> Option<SourceModel> {
    match cache {
        Some(c) => Some(SourceModel::Cached(c)),
        None => match home {
            None => None,
            Some(h) => match config_dir {
                Some(d) => Some(
                    SourceModel::Stored(d, spec_join_text(d, "config.json"@), default_root(h)),
                ),
                None => Some(SourceModel::Default(default_root(h))),
            },
        },
    }
}

/// The home directory.
/// Calls `home::home_dir` and gives its result as text; the home directory
/// comes from the environment, so nothing is claimed of it.
#[verifier::external_body]
fn home_dir_text() -> (r: Option<String>) {
    match home::home_dir() {
        Some(p) => Some(p.to_string_lossy().into_owned()),
        None => None,
    }
}

/// A name of lowercase ASCII letters only, which `ProjectDirs::from` keeps as it is.
pub open spec fn is_lowercase_name(a: Seq<char>) -> bool {
    a.len() > 0 && forall|i: int| 0 <= i < a.len() ==> 97 <= (#[trigger] a[i] as u32) <= 122
}

/// Calls `directories::ProjectDirs::from` and then `ProjectDirs::config_dir`,
/// and gives the directory as text. Whether there is one depends on the
/// environment. Where there is, it ends in `/` and the application's name.
/// That is the rule of the crate's Linux code, the only platform this server
/// runs on (its watchers use inotify): `from` trims and lowercases the name
/// into the project path (which leaves a lowercase name as it is), and
/// `config_dir` is that path joined to `$XDG_CONFIG_HOME` or `$HOME/.config`.
/// On macOS the crate names the directory by a bundle identifier instead, and
/// the claim would not hold there. What precedes the name is not stated.
#[verifier::external_body]
fn project_config_dir(qualifier: &str, organization: &str, application: &str) -> (r: Option<String>)
    requires
        is_lowercase_name(application@),
    ensures
        r matches Some(d) ==> spec_ends_with(d@, seq!['/'] + application@),
{
    match directories::ProjectDirs::from(qualifier, organization, application) {
        Some(d) => Some(d.config_dir().to_string_lossy().into_owned()),
        None => None,
    }
}

pub open spec fn app_dir_suffix() -> Seq<char> {
    seq!['/', 'r', 'o', 'o', 't', 'f', 't', 'p']
}

/// The configuration directory of the `rootftp` project, if there is one:
/// a directory named `rootftp`.
pub fn config_dir() -> (r: Option<String>)
    ensures
        r matches Some(d) ==> spec_ends_with(d@, app_dir_suffix()),
{
    proof {
        reveal_strlit("rootftp");
        assert(seq!['/'] + "rootftp"@ =~= app_dir_suffix());
    }
    project_config_dir("net", "runner", "rootftp")
}

impl Config {
    /// Where the configuration comes from, given what was read before, the
    /// home directory and the configuration directory.
    pub fn plan_load(cache: &ConfigCache, home: Option<String>, config_dir: Option<String>) -> (r:
        Option<ConfigSource>)
        ensures
            match r {
                Some(s) => spec_plan_load(cache_view(cache), opt_text_view(home), opt_text_view(config_dir)) == Some(source_view(s)),
                None => spec_plan_load(cache_view(cache), opt_text_view(home), opt_text_view(config_dir)) is None,
            },
    {
        match &cache.cached {
            Some(c) => Some(ConfigSource::Cached(c.duplicate())),
            None => match home {
                None => None,
                Some(h) => {
                    let default = Config { root_dir: join_text(h.as_str(), "ftproot") };
                    match config_dir {
                        Some(d) => {
                            let file = join_text(d.as_str(), "config.json");
                            Some(ConfigSource::Stored { dir: d, file, default })
                        },
                        None => Some(ConfigSource::Default(default)),
                    }
                },
            },
        }
    }

    /// Where the configuration comes from: what was read before, else the
    /// configuration file, else the default; none where nothing was read before
    /// and there is no home directory. The default, where it is the
    /// configuration, is remembered at once; one from the file is remembered by
    /// [`Config::finish_load`], once the file has been read.
    pub fn load(cache: &mut ConfigCache) -> (r: Option<ConfigSource>)
        ensures
            old(cache).cached matches Some(c) ==> r matches Some(ConfigSource::Cached(d))
                && d.root_dir@ == c.root_dir@,
            old(cache).cached is None ==> match r {
                Some(ConfigSource::Cached(_)) => false,
                Some(ConfigSource::Stored { dir, file, default }) => file@ == spec_join_text(
                    dir@,
                    "config.json"@,
                ) && spec_ends_with(dir@, app_dir_suffix()) && exists|h: Seq<char>|
                    default.root_dir@ == default_root(h),
                Some(ConfigSource::Default(default)) => exists|h: Seq<char>| default.root_dir@
                    == default_root(h),
                None => true,
            },
            r matches Some(s) ==> exists|h: Option<Seq<char>>, d: Option<Seq<char>>|
                #[trigger] spec_plan_load(cache_view(old(cache)), h, d) == Some(source_view(s)),
            match r {
                Some(ConfigSource::Default(c)) => cache_view(final(cache)) == Some(c.root_dir@),
                _ => cache_view(final(cache)) == cache_view(old(cache)),
            },
    {
        match &cache.cached {
            Some(c) => Some(ConfigSource::Cached(c.duplicate())),
            None => {
                let home = home_dir_text();
                let dir = config_dir();
                let ghost hv = opt_text_view(home);
                let ghost dv = opt_text_view(dir);
                let r = Config::plan_load(cache, home, dir);
                proof {
                    if r is Some {
                        assert(spec_plan_load(cache_view(cache), hv, dv) == Some(source_view(r->0)));
                    }
                }
                if let Some(ConfigSource::Default(c)) = &r {
                    cache.remember(c);
                }
                r
            },
        }
    }

    /// The configuration that loading settles on, given the default and what
    /// reading the file gave, and whether the default is to be written to the
    /// file (only where the file could not be read).
    pub fn resolve(default: Config, stored: StoredConfig) -> (r: (Config, bool))
        ensures
            r.0.root_dir@ == spec_resolve(default.root_dir@, stored_view(stored)),
            r.1 == (stored is Unreadable),
    {
        match stored {
            StoredConfig::Parsed(c) => (c, false),
            StoredConfig::Unparsable => (default, false),
            StoredConfig::Unreadable => (default, true),
        }
    }

    /// Ends a load from the configuration file: the configuration settled on,
    /// as [`Config::resolve`] gives it, is the one read from now on.
    pub fn finish_load(cache: &mut ConfigCache, default: Config, stored: StoredConfig) -> (r: (
        Config,
        bool,
    ))
        ensures
            r.0.root_dir@ == spec_resolve(default.root_dir@, stored_view(stored)),
            r.1 == (stored is Unreadable),
            cache_view(final(cache)) == Some(r.0.root_dir@),
    {
        let r = Config::resolve(default, stored);
        cache.remember(&r.0);
        r
    }

    /// Saving, given the configuration directory: the directory and the file to
    /// write this configuration to (none without a directory); the
    /// configuration read from now on is this one.
    pub fn save_with(&self, cache: &mut ConfigCache, config_dir: Option<String>) -> (r: Option<
        (String, String),
    >)
        ensures
            cache_view(final(cache)) == Some(self.root_dir@),
            match r {
                Some((d, f)) => config_dir matches Some(c) && d@ == c@ && f@ == spec_join_text(
                    c@,
                    "config.json"@,
                ),
                None => config_dir is None,
            },
    {
        cache.remember(self);
        match config_dir {
            Some(d) => {
                let f = join_text(d.as_str(), "config.json");
                Some((d, f))
            },
            None => None,
        }
    }

    /// Saving: the directory and the file to write this configuration to, if
    /// there is a configuration directory; the configuration read from now on
    /// is this one.
    pub fn save(&self, cache: &mut ConfigCache) -> (r: Option<(String, String)>)
        ensures
            cache_view(final(cache)) == Some(self.root_dir@),
            r matches Some((d, f)) ==> f@ == spec_join_text(d@, "config.json"@) && spec_ends_with(
                d@,
                app_dir_suffix(),
            ),
    {
        let dir = config_dir();
        self.save_with(cache, dir)
    }
}

/// The root directory that a load gives, from what was read before, the home
/// and configuration directories, and what reading the configuration file
/// gives (looked at only where the plan is to read it); none where nothing was
/// read before and there is no home directory. Whatever it gives is what is
/// read from then on.
pub open spec fn spec_load(
    cache: Option<Seq<char>>,
    home: Option<Seq<char>>,
    config_dir: Option<Seq<char>>,
    stored: StoredModel,
) -> Option<Seq<char>> {
    match spec_plan_load(cache, home, config_dir) {
        Some(SourceModel::Cached(c)) => Some(c),
        Some(SourceModel::Stored(_, _, d)) => Some(spec_resolve(d, stored)),
        Some(SourceModel::Default(d)) => Some(d),
        None => None,
    }
}

/// Two loads with no save between them give the same root directory, even
/// where the home directory, the configuration directory or the file has
/// changed in between: the second takes what the first settled on.
pub proof fn law_loads_agree(
    cache: Option<Seq<char>>,
    home1: Option<Seq<char>>,
    config_dir1: Option<Seq<char>>,
    stored1: StoredModel,
    home2: Option<Seq<char>>,
    config_dir2: Option<Seq<char>>,
    stored2: StoredModel,
)
    requires
        spec_load(cache, home1, config_dir1, stored1) is Some,
    ensures
        spec_load(spec_load(cache, home1, config_dir1, stored1), home2, config_dir2, stored2)
            == spec_load(cache, home1, config_dir1, stored1),
        spec_plan_load(spec_load(cache, home1, config_dir1, stored1), home2, config_dir2)
            matches Some(SourceModel::Cached(_)),
{
}

/// With nothing read before, a home directory and a configuration directory,
/// the configuration file `config.json` in that directory is what is read: a
/// root directory it holds (the one `setdir` saved) is the one loaded, and
/// only a file that cannot be read or holds no configuration gives `ftproot`
/// in the home directory.
pub proof fn law_stored_root_is_loaded(home: Seq<char>, config_dir: Seq<char>, stored: StoredModel)
    ensures
        spec_plan_load(None, Some(home), Some(config_dir)) == Some(
            SourceModel::Stored(
                config_dir,
                spec_join_text(config_dir, seq!['c', 'o', 'n', 'f', 'i', 'g', '.', 'j', 's', 'o', 'n']),
                spec_join_text(home, seq!['f', 't', 'p', 'r', 'o', 'o', 't']),
            ),
        ),
        stored matches StoredModel::Parsed(r) ==> spec_load(
            None,
            Some(home),
            Some(config_dir),
            stored,
        ) == Some(r),
        !(stored is Parsed) ==> spec_load(None, Some(home), Some(config_dir), stored) == Some(
            spec_join_text(home, seq!['f', 't', 'p', 'r', 'o', 'o', 't']),
        ),
{
    reveal_strlit("config.json");
    reveal_strlit("ftproot");
    assert("config.json"@ =~= seq!['c', 'o', 'n', 'f', 'i', 'g', '.', 'j', 's', 'o', 'n']);
    assert("ftproot"@ =~= seq!['f', 't', 'p', 'r', 'o', 'o', 't']);
}

/// What is loaded after a save is what was saved, whatever the home and
/// configuration directories are: nothing is read again.
pub proof fn law_load_after_save(
    saved: Seq<char>,
    home: Option<Seq<char>>,
    config_dir: Option<Seq<char>>,
)
    ensures
        spec_plan_load(Some(saved), home, config_dir) == Some(SourceModel::Cached(saved)),
{
}

} // verus!
