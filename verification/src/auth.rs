//! Accounts and sign-in: a name that is not yet known is registered with the
//! password it first signs in with; a known name signs in only with its password.
//! Also the directories and watchers that a signed-in user gets, each set up once.

use vstd::prelude::*;
use vstd::string::StringExecFns;
use vstd::string::StrSliceExecFns;
use crate::path::{Comp, FsPath, spec_join, spec_components};
use crate::layout::{paths_view, spec_user_dirs, spec_ftpd_dir, user_dirs, ftpd_dir, plugins_dir};
use crate::text::{ascii_fold, eq_ignore_ascii_case, spec_eq_ignore_ascii_case, str_eq};

use crate::text::{opt_str_view, opt_text_view};

verus! {

/// A stored account, as `credentials.json` holds it.
#[derive(Debug)]
pub struct UserEntry {
    pub username: String,
    pub password: String,
    pub home_dir: Option<String>,
}

/// The model of an account.
pub struct UserRecord {
    pub username: Seq<char>,
    pub password: Seq<char>,
    pub home_dir: Option<Seq<char>>,
}

impl View for UserEntry {
    type V = UserRecord;

    open spec fn view(&self) -> UserRecord {
        UserRecord {
            username: self.username@,
            password: self.password@,
            home_dir: opt_text_view(self.home_dir),
        }
    }
}

/// The text that `{:?}` writes for a string.
pub uninterp spec fn debug_text(s: Seq<char>) -> Seq<char>;

/// Calls `<str as Debug>::fmt` through `format!("{:?}", ..)`: the result is
/// named `debug_text` of the string; what the quoting and escaping are is not stated.
#[verifier::external_body]
fn debug_quoted(s: &str) -> (r: String)
    ensures
        r@ == debug_text(s@),
{
    format!("{:?}", s)
}

pub open spec fn user_label() -> Seq<char> {
    seq!['U', 's', 'e', 'r', '(', 'u', 's', 'e', 'r', 'n', 'a', 'm', 'e', ':', ' ']
}

impl UserEntry {
    /// How the account is shown: `User(username: ` and the quoted name.
    pub fn describe(&self) -> (s: String)
        ensures
            s@ == user_label() + debug_text(self.username@),
    {
        let mut s = String::from_str("User(username: ");
        let q = debug_quoted(self.username.as_str());
        s.append(q.as_str());
        proof {
            reveal_strlit("User(username: ");
            assert("User(username: "@ =~= user_label());
        }
        s
    }

    /// A copy of this account.
    pub fn duplicate(&self) -> (u: UserEntry)
        ensures
            u@ == self@,
    {
        UserEntry {
            username: self.username.clone(),
            password: self.password.clone(),
            home_dir: match &self.home_dir {
                Some(h) => Some(h.clone()),
                None => None,
            },
        }
    }

    /// The directory that the user is rooted in, relative to the FTP root.
    pub fn user_root(&self) -> (r: Option<String>)
        ensures
            opt_text_view(r) == self@.home_dir,
    {
        match &self.home_dir {
            Some(h) => Some(h.clone()),
            None => None,
        }
    }
}

/// Why a sign-in is refused.
#[derive(Debug, Clone, Copy, PartialEq, Eq, Structural)]
pub enum AuthError {
    /// The name may not sign in.
    BadUser,
    /// The password is missing or wrong.
    BadPassword,
}

/// A granted sign-in: the account, and whether it was registered just now
/// (the store of accounts must then be written out).
#[derive(Debug)]
pub struct Login {
    pub user: UserEntry,
    pub registered: bool,
}

/// What the sessions set up so far are.
#[derive(Debug)]
pub struct Sessions {
    /// Whether the outbox watchers run.
    pub outbox_started: bool,
    /// The users whose plugin watchers run, in the order they signed in.
    pub users: Vec<String>,
}

pub struct SessionsView {
    pub outbox_started: bool,
    pub users: Seq<Seq<char>>,
}

impl View for Sessions {
    type V = SessionsView;

    open spec fn view(&self) -> SessionsView {
        SessionsView {
            outbox_started: self.outbox_started,
            users: Seq::new(self.users@.len(), |i: int| self.users@[i]@),
        }
    }
}

/// The accounts, where they are stored, and the sessions set up so far.
#[derive(Debug)]
pub struct SimpleAuthenticator {
    pub path: String,
    pub users: Vec<UserEntry>,
    pub sessions: Sessions,
}

pub open spec fn anonymous_name() -> Seq<char> {
    seq!['a', 'n', 'o', 'n', 'y', 'm', 'o', 'u', 's']
}

/// The names that may never sign in: the empty one and `anonymous` in any ASCII case.
pub open spec fn is_refused_name(name: Seq<char>) -> bool {
    name.len() == 0 || spec_eq_ignore_ascii_case(name, anonymous_name())
}

pub open spec fn has_user(users: Seq<UserRecord>, name: Seq<char>) -> bool {
    exists|i: int| 0 <= i < users.len() && #[trigger] users[i].username == name
}

/// `i` is the first account with the name `name`.
pub open spec fn is_first_user(users: Seq<UserRecord>, name: Seq<char>, i: int) -> bool {
    &&& 0 <= i < users.len()
    &&& users[i].username == name
    &&& forall|j: int| 0 <= j < i ==> #[trigger] users[j].username != name
}

/// The first account with the name `name`.
pub open spec fn find_user(users: Seq<UserRecord>, name: Seq<char>) -> int {
    choose|i: int| is_first_user(users, name, i)
}

/// The account that a sign-in as `name` with `password` yields: rooted in `name`.
pub open spec fn record_for(name: Seq<char>, password: Seq<char>) -> UserRecord {
    UserRecord { username: name, password: password, home_dir: Some(name) }
}

/// A sign-in as `name` with `password` against the accounts `users`: the
/// accounts afterwards, and the account granted (and whether it is new) or the refusal.
pub open spec fn spec_authenticate(
    users: Seq<UserRecord>,
    name: Seq<char>,
    password: Option<Seq<char>>,
) -> (Seq<UserRecord>, Result<(UserRecord, bool), AuthError>) {
    if is_refused_name(name) {
        (users, Err(AuthError::BadUser))
    } else if has_user(users, name) {
        let stored = users[find_user(users, name)];
        match password {
            Some(p) => if p == stored.password {
                (users, Ok((record_for(name, stored.password), false)))
            } else {
                (users, Err(AuthError::BadPassword))
            },
            None => (users, Err(AuthError::BadPassword)),
        }
    } else {
        match password {
            Some(p) => (users.push(record_for(name, p)), Ok((record_for(name, p), true))),
            None => (users, Err(AuthError::BadPassword)),
        }
    }
}

pub open spec fn login_view(r: Result<Login, AuthError>) -> Result<(UserRecord, bool), AuthError> {
    match r {
        Ok(l) => Ok((l.user@, l.registered)),
        Err(e) => Err(e),
    }
}

pub open spec fn distinct_names(users: Seq<UserRecord>) -> bool {
    forall|i: int, j: int|
        0 <= i < users.len() && 0 <= j < users.len() && i != j ==> #[trigger] users[i].username
            != #[trigger] users[j].username
}

proof fn lemma_first_user(users: Seq<UserRecord>, name: Seq<char>, i: int)
    requires
        is_first_user(users, name, i),
    ensures
        has_user(users, name),
        find_user(users, name) == i,
{
    let k = find_user(users, name);
    assert(is_first_user(users, name, k));
    if k < i {
        assert(users[k].username != name);
    }
    if i < k {
        assert(users[i].username != name);
    }
}

proof fn lemma_has_first(users: Seq<UserRecord>, name: Seq<char>, k: int)
    requires
        0 <= k < users.len(),
        users[k].username == name,
    ensures
        is_first_user(users, name, find_user(users, name)),
    decreases k,
{
    if forall|j: int| 0 <= j < k ==> #[trigger] users[j].username != name {
        assert(is_first_user(users, name, k));
    } else {
        let j = choose|j: int| 0 <= j < k && #[trigger] users[j].username == name;
        lemma_has_first(users, name, j);
    }
}

proof fn lemma_fold_letter(c: char, lo: char, up: char)
    requires
        97 <= (lo as u32) <= 122,
        (up as u32) == (lo as u32) - 32,
    ensures
        (c == lo || c == up) <==> ascii_fold(c) == ascii_fold(lo),
{
    if ascii_fold(c) == ascii_fold(lo) {
        if 65 <= (c as u32) <= 90 {
            assert(c as u32 == up as u32);
        } else {
            assert(c as u32 == lo as u32);
        }
    }
}

/// A sign-in is refused as a bad user exactly when the name is empty or is
/// `anonymous` in any mix of ASCII upper and lower case; whatever the accounts
/// and the password. Any other name that has no account, signing in with a
/// password, is registered: the account of that name and password, rooted in
/// the directory of that name, is added after the others and granted as new.
pub proof fn law_refused_names_and_registration(
    users: Seq<UserRecord>,
    name: Seq<char>,
    password: Option<Seq<char>>,
)
    ensures
        (spec_authenticate(users, name, password).1 == Err::<(UserRecord, bool), AuthError>(
            AuthError::BadUser,
        )) <==> (name.len() == 0 || (name.len() == 9 && forall|i: int|
            0 <= i < 9 ==> #[trigger] name[i] == seq!['a', 'n', 'o', 'n', 'y', 'm', 'o', 'u', 's'][i]
                || name[i] == seq!['A', 'N', 'O', 'N', 'Y', 'M', 'O', 'U', 'S'][i])),
        name.len() > 0 && !(name.len() == 9 && forall|i: int|
            0 <= i < 9 ==> #[trigger] name[i] == seq!['a', 'n', 'o', 'n', 'y', 'm', 'o', 'u', 's'][i]
                || name[i] == seq!['A', 'N', 'O', 'N', 'Y', 'M', 'O', 'U', 'S'][i])
            && (forall|j: int| 0 <= j < users.len() ==> #[trigger] users[j].username != name)
            && password is Some ==> spec_authenticate(users, name, password) == (
            users.push(UserRecord { username: name, password: password->Some_0, home_dir: Some(name) }),
            Ok::<(UserRecord, bool), AuthError>(
                (UserRecord { username: name, password: password->Some_0, home_dir: Some(name) }, true),
            ),
        ),
{
    let lower = seq!['a', 'n', 'o', 'n', 'y', 'm', 'o', 'u', 's'];
    let upper = seq!['A', 'N', 'O', 'N', 'Y', 'M', 'O', 'U', 'S'];
    assert(anonymous_name() =~= lower);
    assert forall|i: int| 0 <= i < 9 implies 97 <= (#[trigger] lower[i] as u32) <= 122 && (
    upper[i] as u32) == (lower[i] as u32) - 32 by {
        assert(i == 0 || i == 1 || i == 2 || i == 3 || i == 4 || i == 5 || i == 6 || i == 7 || i
            == 8);
    }
    if name.len() == 9 {
        assert forall|i: int| 0 <= i < 9 implies (#[trigger] name[i] == lower[i] || name[i]
            == upper[i]) <==> ascii_fold(name[i]) == ascii_fold(lower[i]) by {
            lemma_fold_letter(name[i], lower[i], upper[i]);
        }
    }
    if !has_user(users, name) == false {
        let k = choose|k: int| 0 <= k < users.len() && #[trigger] users[k].username == name;
        assert(users[k].username == name);
    }
}

/// Signing in again with the name and password that were just granted is
/// granted again, with the same account, and registers nothing.
pub proof fn law_sign_in_again(users: Seq<UserRecord>, name: Seq<char>, password: Seq<char>)
    requires
        spec_authenticate(users, name, Some(password)).1 is Ok,
    ensures
        ({
            let after = spec_authenticate(users, name, Some(password)).0;
            &&& spec_authenticate(users, name, Some(password)).1 == Ok::<
                (UserRecord, bool),
                AuthError,
            >((record_for(name, password), spec_authenticate(users, name, Some(password)).1->Ok_0.1))
            &&& spec_authenticate(after, name, Some(password)) == (
                after,
                Ok::<(UserRecord, bool), AuthError>((record_for(name, password), false)),
            )
        }),
{
    if has_user(users, name) {
        let k = choose|k: int| 0 <= k < users.len() && #[trigger] users[k].username == name;
        lemma_has_first(users, name, k);
    } else {
        let after = users.push(record_for(name, password));
        let n = users.len() as int;
        assert forall|j: int| 0 <= j < n implies #[trigger] after[j].username != name by {
            assert(after[j] == users[j]);
            if users[j].username == name {
                assert(has_user(users, name));
            }
        }
        assert(is_first_user(after, name, n));
        lemma_first_user(after, name, n);
    }
}

/// Every granted sign-in is for the name that signed in, and roots the user in
/// the directory of that name; a refused one changes nothing.
pub proof fn law_granted_user_rooted_in_own_dir(
    users: Seq<UserRecord>,
    name: Seq<char>,
    password: Option<Seq<char>>,
)
    ensures
        spec_authenticate(users, name, password).1 matches Ok((u, _)) ==> u.username == name
            && u.home_dir == Some(name) && password == Some(u.password),
        spec_authenticate(users, name, password).1 is Err ==> spec_authenticate(
            users,
            name,
            password,
        ).0 == users,
{
}

/// The directory that a granted user is rooted in, under `ftpd`, is the first
/// of the directories made for that user.
pub proof fn law_granted_root_is_made(
    root: Seq<char>,
    users: Seq<UserRecord>,
    name: Seq<char>,
    password: Option<Seq<char>>,
)
    requires
        spec_authenticate(users, name, password).1 is Ok,
    ensures
        ({
            let u = spec_authenticate(users, name, password).1->Ok_0.0;
            spec_join(spec_ftpd_dir(root), u.home_dir->Some_0) == spec_user_dirs(root, name)[0]
        }),
{
}

/// Once a sign-in has been granted, the same name with any other password is
/// refused and changes nothing.
pub proof fn law_other_password_refused(
    users: Seq<UserRecord>,
    name: Seq<char>,
    password: Seq<char>,
    other: Seq<char>,
)
    requires
        spec_authenticate(users, name, Some(password)).1 is Ok,
        other != password,
    ensures
        ({
            let after = spec_authenticate(users, name, Some(password)).0;
            spec_authenticate(after, name, Some(other)) == (after, Err::<
                (UserRecord, bool),
                AuthError,
            >(AuthError::BadPassword))
        }),
{
    law_sign_in_again(users, name, password);
}

/// A sign-in never changes nor removes a stored account: the accounts before
/// lead the accounts after, and at most one is added, only when the sign-in
/// registered it.
pub proof fn law_accounts_kept(users: Seq<UserRecord>, name: Seq<char>, password: Option<Seq<char>>)
    ensures
        ({
            let (after, r) = spec_authenticate(users, name, password);
            &&& after.subrange(0, users.len() as int) == users
            &&& after.len() == users.len() + (if r matches Ok((_, true)) { 1int } else { 0int })
        }),
{
    let (after, r) = spec_authenticate(users, name, password);
    assert(after.subrange(0, users.len() as int) =~= users);
}

/// No name is stored twice: if the names were distinct before a sign-in, they
/// are distinct after it.
pub proof fn law_names_stay_distinct(
    users: Seq<UserRecord>,
    name: Seq<char>,
    password: Option<Seq<char>>,
)
    requires
        distinct_names(users),
    ensures
        distinct_names(spec_authenticate(users, name, password).0),
{
    let after = spec_authenticate(users, name, password).0;
    if after.len() == users.len() + 1 {
        assert(!has_user(users, name));
        assert forall|i: int, j: int|
            0 <= i < after.len() && 0 <= j < after.len() && i != j implies #[trigger] after[i].username
            != #[trigger] after[j].username by {
            if i == users.len() {
                assert(users[j].username != name);
            } else if j == users.len() {
                assert(users[i].username != name);
            } else {
                assert(users[i].username != users[j].username);
            }
        }
    }
}

/// What to set up once a user's directories exist: the outbox watchers over
/// `ftpd` (only the first time anyone signs in), the plugin libraries (only
/// the first time a user is set up), and the plugin watchers of this user (only
/// the first time this user is set up).
#[derive(Debug)]
pub struct ServiceStart {
    pub ftpd: FsPath,
    pub start_outbox_watchers: bool,
    pub load_plugins_from: Option<FsPath>,
    pub start_plugin_watchers: bool,
}

/// A step of setting up a user: the directories to make, in order, and, once
/// they have all been made, what to start for them.
#[derive(Debug)]
pub struct UserSetup {
    pub dirs: Vec<FsPath>,
    pub services: Option<ServiceStart>,
}

/// Setting up the services of `user`: the sessions afterwards, and whether the
/// outbox watchers start, the plugins are loaded, and this user's plugin watchers start.
pub open spec fn spec_start_services(s: SessionsView, user: Seq<char>) -> (
    SessionsView,
    (bool, bool, bool),
) {
    let new_user = !s.users.contains(user);
    (
        SessionsView {
            outbox_started: true,
            users: if new_user {
                s.users.push(user)
            } else {
                s.users
            },
        },
        (!s.outbox_started, new_user && s.users.len() == 0, new_user),
    )
}

/// The sessions after users sign in, one after another, in the order `names`.
pub open spec fn run_sessions(s: SessionsView, names: Seq<Seq<char>>) -> SessionsView
    decreases names.len(),
{
    if names.len() == 0 {
        s
    } else {
        run_sessions(spec_start_services(s, names[0]).0, names.subrange(1, names.len() as int))
    }
}

/// How often the outbox watchers start while users sign in in the order `names`.
pub open spec fn outbox_starts(s: SessionsView, names: Seq<Seq<char>>) -> nat
    decreases names.len(),
{
    if names.len() == 0 {
        0
    } else {
        let (t, (o, _, _)) = spec_start_services(s, names[0]);
        (if o {
            1nat
        } else {
            0nat
        }) + outbox_starts(t, names.subrange(1, names.len() as int))
    }
}

/// How often the plugin libraries are loaded while users sign in in the order `names`.
pub open spec fn plugin_loads(s: SessionsView, names: Seq<Seq<char>>) -> nat
    decreases names.len(),
{
    if names.len() == 0 {
        0
    } else {
        let (t, (_, l, _)) = spec_start_services(s, names[0]);
        (if l {
            1nat
        } else {
            0nat
        }) + plugin_loads(t, names.subrange(1, names.len() as int))
    }
}

/// How often the plugin watchers of `user` start while users sign in in the order `names`.
pub open spec fn watcher_starts(s: SessionsView, names: Seq<Seq<char>>, user: Seq<char>) -> nat
    decreases names.len(),
{
    if names.len() == 0 {
        0
    } else {
        let (t, (_, _, w)) = spec_start_services(s, names[0]);
        (if w && names[0] == user {
            1nat
        } else {
            0nat
        }) + watcher_starts(t, names.subrange(1, names.len() as int), user)
    }
}

/// However many users sign in, the outbox watchers start at most once: once
/// if they were not running and someone signs in, never otherwise.
pub proof fn law_outbox_watchers_start_once(s: SessionsView, names: Seq<Seq<char>>)
    ensures
        outbox_starts(s, names) == (if !s.outbox_started && names.len() > 0 {
            1nat
        } else {
            0nat
        }),
    decreases names.len(),
{
    if names.len() > 0 {
        let t = spec_start_services(s, names[0]).0;
        law_outbox_watchers_start_once(t, names.subrange(1, names.len() as int));
    }
}

/// The plugin libraries are loaded at most once: once if no user was set up
/// before and someone signs in, never otherwise.
pub proof fn law_plugins_load_once(s: SessionsView, names: Seq<Seq<char>>)
    ensures
        plugin_loads(s, names) == (if s.users.len() == 0 && names.len() > 0 {
            1nat
        } else {
            0nat
        }),
    decreases names.len(),
{
    if names.len() > 0 {
        let t = spec_start_services(s, names[0]).0;
        if s.users.len() == 0 {
            assert(!s.users.contains(names[0]));
        }
        law_plugins_load_once(t, names.subrange(1, names.len() as int));
    }
}

/// The plugin watchers of a user start at most once, however often the user
/// signs in: once if the user was not set up before and signs in, never otherwise.
pub proof fn law_plugin_watchers_once_per_user(
    s: SessionsView,
    names: Seq<Seq<char>>,
    user: Seq<char>,
)
    ensures
        watcher_starts(s, names, user) == (if !s.users.contains(user) && names.contains(user) {
            1nat
        } else {
            0nat
        }),
    decreases names.len(),
{
    if names.len() > 0 {
        let (t, (_, _, w)) = spec_start_services(s, names[0]);
        let rest = names.subrange(1, names.len() as int);
        law_plugin_watchers_once_per_user(t, rest, user);
        if names[0] == user {
            assert(t.users.contains(user)) by {
                if !s.users.contains(user) {
                    assert(t.users[t.users.len() - 1] == user);
                }
            }
            assert(names.contains(user)) by {
                assert(names[0] == user);
            }
        } else {
            assert(t.users.contains(user) == s.users.contains(user)) by {
                if s.users.contains(user) {
                    let i = choose|i: int| 0 <= i < s.users.len() && s.users[i] == user;
                    if !s.users.contains(names[0]) {
                        assert(t.users[i] == user);
                    }
                }
                if t.users.contains(user) {
                    let i = choose|i: int| 0 <= i < t.users.len() && t.users[i] == user;
                    if !s.users.contains(names[0]) {
                        assert(i < s.users.len());
                        assert(s.users[i] == user);
                    }
                }
            }
            assert(names.contains(user) == rest.contains(user)) by {
                if names.contains(user) {
                    let i = choose|i: int| 0 <= i < names.len() && names[i] == user;
                    assert(rest[i - 1] == user);
                }
                if rest.contains(user) {
                    let i = choose|i: int| 0 <= i < rest.len() && rest[i] == user;
                    assert(names[i + 1] == user);
                }
            }
        }
    }
}

/// Setting up `user` after an attempt to make the user's directories: where
/// they were made, the services start as [`spec_start_services`] says, and
/// what starts is given; where not, nothing changes and nothing starts.
pub open spec fn spec_setup(s: SessionsView, user: Seq<char>, dirs_made: bool) -> (
    SessionsView,
    Option<(bool, bool, bool)>,
) {
    if dirs_made {
        (spec_start_services(s, user).0, Some(spec_start_services(s, user).1))
    } else {
        (s, None)
    }
}

/// The names of the sign-ins, in order, whose directories were made.
pub open spec fn made_names(events: Seq<(Seq<char>, bool)>) -> Seq<Seq<char>>
    decreases events.len(),
{
    if events.len() == 0 {
        seq![]
    } else if events[0].1 {
        seq![events[0].0] + made_names(events.subrange(1, events.len() as int))
    } else {
        made_names(events.subrange(1, events.len() as int))
    }
}

/// How often the outbox watchers start over a run of setups, each a name and
/// whether its directories were made.
pub open spec fn setup_outbox_starts(s: SessionsView, events: Seq<(Seq<char>, bool)>) -> nat
    decreases events.len(),
{
    if events.len() == 0 {
        0
    } else {
        let (t, f) = spec_setup(s, events[0].0, events[0].1);
        (if f matches Some((o, _, _)) && o {
            1nat
        } else {
            0nat
        }) + setup_outbox_starts(t, events.subrange(1, events.len() as int))
    }
}

/// How often the plugin libraries are loaded over a run of setups.
pub open spec fn setup_plugin_loads(s: SessionsView, events: Seq<(Seq<char>, bool)>) -> nat
    decreases events.len(),
{
    if events.len() == 0 {
        0
    } else {
        let (t, f) = spec_setup(s, events[0].0, events[0].1);
        (if f matches Some((_, l, _)) && l {
            1nat
        } else {
            0nat
        }) + setup_plugin_loads(t, events.subrange(1, events.len() as int))
    }
}

/// How often the plugin watchers of `user` start over a run of setups.
pub open spec fn setup_watcher_starts(
    s: SessionsView,
    events: Seq<(Seq<char>, bool)>,
    user: Seq<char>,
) -> nat
    decreases events.len(),
{
    if events.len() == 0 {
        0
    } else {
        let (t, f) = spec_setup(s, events[0].0, events[0].1);
        (if f matches Some((_, _, w)) && w && events[0].0 == user {
            1nat
        } else {
            0nat
        }) + setup_watcher_starts(t, events.subrange(1, events.len() as int), user)
    }
}

proof fn lemma_setups_are_sign_ins(s: SessionsView, events: Seq<(Seq<char>, bool)>, user: Seq<char>)
    ensures
        setup_outbox_starts(s, events) == outbox_starts(s, made_names(events)),
        setup_plugin_loads(s, events) == plugin_loads(s, made_names(events)),
        setup_watcher_starts(s, events, user) == watcher_starts(s, made_names(events), user),
    decreases events.len(),
{
    if events.len() > 0 {
        let rest = events.subrange(1, events.len() as int);
        let t = spec_setup(s, events[0].0, events[0].1).0;
        lemma_setups_are_sign_ins(t, rest, user);
        if events[0].1 {
            let names = made_names(events);
            assert(names[0] == events[0].0);
            assert(names.subrange(1, names.len() as int) =~= made_names(rest));
        }
    }
}

/// Over any run of setups, the outbox watchers start at most once: once if
/// they were not running and some setup got past making its directories,
/// never otherwise. A setup whose directories were not made starts nothing
/// and changes nothing.
pub proof fn law_setup_outbox_watchers_start_once(s: SessionsView, events: Seq<(Seq<char>, bool)>)
    ensures
        setup_outbox_starts(s, events) == (if !s.outbox_started && made_names(events).len() > 0 {
            1nat
        } else {
            0nat
        }),
{
    lemma_setups_are_sign_ins(s, events, seq![]);
    law_outbox_watchers_start_once(s, made_names(events));
}

/// Over any run of setups, the plugin libraries are loaded at most once: once
/// if no user was set up before and some setup got past making its
/// directories, never otherwise.
pub proof fn law_setup_plugins_load_once(s: SessionsView, events: Seq<(Seq<char>, bool)>)
    ensures
        setup_plugin_loads(s, events) == (if s.users.len() == 0 && made_names(events).len() > 0 {
            1nat
        } else {
            0nat
        }),
{
    lemma_setups_are_sign_ins(s, events, seq![]);
    law_plugins_load_once(s, made_names(events));
}

/// Over any run of setups, the plugin watchers of a user start at most once,
/// however often the user signs in: once if the user was not set up before
/// and some setup of the user got past making its directories, never otherwise.
pub proof fn law_setup_plugin_watchers_once_per_user(
    s: SessionsView,
    events: Seq<(Seq<char>, bool)>,
    user: Seq<char>,
)
    ensures
        setup_watcher_starts(s, events, user) == (if !s.users.contains(user) && made_names(
            events,
        ).contains(user) {
            1nat
        } else {
            0nat
        }),
{
    lemma_setups_are_sign_ins(s, events, user);
    law_plugin_watchers_once_per_user(s, made_names(events), user);
}

/// The sessions after a run of setups, each a name and whether its
/// directories were made.
pub open spec fn setup_run(s: SessionsView, events: Seq<(Seq<char>, bool)>) -> SessionsView
    decreases events.len(),
{
    if events.len() == 0 {
        s
    } else {
        setup_run(
            spec_setup(s, events[0].0, events[0].1).0,
            events.subrange(1, events.len() as int),
        )
    }
}

/// A user whose plugin watchers run is noted once: over any run of setups,
/// the users of the sessions stay free of duplicates, and they are the users
/// noted before followed by each newly set-up name.
#[verifier::spinoff_prover]
#[verifier::rlimit(40)]
pub proof fn law_setup_users_stay_distinct(s: SessionsView, events: Seq<(Seq<char>, bool)>)
    requires
        s.users.no_duplicates(),
    ensures
        setup_run(s, events).users.no_duplicates(),
        forall|u: Seq<char>| #[trigger] setup_run(s, events).users.contains(u) <==> (s.users.contains(u)
            || made_names(events).contains(u)),
    decreases events.len(),
{
    if events.len() > 0 {
        let rest = events.subrange(1, events.len() as int);
        let t = spec_setup(s, events[0].0, events[0].1).0;
        if events[0].1 && !s.users.contains(events[0].0) {
            assert forall|i: int, j: int|
                0 <= i < t.users.len() && 0 <= j < t.users.len() && i != j implies t.users[i]
                != t.users[j] by {
                if i < s.users.len() && j < s.users.len() {
                } else if i == s.users.len() {
                    assert(s.users[j] != events[0].0);
                } else {
                    assert(s.users[i] != events[0].0);
                }
            }
        }
        law_setup_users_stay_distinct(t, rest);
        let names = made_names(events);
        assert forall|u: Seq<char>| #[trigger] t.users.contains(u) || made_names(rest).contains(u)
            <==> (s.users.contains(u) || names.contains(u)) by {
            if events[0].1 {
                assert(names[0] == events[0].0);
                assert(names.subrange(1, names.len() as int) =~= made_names(rest));
                if made_names(rest).contains(u) {
                    let k = choose|k: int| 0 <= k < made_names(rest).len() && made_names(rest)[k] == u;
                    assert(names[k + 1] == u);
                }
                if names.contains(u) {
                    let k = choose|k: int| 0 <= k < names.len() && names[k] == u;
                    if k > 0 {
                        assert(made_names(rest)[k - 1] == u);
                    }
                }
                if !s.users.contains(events[0].0) {
                    if t.users.contains(u) {
                        let k = choose|k: int| 0 <= k < t.users.len() && t.users[k] == u;
                        if k < s.users.len() {
                            assert(s.users[k] == u);
                        }
                    }
                    if s.users.contains(u) {
                        let k = choose|k: int| 0 <= k < s.users.len() && s.users[k] == u;
                        assert(t.users[k] == u);
                    }
                    assert(t.users[s.users.len() as int] == events[0].0);
                }
            }
        }
    }
}

impl SimpleAuthenticator {
    pub open spec fn users_view(&self) -> Seq<UserRecord> {
        Seq::new(self.users@.len(), |i: int| self.users@[i]@)
    }

    /// An authenticator over the accounts `users` stored at `path`, with no session set up.
    pub fn new(path: String, users: Vec<UserEntry>) -> (a: SimpleAuthenticator)
        ensures
            a.path == path,
            a.users == users,
            a.sessions@.outbox_started == false,
            a.sessions@.users.len() == 0,
    {
        SimpleAuthenticator {
            path,
            users,
            sessions: Sessions { outbox_started: false, users: Vec::new() },
        }
    }

    /// A sign-in as `username` with `password`: refused for the empty name and
    /// `anonymous`; granted to a known name with its password; a new name with a
    /// password is registered and granted.
    pub fn authenticate(&mut self, username: &str, password: Option<&str>) -> (r: Result<
        Login,
        AuthError,
    >)
        ensures
            (final(self).users_view(), login_view(r)) == spec_authenticate(
                old(self).users_view(),
                username@,
                opt_str_view(password),
            ),
            final(self).path == old(self).path,
            final(self).sessions == old(self).sessions,
    {
        let ghost users0 = self.users_view();
        proof {
            reveal_strlit("anonymous");
            assert("anonymous"@ =~= anonymous_name());
        }
        if username.unicode_len() == 0 || eq_ignore_ascii_case(username, "anonymous") {
            return Err(AuthError::BadUser);
        }
        assert(!is_refused_name(username@));
        let n = self.users.len();
        let mut i: usize = 0;
        while i < n
            invariant
                n == self.users@.len(),
                self.users_view() == users0,
                !is_refused_name(username@),
                i <= n,
                forall|j: int| 0 <= j < i ==> #[trigger] users0[j].username != username@,
            decreases n - i,
        {
            if str_eq(self.users[i].username.as_str(), username) {
                proof {
                    assert(users0[i as int].username == username@);
                    lemma_first_user(users0, username@, i as int);
                }
                return match password {
                    Some(p) => {
                        if str_eq(self.users[i].password.as_str(), p) {
                            let user = UserEntry {
                                username: String::from_str(username),
                                password: self.users[i].password.clone(),
                                home_dir: Some(String::from_str(username)),
                            };
                            Ok(Login { user, registered: false })
                        } else {
                            Err(AuthError::BadPassword)
                        }
                    },
                    None => Err(AuthError::BadPassword),
                };
            }
            i = i + 1;
        }
        assert(!has_user(users0, username@));
        match password {
            Some(p) => {
                let stored = UserEntry {
                    username: String::from_str(username),
                    password: String::from_str(p),
                    home_dir: Some(String::from_str(username)),
                };
                let granted = stored.duplicate();
                self.users.push(stored);
                assert(self.users_view() =~= users0.push(record_for(username@, p@)));
                Ok(Login { user: granted, registered: true })
            },
            None => Err(AuthError::BadPassword),
        }
    }

    /// A step of setting up `username` under the root `root_dir`, given how
    /// many of the user's directories have been made, in order. The
    /// directories to make are always given. Until all of them have been
    /// made, nothing is set up and nothing changes (so a call with none made
    /// only asks which they are); once they all have, what to start for them.
    pub fn ensure_user_dirs(&mut self, root_dir: &str, username: &str, made: usize) -> (r:
        UserSetup)
        ensures
            paths_view(r.dirs@) == spec_user_dirs(root_dir@, username@),
            final(self).sessions@ == spec_setup(
                old(self).sessions@,
                username@,
                made >= spec_user_dirs(root_dir@, username@).len(),
            ).0,
            match r.services {
                Some(st) => spec_setup(
                    old(self).sessions@,
                    username@,
                    made >= spec_user_dirs(root_dir@, username@).len(),
                ).1 == Some(
                    (st.start_outbox_watchers, st.load_plugins_from is Some, st.start_plugin_watchers),
                ) && st.ftpd@ == spec_ftpd_dir(root_dir@) && (st.load_plugins_from matches Some(p)
                    ==> p@ == spec_join(spec_components(root_dir@), "plugins"@)),
                None => spec_setup(
                    old(self).sessions@,
                    username@,
                    made >= spec_user_dirs(root_dir@, username@).len(),
                ).1 is None,
            },
            final(self).users == old(self).users,
            final(self).path == old(self).path,
    {
        let dirs = user_dirs(root_dir, username);
        if made >= dirs.len() {
            let st = self.start_user_services(root_dir, username);
            UserSetup { dirs, services: Some(st) }
        } else {
            UserSetup { dirs, services: None }
        }
    }

    /// Notes that `username`'s directories exist and says what to set up for them.
    fn start_user_services(&mut self, root_dir: &str, username: &str) -> (r: ServiceStart)
        ensures
            (final(self).sessions@, (r.start_outbox_watchers, r.load_plugins_from is Some, r.start_plugin_watchers))
                == spec_start_services(old(self).sessions@, username@),
            r.ftpd@ == spec_ftpd_dir(root_dir@),
            r.load_plugins_from matches Some(p) ==> p@ == spec_join(spec_components(root_dir@), "plugins"@),
            final(self).users == old(self).users,
            final(self).path == old(self).path,
    {
        let ghost s0 = self.sessions@;
        let start_outbox = !self.sessions.outbox_started;
        self.sessions.outbox_started = true;
        let n = self.sessions.users.len();
        let mut i: usize = 0;
        let mut known = false;
        while i < n
            invariant_except_break
                !known,
                forall|j: int| 0 <= j < i ==> s0.users[j] != username@,
            invariant
                n == self.sessions.users@.len(),
                s0.users == self.sessions@.users,
                i <= n,
            ensures
                known ==> i < n && s0.users[i as int] == username@,
                !known ==> forall|j: int| 0 <= j < n ==> s0.users[j] != username@,
            decreases n - i,
        {
            if str_eq(self.sessions.users[i].as_str(), username) {
                known = true;
                break;
            }
            i = i + 1;
        }
        let new_user;
        if known {
            assert(s0.users[i as int] == username@);
            assert(s0.users.contains(username@));
            new_user = false;
        } else {
            assert(!s0.users.contains(username@));
            new_user = true;
        }
        let load = if new_user && n == 0 {
            Some(plugins_dir(root_dir))
        } else {
            None
        };
        if new_user {
            self.sessions.users.push(String::from_str(username));
        }
        assert(self.sessions@.users =~= spec_start_services(s0, username@).0.users);
        ServiceStart {
            ftpd: ftpd_dir(root_dir),
            start_outbox_watchers: start_outbox,
            load_plugins_from: load,
            start_plugin_watchers: new_user,
        }
    }
}

} // verus!
