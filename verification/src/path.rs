//! Unix paths as sequences of components, with the splitting rules of
//! `std::path::Path::components`, and the joining, prefix and file-name
//! operations that the server builds its directory layout from.

use vstd::prelude::*;
use crate::text::{chars_of, string_of_range, push_char};
use vstd::string::StringExecFns;
use vstd::string::StrSliceExecFns;

verus! {

/// A component of a path, as the mathematical model sees it.
pub enum Comp {
    Root,
    Cur,
    Parent,
    Normal(Seq<char>),
}

/// One component of a path: the root, `.`, `..`, or a name.
#[derive(Debug)]
pub enum PathComponent {
    RootDir,
    CurDir,
    ParentDir,
    Normal(String),
}

impl View for PathComponent {
    type V = Comp;

    open spec fn view(&self) -> Comp {
        match self {
            PathComponent::RootDir => Comp::Root,
            PathComponent::CurDir => Comp::Cur,
            PathComponent::ParentDir => Comp::Parent,
            PathComponent::Normal(s) => Comp::Normal(s@),
        }
    }
}

/// A path held as its components.
#[derive(Debug)]
pub struct FsPath {
    pub comps: Vec<PathComponent>,
}

impl View for FsPath {
    type V = Seq<Comp>;

    open spec fn view(&self) -> Seq<Comp> {
        Seq::new(self.comps@.len(), |i: int| self.comps@[i]@)
    }
}

/// The state after reading the first `i` characters of `s`: the parts already
/// closed by a `/`, and the part being read.
pub open spec fn scan(s: Seq<char>, i: int) -> (Seq<Seq<char>>, Seq<char>)
    decreases i,
{
    if i <= 0 {
        (seq![], seq![])
    } else {
        let (done, cur) = scan(s, i - 1);
        if s[i - 1] == '/' {
            (done.push(cur), seq![])
        } else {
            (done, cur.push(s[i - 1]))
        }
    }
}

/// `s` split at every `/`.
pub open spec fn split_parts(s: Seq<char>) -> Seq<Seq<char>> {
    scan(s, s.len() as int).0.push(scan(s, s.len() as int).1)
}

/// What one part between separators contributes: nothing for an empty part,
/// `.` only where it may stand (the first part of a path), `..`, or a name.
pub open spec fn part_comp(part: Seq<char>, allow_cur: bool) -> Seq<Comp> {
    if part.len() == 0 {
        seq![]
    } else if part.len() == 1 && part[0] == '.' {
        if allow_cur {
            seq![Comp::Cur]
        } else {
            seq![]
        }
    } else if part.len() == 2 && part[0] == '.' && part[1] == '.' {
        seq![Comp::Parent]
    } else {
        seq![Comp::Normal(part)]
    }
}

/// The components of a list of parts; `.` counts only as the very first part.
pub open spec fn comps_of_parts(parts: Seq<Seq<char>>, allow_cur: bool) -> Seq<Comp>
    decreases parts.len(),
{
    if parts.len() == 0 {
        seq![]
    } else {
        comps_of_parts(parts.drop_last(), allow_cur) + part_comp(
            parts.last(),
            allow_cur && parts.len() == 1,
        )
    }
}

pub open spec fn is_rooted(s: Seq<char>) -> bool {
    s.len() > 0 && s[0] == '/'
}

/// The components of the text `s`; with `allow_cur` false a leading `.` is
/// dropped, as it is when `s` is appended to a non-empty path.
pub open spec fn parse_comps(s: Seq<char>, allow_cur: bool) -> Seq<Comp> {
    (if is_rooted(s) {
        seq![Comp::Root]
    } else {
        seq![]
    }) + comps_of_parts(split_parts(s), allow_cur)
}

/// The components of the path written `s`.
pub open spec fn spec_components(s: Seq<char>) -> Seq<Comp> {
    parse_comps(s, true)
}

/// `base` joined with `s` the way `PathBuf::join` joins on Unix: a rooted `s`,
/// or an empty `base`, gives `s`; otherwise the parts of `s` follow those of `base`.
pub open spec fn spec_join(base: Seq<Comp>, s: Seq<char>) -> Seq<Comp> {
    if is_rooted(s) || base.len() == 0 {
        spec_components(s)
    } else {
        base + parse_comps(s, false)
    }
}

/// The text of a component, as `to_string_lossy` shows it.
pub open spec fn comp_text(c: Comp) -> Seq<char> {
    match c {
        Comp::Root => seq!['/'],
        Comp::Cur => seq!['.'],
        Comp::Parent => seq!['.', '.'],
        Comp::Normal(s) => s,
    }
}

/// The path without its leading components `base`, if they are its leading components.
pub open spec fn spec_strip_prefix(p: Seq<Comp>, base: Seq<Comp>) -> Option<Seq<Comp>> {
    if base.len() <= p.len() && p.subrange(0, base.len() as int) == base {
        Some(p.skip(base.len() as int))
    } else {
        None
    }
}

/// The last component, if it is a name.
pub open spec fn spec_file_name(p: Seq<Comp>) -> Option<Seq<char>> {
    if p.len() > 0 && p.last() is Normal {
        Some(p.last()->Normal_0)
    } else {
        None
    }
}

/// The path without its last component, unless that is the root or there is none.
pub open spec fn spec_parent(p: Seq<Comp>) -> Option<Seq<Comp>> {
    if p.len() > 0 && !(p.last() is Root) {
        Some(p.drop_last())
    } else {
        None
    }
}

/// Whether `i` is the position of the last `.` in `name`.
pub open spec fn is_last_dot(name: Seq<char>, i: int) -> bool {
    &&& 0 <= i < name.len()
    &&& name[i] == '.'
    &&& forall|j: int| i < j < name.len() ==> name[j] != '.'
}

pub open spec fn has_dot(name: Seq<char>) -> bool {
    exists|i: int| 0 <= i < name.len() && name[i] == '.'
}

/// The position of the last `.` in `name`, where there is one.
pub open spec fn last_dot(name: Seq<char>) -> int {
    choose|i: int| is_last_dot(name, i)
}

/// A file name split at its last `.`, as `Path::extension` and `Path::file_stem`
/// split it: `..`, a name without a `.`, and a name whose only `.` leads it have
/// no extension.
pub open spec fn spec_name_extension(name: Seq<char>) -> Option<Seq<char>> {
    if name =~= seq!['.', '.'] || !has_dot(name) || last_dot(name) == 0 {
        None
    } else {
        Some(name.skip(last_dot(name) + 1))
    }
}

pub open spec fn spec_name_stem(name: Seq<char>) -> Seq<char> {
    if name =~= seq!['.', '.'] || !has_dot(name) || last_dot(name) == 0 {
        name
    } else {
        name.take(last_dot(name))
    }
}

pub open spec fn spec_extension(p: Seq<Comp>) -> Option<Seq<char>> {
    match spec_file_name(p) {
        Some(name) => spec_name_extension(name),
        None => None,
    }
}

pub open spec fn spec_file_stem(p: Seq<Comp>) -> Option<Seq<char>> {
    match spec_file_name(p) {
        Some(name) => Some(spec_name_stem(name)),
        None => None,
    }
}

proof fn lemma_unit_last_dot(name: Seq<char>, i: int)
    requires
        is_last_dot(name, i),
    ensures
        has_dot(name),
        last_dot(name) == i,
{
    let j = last_dot(name);
    assert(is_last_dot(name, j));
    if j < i {
        assert(name[i] != '.');
    }
    if i < j {
        assert(name[j] != '.');
    }
}

/// A name that is one path component of its own: not empty, not `.` or `..`,
/// and without a `/`.
pub open spec fn is_plain_name(n: Seq<char>) -> bool {
    &&& n.len() > 0
    &&& !(n.len() == 1 && n[0] == '.')
    &&& !(n.len() == 2 && n[0] == '.' && n[1] == '.')
    &&& forall|i: int| 0 <= i < n.len() ==> n[i] != '/'
}

proof fn lemma_scan_no_sep(s: Seq<char>, i: int)
    requires
        0 <= i <= s.len(),
        forall|j: int| 0 <= j < s.len() ==> s[j] != '/',
    ensures
        scan(s, i).0 == Seq::<Seq<char>>::empty(),
        scan(s, i).1 == s.take(i),
    decreases i,
{
    if i > 0 {
        lemma_scan_no_sep(s, i - 1);
        assert(s.take(i - 1).push(s[i - 1]) =~= s.take(i));
    } else {
        assert(s.take(0) =~= Seq::<char>::empty());
    }
}

/// Joining a plain name to a non-empty path adds exactly that name.
pub proof fn lemma_join_plain(base: Seq<Comp>, n: Seq<char>)
    requires
        base.len() > 0,
        is_plain_name(n),
    ensures
        spec_join(base, n) == base.push(Comp::Normal(n)),
{
    lemma_scan_no_sep(n, n.len() as int);
    assert(n.take(n.len() as int) =~= n);
    let parts = split_parts(n);
    assert(parts =~= seq![n]);
    assert(parts.drop_last() =~= Seq::<Seq<char>>::empty());
    assert(parts.last() == n);
    assert(comps_of_parts(Seq::<Seq<char>>::empty(), false) == Seq::<Comp>::empty());
    assert(part_comp(n, false) == seq![Comp::Normal(n)]);
    assert(comps_of_parts(parts, false) =~= seq![Comp::Normal(n)]);
    assert(!is_rooted(n));
    assert(spec_join(base, n) =~= base.push(Comp::Normal(n)));
}

/// The component that one part contributes, if any.
fn part_component(v: &Vec<char>, start: usize, end: usize, allow_cur: bool) -> (r: Option<
    PathComponent,
>)
    requires
        start <= end <= v@.len(),
    ensures
        match r {
            Some(c) => part_comp(v@.subrange(start as int, end as int), allow_cur) == seq![c@],
            None => part_comp(v@.subrange(start as int, end as int), allow_cur) == Seq::<
                Comp,
            >::empty(),
        },
{
    let ghost part = v@.subrange(start as int, end as int);
    if start == end {
        None
    } else if end - start == 1 && v[start] == '.' {
        if allow_cur {
            Some(PathComponent::CurDir)
        } else {
            None
        }
    } else if end - start == 2 && v[start] == '.' && v[start + 1] == '.' {
        Some(PathComponent::ParentDir)
    } else {
        let s = string_of_range(v, start, end);
        Some(PathComponent::Normal(s))
    }
}

proof fn lemma_scan_step(s: Seq<char>, i: int)
    requires
        0 <= i < s.len(),
    ensures
        scan(s, i + 1) == (if s[i] == '/' {
            (scan(s, i).0.push(scan(s, i).1), Seq::<char>::empty())
        } else {
            (scan(s, i).0, scan(s, i).1.push(s[i]))
        }),
{
}

proof fn lemma_comps_push(parts: Seq<Seq<char>>, part: Seq<char>, allow_cur: bool)
    ensures
        comps_of_parts(parts.push(part), allow_cur) == comps_of_parts(parts, allow_cur)
            + part_comp(part, allow_cur && parts.len() == 0),
{
    assert(parts.push(part).drop_last() =~= parts);
}

impl PathComponent {
    /// A copy of this component.
    pub fn duplicate(&self) -> (c: PathComponent)
        ensures
            c@ == self@,
    {
        match self {
            PathComponent::RootDir => PathComponent::RootDir,
            PathComponent::CurDir => PathComponent::CurDir,
            PathComponent::ParentDir => PathComponent::ParentDir,
            PathComponent::Normal(s) => PathComponent::Normal(s.clone()),
        }
    }
}

impl FsPath {
    /// A copy of this path.
    pub fn duplicate(&self) -> (p: FsPath)
        ensures
            p@ == self@,
    {
        let mut p = FsPath::empty();
        let mut i: usize = 0;
        while i < self.comps.len()
            invariant
                i <= self.comps@.len(),
                p@ == self@.subrange(0, i as int),
            decreases self.comps@.len() - i,
        {
            p.push_comp(self.comps[i].duplicate());
            i = i + 1;
        }
        assert(p@ =~= self@);
        p
    }

    /// The empty path.
    pub fn empty() -> (p: FsPath)
        ensures
            p@ == Seq::<Comp>::empty(),
    {
        FsPath { comps: Vec::new() }
    }

    fn push_comp(&mut self, c: PathComponent)
        ensures
            final(self)@ == old(self)@.push(c@),
    {
        self.comps.push(c);
        assert(self@ =~= old(self)@.push(c@));
    }

    /// Appends the components of the text `s`; `allow_cur` says whether a
    /// leading `.` counts.
    fn push_parsed(&mut self, s: &str, allow_cur: bool)
        ensures
            final(self)@ == old(self)@ + parse_comps(s@, allow_cur),
    {
        let v = chars_of(s);
        let n = v.len();
        let ghost base = self@;
        if n > 0 && v[0] == '/' {
            self.push_comp(PathComponent::RootDir);
        }
        let ghost root_part: Seq<Comp> = if is_rooted(s@) {
            seq![Comp::Root]
        } else {
            seq![]
        };
        assert(self@ =~= base + root_part + comps_of_parts(scan(s@, 0).0, allow_cur));
        let mut start: usize = 0;
        let mut first: bool = true;
        let mut i: usize = 0;
        while i < n
            invariant
                n == v@.len(),
                v@ == s@,
                start <= i <= n,
                scan(s@, i as int).1 == v@.subrange(start as int, i as int),
                first == (scan(s@, i as int).0.len() == 0),
                self@ == base + root_part + comps_of_parts(scan(s@, i as int).0, allow_cur),
            decreases n - i,
        {
            proof {
                lemma_scan_step(s@, i as int);
            }
            if v[i] == '/' {
                let ghost done = scan(s@, i as int).0;
                let ghost cur = scan(s@, i as int).1;
                proof {
                    lemma_comps_push(done, cur, allow_cur);
                }
                let c = part_component(&v, start, i, allow_cur && first);
                match c {
                    Some(c) => {
                        self.push_comp(c);
                    },
                    None => {},
                }
                assert(self@ =~= base + root_part + comps_of_parts(done.push(cur), allow_cur));
                start = i + 1;
                first = false;
                assert(scan(s@, i + 1).1 =~= v@.subrange(start as int, i + 1));
            } else {
                assert(scan(s@, i + 1).1 =~= v@.subrange(start as int, i + 1));
            }
            i = i + 1;
        }
        let ghost done = scan(s@, n as int).0;
        let ghost cur = scan(s@, n as int).1;
        proof {
            lemma_comps_push(done, cur, allow_cur);
        }
        let c = part_component(&v, start, n, allow_cur && first);
        match c {
            Some(c) => {
                self.push_comp(c);
            },
            None => {},
        }
        assert(self@ =~= base + parse_comps(s@, allow_cur));
    }

    /// The path written `s`.
    pub fn parse(s: &str) -> (p: FsPath)
        ensures
            p@ == spec_components(s@),
    {
        let mut p = FsPath::empty();
        p.push_parsed(s, true);
        assert(p@ =~= spec_components(s@));
        p
    }

    /// This path joined with `s`, as `PathBuf::join` joins.
    pub fn join(&self, s: &str) -> (p: FsPath)
        ensures
            p@ == spec_join(self@, s@),
    {
        let v = chars_of(s);
        if (v.len() > 0 && v[0] == '/') || self.comps.len() == 0 {
            FsPath::parse(s)
        } else {
            let mut p = self.duplicate();
            p.push_parsed(s, false);
            p
        }
    }
}


/// Where the last `.` of `v` stands, if it has one.
fn find_last_dot(v: &Vec<char>) -> (r: Option<usize>)
    ensures
        match r {
            Some(i) => is_last_dot(v@, i as int),
            None => !has_dot(v@),
        },
{
    let mut i: usize = v.len();
    while i > 0
        invariant
            i <= v@.len(),
            forall|j: int| i <= j < v@.len() ==> v@[j] != '.',
        decreases i,
    {
        if v[i - 1] == '.' {
            return Some(i - 1);
        }
        i = i - 1;
    }
    None
}

/// The extension of a file name: what follows its last `.`.
pub fn name_extension(name: &str) -> (r: Option<String>)
    ensures
        match r {
            Some(e) => spec_name_extension(name@) == Some(e@),
            None => spec_name_extension(name@) is None,
        },
{
    let v = chars_of(name);
    if v.len() == 2 && v[0] == '.' && v[1] == '.' {
        assert(name@ =~= seq!['.', '.']);
        return None;
    }
    assert(!(name@ =~= seq!['.', '.']));
    match find_last_dot(&v) {
        None => None,
        Some(i) => {
            proof {
                lemma_unit_last_dot(v@, i as int);
            }
            if i == 0 {
                None
            } else {
                let e = string_of_range(&v, i + 1, v.len());
                assert(e@ =~= name@.skip(i + 1));
                Some(e)
            }
        },
    }
}

/// The stem of a file name: what precedes its last `.`.
pub fn name_stem(name: &str) -> (r: String)
    ensures
        r@ == spec_name_stem(name@),
{
    let v = chars_of(name);
    if v.len() == 2 && v[0] == '.' && v[1] == '.' {
        assert(name@ =~= seq!['.', '.']);
        return string_of_range(&v, 0, v.len());
    }
    assert(!(name@ =~= seq!['.', '.']));
    match find_last_dot(&v) {
        None => {
            let r = string_of_range(&v, 0, v.len());
            assert(r@ =~= name@);
            r
        },
        Some(i) => {
            proof {
                lemma_unit_last_dot(v@, i as int);
            }
            if i == 0 {
                let r = string_of_range(&v, 0, v.len());
                assert(r@ =~= name@);
                r
            } else {
                let r = string_of_range(&v, 0, i);
                assert(r@ =~= name@.take(i as int));
                r
            }
        },
    }
}

/// Whether two components are the same.
pub fn same_component(a: &PathComponent, b: &PathComponent) -> (r: bool)
    ensures
        r == (a@ == b@),
{
    match (a, b) {
        (PathComponent::RootDir, PathComponent::RootDir) => true,
        (PathComponent::CurDir, PathComponent::CurDir) => true,
        (PathComponent::ParentDir, PathComponent::ParentDir) => true,
        (PathComponent::Normal(x), PathComponent::Normal(y)) => x.eq(y),
        _ => false,
    }
}

impl PathComponent {
    /// The text of this component.
    pub fn text(&self) -> (s: String)
        ensures
            s@ == comp_text(self@),
    {
        match self {
            PathComponent::RootDir => {
                let mut s = String::new();
                crate::text::push_char(&mut s, '/');
                assert(s@ =~= seq!['/']);
                s
            },
            PathComponent::CurDir => {
                let mut s = String::new();
                crate::text::push_char(&mut s, '.');
                assert(s@ =~= seq!['.']);
                s
            },
            PathComponent::ParentDir => {
                let mut s = String::new();
                crate::text::push_char(&mut s, '.');
                crate::text::push_char(&mut s, '.');
                assert(s@ =~= seq!['.', '.']);
                s
            },
            PathComponent::Normal(n) => n.clone(),
        }
    }
}

impl FsPath {
    /// The number of components.
    pub fn len(&self) -> (n: usize)
        ensures
            n == self@.len(),
    {
        self.comps.len()
    }

    /// This path without the leading components `base`, as `Path::strip_prefix` gives it.
    pub fn strip_prefix(&self, base: &FsPath) -> (r: Option<FsPath>)
        ensures
            match r {
                Some(q) => spec_strip_prefix(self@, base@) == Some(q@),
                None => spec_strip_prefix(self@, base@) is None,
            },
    {
        let n = base.comps.len();
        if n > self.comps.len() {
            return None;
        }
        let mut i: usize = 0;
        while i < n
            invariant
                n == base@.len() <= self@.len(),
                i <= n,
                forall|j: int| 0 <= j < i ==> self@[j] == base@[j],
            decreases n - i,
        {
            if !same_component(&self.comps[i], &base.comps[i]) {
                assert(self@.subrange(0, n as int)[i as int] != base@[i as int]);
                return None;
            }
            i = i + 1;
        }
        assert(self@.subrange(0, n as int) =~= base@);
        let mut q = FsPath::empty();
        let mut k: usize = n;
        while k < self.comps.len()
            invariant
                n <= k <= self@.len(),
                q@ == self@.subrange(n as int, k as int),
            decreases self@.len() - k,
        {
            q.push_comp(self.comps[k].duplicate());
            assert(q@ =~= self@.subrange(n as int, k + 1));
            k = k + 1;
        }
        assert(q@ =~= self@.skip(n as int));
        Some(q)
    }

    /// The last component, if it is a name.
    pub fn file_name(&self) -> (r: Option<String>)
        ensures
            match r {
                Some(s) => spec_file_name(self@) == Some(s@),
                None => spec_file_name(self@) is None,
            },
    {
        let n = self.comps.len();
        if n == 0 {
            return None;
        }
        match &self.comps[n - 1] {
            PathComponent::Normal(s) => Some(s.clone()),
            _ => None,
        }
    }

    /// The extension of the file name, as `Path::extension` gives it.
    pub fn extension(&self) -> (r: Option<String>)
        ensures
            match r {
                Some(e) => spec_extension(self@) == Some(e@),
                None => spec_extension(self@) is None,
            },
    {
        match self.file_name() {
            Some(name) => name_extension(name.as_str()),
            None => None,
        }
    }

    /// The stem of the file name, as `Path::file_stem` gives it.
    pub fn file_stem(&self) -> (r: Option<String>)
        ensures
            match r {
                Some(e) => spec_file_stem(self@) == Some(e@),
                None => spec_file_stem(self@) is None,
            },
    {
        match self.file_name() {
            Some(name) => Some(name_stem(name.as_str())),
            None => None,
        }
    }

    /// This path without its last component, as `Path::parent` gives it.
    pub fn parent(&self) -> (r: Option<FsPath>)
        ensures
            match r {
                Some(q) => spec_parent(self@) == Some(q@),
                None => spec_parent(self@) is None,
            },
    {
        let n = self.comps.len();
        if n == 0 {
            return None;
        }
        match &self.comps[n - 1] {
            PathComponent::RootDir => None,
            _ => {
                let mut q = FsPath::empty();
                let mut k: usize = 0;
                while k < n - 1
                    invariant
                        n == self@.len(),
                        k <= n - 1,
                        q@ == self@.subrange(0, k as int),
                    decreases n - 1 - k,
                {
                    q.push_comp(self.comps[k].duplicate());
                    assert(q@ =~= self@.subrange(0, k + 1));
                    k = k + 1;
                }
                assert(q@ =~= self@.drop_last());
                Some(q)
            },
        }
    }
}
/// The text of `base` with `name` pushed onto it, as `PathBuf::push` writes it
/// on Unix: a rooted `name`, or an empty `base`, gives `name`; otherwise a `/`
/// separates them unless `base` already ends with one.
pub open spec fn spec_join_text(base: Seq<char>, name: Seq<char>) -> Seq<char> {
    if is_rooted(name) || base.len() == 0 {
        name
    } else if base.last() == '/' {
        base + name
    } else {
        base + seq!['/'] + name
    }
}

/// The text of `base` joined with `name`.
pub fn join_text(base: &str, name: &str) -> (r: String)
    ensures
        r@ == spec_join_text(base@, name@),
{
    let b = chars_of(base);
    let n = chars_of(name);
    if (n.len() > 0 && n[0] == '/') || b.len() == 0 {
        return String::from_str(name);
    }
    let mut r = String::from_str(base);
    if b[b.len() - 1] != '/' {
        push_char(&mut r, '/');
    }
    r.append(name);
    proof {
        if base@.last() == '/' {
            assert(r@ =~= base@ + name@);
        } else {
            assert(r@ =~= base@ + seq!['/'] + name@);
        }
    }
    r
}

/// The text of a path: its components pushed one after another, as
/// `PathBuf::push` writes them.
pub open spec fn spec_render(p: Seq<Comp>) -> Seq<char>
    decreases p.len(),
{
    if p.len() == 0 {
        seq![]
    } else {
        let r = spec_render(p.drop_last());
        match p.last() {
            Comp::Root => r + seq!['/'],
            c => if r.len() == 0 || r.last() == '/' {
                r + comp_text(c)
            } else {
                r + seq!['/'] + comp_text(c)
            },
        }
    }
}

impl FsPath {
    /// The text of this path.
    pub fn to_text(&self) -> (s: String)
        ensures
            s@ == spec_render(self@),
    {
        let mut s = String::new();
        let mut i: usize = 0;
        while i < self.comps.len()
            invariant
                i <= self.comps@.len(),
                s@ == spec_render(self@.take(i as int)),
            decreases self.comps@.len() - i,
        {
            let ghost before = s@;
            let ghost t = self@.take(i + 1);
            assert(t.drop_last() =~= self@.take(i as int));
            assert(t.last() == self.comps@[i as int]@);
            match &self.comps[i] {
                PathComponent::RootDir => {
                    push_char(&mut s, '/');
                },
                c => {
                    let n = s.unicode_len();
                    if n > 0 {
                        let last = s.as_str().get_char(n - 1);
                        if last != '/' {
                            push_char(&mut s, '/');
                        }
                    }
                    let text = c.text();
                    s.append(text.as_str());
                },
            }
            assert(s@ =~= spec_render(t));
            i = i + 1;
        }
        assert(self@.take(self.comps@.len() as int) =~= self@);
        s
    }
}

proof fn lemma_scan_prefix(x: Seq<char>, s: Seq<char>, i: int)
    requires
        0 <= i <= s.len(),
        s.len() <= x.len(),
        x.subrange(0, s.len() as int) == s,
    ensures
        scan(x, i) == scan(s, i),
    decreases i,
{
    if i > 0 {
        lemma_scan_prefix(x, s, i - 1);
        assert(x[i - 1] == x.subrange(0, s.len() as int)[i - 1]);
    }
}

/// Splitting `s`, a `/` and `t` gives the parts of `s` followed by those of `t`.
proof fn lemma_split_concat(s: Seq<char>, t: Seq<char>, k: int)
    requires
        0 <= k <= t.len(),
    ensures
        ({
            let x = s + seq!['/'] + t;
            scan(x, s.len() + 1 + k) == (
                split_parts(s) + scan(t, k).0,
                scan(t, k).1,
            )
        }),
    decreases k,
{
    let x = s + seq!['/'] + t;
    if k == 0 {
        assert(x.subrange(0, s.len() as int) =~= s);
        lemma_scan_prefix(x, s, s.len() as int);
        assert(x[s.len() as int] == '/');
        assert(split_parts(s) + Seq::<Seq<char>>::empty() =~= split_parts(s));
    } else {
        lemma_split_concat(s, t, k - 1);
        assert(x[s.len() + 1 + k - 1] == t[k - 1]);
        let (d, c) = scan(t, k - 1);
        if t[k - 1] == '/' {
            assert(split_parts(s) + d.push(c) =~= (split_parts(s) + d).push(c));
        }
    }
}

proof fn lemma_comps_concat(p: Seq<Seq<char>>, q: Seq<Seq<char>>, allow_cur: bool)
    requires
        p.len() > 0,
    ensures
        comps_of_parts(p + q, allow_cur) == comps_of_parts(p, allow_cur) + comps_of_parts(
            q,
            false,
        ),
    decreases q.len(),
{
    if q.len() == 0 {
        assert(p + q =~= p);
        assert(comps_of_parts(p, allow_cur) + Seq::<Comp>::empty() =~= comps_of_parts(p, allow_cur));
    } else {
        let q1 = q.drop_last();
        lemma_comps_concat(p, q1, allow_cur);
        assert((p + q).drop_last() =~= p + q1);
        assert((p + q).last() == q.last());
        assert(comps_of_parts(p, allow_cur) + comps_of_parts(q1, false) + part_comp(q.last(), false)
            =~= comps_of_parts(p, allow_cur) + (comps_of_parts(q1, false) + part_comp(q.last(), false)));
    }
}

/// The components of `s`, a `/` and `t`, for a non-empty `s`: those of `s`,
/// then those of the parts of `t`, where a leading `.` no longer counts.
proof fn lemma_components_sep(s: Seq<char>, t: Seq<char>)
    requires
        s.len() > 0,
    ensures
        spec_components(s + seq!['/'] + t) == spec_components(s) + comps_of_parts(
            split_parts(t),
            false,
        ),
{
    let x = s + seq!['/'] + t;
    lemma_split_concat(s, t, t.len() as int);
    assert(split_parts(x) =~= split_parts(s) + split_parts(t));
    lemma_comps_concat(split_parts(s), split_parts(t), true);
    assert(x[0] == s[0]);
    assert(spec_components(x) =~= spec_components(s) + comps_of_parts(split_parts(t), false));
}

proof fn lemma_empty_text_parts()
    ensures
        split_parts(Seq::<char>::empty()) == seq![Seq::<char>::empty()],
        comps_of_parts(seq![Seq::<char>::empty()], true) == Seq::<Comp>::empty(),
        comps_of_parts(seq![Seq::<char>::empty()], false) == Seq::<Comp>::empty(),
        spec_components(Seq::<char>::empty()) == Seq::<Comp>::empty(),
{
    let e = Seq::<char>::empty();
    assert(scan(e, 0) == (Seq::<Seq<char>>::empty(), e));
    assert(split_parts(e) =~= seq![e]);
    assert(seq![e].drop_last() =~= Seq::<Seq<char>>::empty());
    assert(seq![e].last() == e);
    assert(part_comp(e, true) == Seq::<Comp>::empty());
    assert(part_comp(e, false) == Seq::<Comp>::empty());
    assert(comps_of_parts(seq![e], true) == comps_of_parts(Seq::<Seq<char>>::empty(), true)
        + part_comp(e, true));
    assert(comps_of_parts(seq![e], false) == comps_of_parts(Seq::<Seq<char>>::empty(), false)
        + part_comp(e, false && true));
    assert(comps_of_parts(seq![e], true) =~= Seq::<Comp>::empty());
    assert(comps_of_parts(seq![e], false) =~= Seq::<Comp>::empty());
    assert(!is_rooted(e));
    assert(spec_components(e) =~= Seq::<Comp>::empty());
}

/// The components of `/` and `t`: the root, then those of the parts of `t`,
/// where a leading `.` no longer counts.
proof fn lemma_components_root_sep(t: Seq<char>)
    ensures
        spec_components(seq!['/'] + t) == seq![Comp::Root] + comps_of_parts(split_parts(t), false),
{
    let e = Seq::<char>::empty();
    let x = e + seq!['/'] + t;
    assert(x =~= seq!['/'] + t);
    lemma_split_concat(e, t, t.len() as int);
    lemma_empty_text_parts();
    assert(split_parts(x) =~= seq![e] + split_parts(t));
    lemma_comps_concat(seq![e], split_parts(t), true);
    assert(is_rooted(x));
    assert(spec_components(x) =~= seq![Comp::Root] + comps_of_parts(split_parts(t), false));
}

/// A text with something in it has at least one component.
proof fn lemma_nonempty_text_has_component(s: Seq<char>)
    requires
        s.len() > 0,
    ensures
        spec_components(s).len() > 0,
    decreases s.len(),
{
    if is_rooted(s) {
        assert(spec_components(s)[0] == Comp::Root);
    } else if forall|j: int| 0 <= j < s.len() ==> s[j] != '/' {
        lemma_scan_no_sep(s, s.len() as int);
        assert(s.take(s.len() as int) =~= s);
        assert(split_parts(s) =~= seq![s]);
        assert(seq![s].drop_last() =~= Seq::<Seq<char>>::empty());
        assert(comps_of_parts(seq![s], true) == comps_of_parts(Seq::<Seq<char>>::empty(), true)
            + part_comp(s, true));
        assert(part_comp(s, true).len() > 0);
    } else {
        let j = choose|j: int| 0 <= j < s.len() && s[j] == '/';
        assert(j > 0);
        let a = s.take(j);
        let t = s.skip(j + 1);
        assert(s =~= a + seq!['/'] + t);
        lemma_nonempty_text_has_component(a);
        lemma_components_sep(a, t);
    }
}

/// Joining text as `PathBuf::push` does and then taking components is joining
/// components: the two ways of building a path agree.
pub proof fn law_join_text_matches_join(base: Seq<char>, name: Seq<char>)
    ensures
        spec_components(spec_join_text(base, name)) == spec_join(spec_components(base), name),
{
    if is_rooted(name) || base.len() == 0 {
        if base.len() == 0 {
            lemma_empty_text_parts();
        }
    } else {
        lemma_nonempty_text_has_component(base);
        assert(parse_comps(name, false) =~= comps_of_parts(split_parts(name), false));
        if base.last() == '/' {
            let b1 = base.drop_last();
            let e = Seq::<char>::empty();
            assert(base =~= b1 + seq!['/'] + e);
            assert(base + name =~= b1 + seq!['/'] + name);
            lemma_empty_text_parts();
            if b1.len() > 0 {
                lemma_components_sep(b1, e);
                lemma_components_sep(b1, name);
                assert(spec_components(b1) + Seq::<Comp>::empty() =~= spec_components(b1));
            } else {
                assert(base =~= seq!['/'] + e);
                assert(base + name =~= seq!['/'] + name);
                lemma_components_root_sep(e);
                lemma_components_root_sep(name);
            }
        } else {
            lemma_components_sep(base, name);
        }
    }
}

/// A text without `/` is one part.
proof fn lemma_single_part(t: Seq<char>, allow_cur: bool)
    requires
        forall|i: int| 0 <= i < t.len() ==> t[i] != '/',
    ensures
        parse_comps(t, allow_cur) == part_comp(t, allow_cur),
{
    lemma_scan_no_sep(t, t.len() as int);
    assert(t.take(t.len() as int) =~= t);
    assert(split_parts(t) =~= seq![t]);
    assert(seq![t].drop_last() =~= Seq::<Seq<char>>::empty());
    assert(comps_of_parts(seq![t], allow_cur) == comps_of_parts(Seq::<Seq<char>>::empty(), allow_cur)
        + part_comp(t, allow_cur && true));
    if t.len() > 0 {
        assert(!is_rooted(t));
    }
    assert(parse_comps(t, allow_cur) =~= part_comp(t, allow_cur));
}

/// A path as parsing gives it: the root and `.` only first, and names that
/// are plain.
pub open spec fn is_normal_path(p: Seq<Comp>) -> bool {
    forall|i: int|
        0 <= i < p.len() ==> match #[trigger] p[i] {
            Comp::Root => i == 0,
            Comp::Cur => i == 0,
            Comp::Parent => true,
            Comp::Normal(n) => is_plain_name(n),
        }
}

/// The text of a path, parsed again, is that path: the text that an
/// `FsPath` is handed on as names the same path.
pub proof fn law_text_names_same_path(p: Seq<Comp>)
    requires
        is_normal_path(p),
    ensures
        spec_components(spec_render(p)) == p,
    decreases p.len(),
{
    if p.len() == 0 {
        lemma_empty_text_parts();
    } else {
        let q = p.drop_last();
        let c = p.last();
        assert(is_normal_path(q)) by {
            assert forall|i: int| 0 <= i < q.len() implies match #[trigger] q[i] {
                Comp::Root => i == 0,
                Comp::Cur => i == 0,
                Comp::Parent => true,
                Comp::Normal(n) => is_plain_name(n),
            } by {
                assert(q[i] == p[i]);
            }
        }
        law_text_names_same_path(q);
        let r = spec_render(q);
        assert(match p[p.len() - 1] {
            Comp::Root => p.len() - 1 == 0,
            Comp::Cur => p.len() - 1 == 0,
            Comp::Parent => true,
            Comp::Normal(n) => is_plain_name(n),
        });
        match c {
            Comp::Root => {
                assert(q.len() == 0);
                lemma_empty_text_parts();
                assert(r == Seq::<char>::empty());
                let e = Seq::<char>::empty();
                lemma_components_root_sep(e);
                assert(seq!['/'] + e =~= seq!['/']);
                assert(r + seq!['/'] =~= seq!['/']);
                assert(seq![Comp::Root] + Seq::<Comp>::empty() =~= p);
            },
            _ => {
                let t = comp_text(c);
                assert(!is_rooted(t));
                assert(forall|i: int| 0 <= i < t.len() ==> t[i] != '/');
                assert(spec_render(p) == spec_join_text(r, t)) by {
                    if r.len() == 0 {
                        assert(r + t =~= t);
                    }
                }
                law_join_text_matches_join(r, t);
                if q.len() == 0 {
                    lemma_single_part(t, true);
                    match c {
                        Comp::Normal(n) => {
                            assert(!(n.len() == 1 && n[0] == '.'));
                        },
                        _ => {},
                    }
                    assert(p =~= seq![c]);
                } else {
                    lemma_single_part(t, false);
                    match c {
                        Comp::Normal(n) => {
                            assert(!(n.len() == 1 && n[0] == '.'));
                        },
                        _ => {},
                    }
                    assert(q + part_comp(t, false) =~= p);
                }
            },
        }
    }
}

pub open spec fn no_sep(t: Seq<char>) -> bool {
    forall|i: int| 0 <= i < t.len() ==> t[i] != '/'
}

proof fn lemma_scan_parts_no_sep(s: Seq<char>, i: int)
    requires
        0 <= i <= s.len(),
    ensures
        no_sep(scan(s, i).1),
        forall|k: int| 0 <= k < scan(s, i).0.len() ==> no_sep(#[trigger] scan(s, i).0[k]),
    decreases i,
{
    if i > 0 {
        lemma_scan_parts_no_sep(s, i - 1);
        let (d, c) = scan(s, i - 1);
        if s[i - 1] == '/' {
            assert forall|k: int| 0 <= k < d.push(c).len() implies no_sep(#[trigger] d.push(c)[k]) by {
                if k < d.len() {
                    assert(d.push(c)[k] == d[k]);
                }
            }
        } else {
            let c2 = c.push(s[i - 1]);
            assert forall|j: int| 0 <= j < c2.len() implies #[trigger] c2[j] != '/' by {
                if j < c.len() {
                    assert(c2[j] == c[j]);
                }
            }
        }
    }
}

proof fn lemma_split_parts_no_sep(s: Seq<char>)
    ensures
        forall|k: int| 0 <= k < split_parts(s).len() ==> no_sep(#[trigger] split_parts(s)[k]),
{
    lemma_scan_parts_no_sep(s, s.len() as int);
    let (d, c) = scan(s, s.len() as int);
    assert forall|k: int| 0 <= k < split_parts(s).len() implies no_sep(#[trigger] split_parts(s)[k]) by {
        if k < d.len() {
            assert(split_parts(s)[k] == d[k]);
        } else {
            assert(split_parts(s)[k] == c);
        }
    }
}

/// What the components of parts without `/` look like: no root, `.` only
/// first and only where it may stand, and plain names.
pub open spec fn comps_shape(r: Seq<Comp>, allow_cur: bool) -> bool {
    forall|j: int|
        0 <= j < r.len() ==> match #[trigger] r[j] {
            Comp::Root => false,
            Comp::Cur => j == 0 && allow_cur,
            Comp::Parent => true,
            Comp::Normal(n) => is_plain_name(n),
        }
}

proof fn lemma_comps_shape(parts: Seq<Seq<char>>, allow_cur: bool)
    requires
        forall|k: int| 0 <= k < parts.len() ==> no_sep(#[trigger] parts[k]),
    ensures
        comps_shape(comps_of_parts(parts, allow_cur), allow_cur),
    decreases parts.len(),
{
    if parts.len() > 0 {
        let p1 = parts.drop_last();
        assert forall|k: int| 0 <= k < p1.len() implies no_sep(#[trigger] p1[k]) by {
            assert(p1[k] == parts[k]);
        }
        lemma_comps_shape(p1, allow_cur);
        let before = comps_of_parts(p1, allow_cur);
        let last = parts.last();
        assert(no_sep(parts[parts.len() - 1]));
        let extra = part_comp(last, allow_cur && parts.len() == 1);
        let r = before + extra;
        assert forall|j: int| 0 <= j < r.len() implies match #[trigger] r[j] {
            Comp::Root => false,
            Comp::Cur => j == 0 && allow_cur,
            Comp::Parent => true,
            Comp::Normal(n) => is_plain_name(n),
        } by {
            if j < before.len() {
                assert(r[j] == before[j]);
            } else {
                assert(r[j] == extra[j - before.len()]);
                if parts.len() == 1 {
                    assert(p1.len() == 0);
                    assert(before.len() == 0);
                }
            }
        }
    }
}

/// Parsing gives a normal path.
pub proof fn lemma_parse_is_normal(s: Seq<char>)
    ensures
        is_normal_path(spec_components(s)),
{
    if is_rooted(s) {
        let t = s.skip(1);
        assert(s =~= seq!['/'] + t);
        lemma_components_root_sep(t);
        lemma_split_parts_no_sep(t);
        lemma_comps_shape(split_parts(t), false);
        let c = comps_of_parts(split_parts(t), false);
        let r = seq![Comp::Root] + c;
        assert forall|i: int| 0 <= i < r.len() implies match #[trigger] r[i] {
            Comp::Root => i == 0,
            Comp::Cur => i == 0,
            Comp::Parent => true,
            Comp::Normal(n) => is_plain_name(n),
        } by {
            if i > 0 {
                assert(r[i] == c[i - 1]);
            }
        }
    } else {
        lemma_split_parts_no_sep(s);
        lemma_comps_shape(split_parts(s), true);
        assert(spec_components(s) =~= comps_of_parts(split_parts(s), true));
    }
}

/// Writing a parsed path out and parsing the text again gives the same path,
/// whatever text it was parsed from.
pub proof fn law_parse_render_stable(s: Seq<char>)
    ensures
        spec_components(spec_render(spec_components(s))) == spec_components(s),
{
    lemma_parse_is_normal(s);
    law_text_names_same_path(spec_components(s));
}

/// Joining keeps a path normal, so every path built from text by parsing and
/// joining is written out and read back as itself.
pub proof fn law_join_keeps_normal(p: Seq<Comp>, s: Seq<char>)
    requires
        is_normal_path(p),
    ensures
        is_normal_path(spec_join(p, s)),
        spec_components(spec_render(spec_join(p, s))) == spec_join(p, s),
{
    if is_rooted(s) || p.len() == 0 {
        lemma_parse_is_normal(s);
    } else {
        lemma_split_parts_no_sep(s);
        lemma_comps_shape(split_parts(s), false);
        let c = comps_of_parts(split_parts(s), false);
        assert(parse_comps(s, false) =~= c);
        let r = p + c;
        assert forall|i: int| 0 <= i < r.len() implies match #[trigger] r[i] {
            Comp::Root => i == 0,
            Comp::Cur => i == 0,
            Comp::Parent => true,
            Comp::Normal(n) => is_plain_name(n),
        } by {
            if i < p.len() {
                assert(r[i] == p[i]);
            } else {
                assert(r[i] == c[i - p.len()]);
            }
        }
    }
    law_text_names_same_path(spec_join(p, s));
}

} // verus!
