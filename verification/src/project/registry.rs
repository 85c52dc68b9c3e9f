use vstd::prelude::*;

use crate::path::{
    all_named, chars_of, components, file_name_of, is_normal, last_dot, last_dot_index, join, join_parts, join_slash, lemma_components_append,
    lemma_components_empty, lemma_components_join_named, lemma_components_shape, no_slash, path_components,
    rebuild, spec_join,
};
use crate::model::library::new_uuid_string;
use crate::sys::{config_dir, config_reply, io_error_other, lemma_config_reply, path_exists, push_char, utc_now_nanos};
use crate::project::bundle::project::REGISTRY_FILE;
use crate::text::{str_eq, views};

verus! {

/// The components left after resolving `cs` lexically: `.` is dropped, `..`
/// removes a preceding normal component (otherwise it is kept), anything else
/// is kept.
pub open spec fn resolve_dots(cs: Seq<Seq<char>>) -> Seq<Seq<char>>
    decreases cs.len(),
{
    if cs.len() == 0 {
        Seq::empty()
    } else {
        let prev = resolve_dots(cs.drop_last());
        let c = cs.last();
        if c == seq!['.'] {
            prev
        } else if c == seq!['.', '.'] {
            if prev.len() > 0 && is_normal(prev.last()) {
                prev.drop_last()
            } else {
                prev.push(c)
            }
        } else {
            prev.push(c)
        }
    }
}

/// The lexically normalized text of a `/`-separated path.
pub open spec fn spec_normalize_path(path: Seq<char>) -> Seq<char> {
    rebuild(resolve_dots(components(path)))
}

/// Lexically normalize a path for use as a de-duplication key, without touching
/// the file system: `.` segments go, `..` pops the previous named segment (never
/// past the root), repeated and trailing separators go.
pub fn normalize_path(path: &str) -> (r: String)
    ensures
        r@ == spec_normalize_path(path@),
{
    let comps = path_components(path);
    let n = comps.len();
    let mut out: Vec<String> = Vec::new();
    let mut i: usize = 0;
    while i < n
        invariant
            n == comps@.len(),
            i <= n,
            views(out@) == resolve_dots(views(comps@).take(i as int)),
        decreases n - i,
    {
        let ghost before = views(out@);
        proof {
            assert(views(comps@).take(i + 1).drop_last() =~= views(comps@).take(i as int));
            assert(views(comps@).take(i + 1).last() == comps@[i as int]@);
            reveal_strlit(".");
            reveal_strlit("..");
            reveal_strlit("/");
            assert("."@ =~= seq!['.']);
            assert(".."@ =~= seq!['.', '.']);
            assert("/"@ =~= seq!['/']);
        }
        let c = comps[i].as_str();
        if str_eq(c, ".") {
        } else if str_eq(c, "..") {
            let last_is_normal = if out.len() > 0 {
                let l = out[out.len() - 1].as_str();
                !str_eq(l, "/") && !str_eq(l, ".") && !str_eq(l, "..")
            } else {
                false
            };
            if last_is_normal {
                out.pop();
                proof {
                    assert(views(out@) =~= before.drop_last());
                }
            } else {
                out.push(comps[i].clone());
                proof {
                    assert(views(out@) =~= before.push(comps@[i as int]@));
                }
            }
        } else {
            out.push(comps[i].clone());
            proof {
                assert(views(out@) =~= before.push(comps@[i as int]@));
            }
        }
        i = i + 1;
    }
    proof {
        assert(views(comps@).take(n as int) =~= views(comps@));
    }
    let rooted = out.len() > 0 && str_eq(out[0].as_str(), "/");
    proof {
        reveal_strlit("/");
        assert("/"@ =~= seq!['/']);
    }
    if rooted {
        let mut rest: Vec<String> = Vec::new();
        let m = out.len();
        let mut j: usize = 1;
        while j < m
            invariant
                m == out@.len(),
                1 <= j <= m,
                views(rest@) == views(out@).subrange(1, j as int),
            decreases m - j,
        {
            let ghost b = views(rest@);
            rest.push(out[j].clone());
            proof {
                assert(views(rest@) =~= b.push(out@[j as int]@));
                assert(views(out@)[j as int] == out@[j as int]@);
                assert(views(rest@) =~= views(out@).subrange(1, j + 1));
            }
            j = j + 1;
        }
        proof {
            assert(views(out@).subrange(1, m as int) =~= views(out@).drop_first());
        }
        let joined = join_parts(&rest);
        let mut s = String::from_str("/");
        s.append(joined.as_str());
        proof {
            assert(s@ =~= seq!['/'] + joined@);
        }
        s
    } else {
        join_parts(&out)
    }
}

/// Moves a path to the platform trash.
pub trait Trasher {
    /// Move `path` to the trash; succeeds when the path is already gone.
    fn trash(&self, path: &str) -> Result<(), std::io::Error>;
}

/// Calls `trash::delete`, mapping its error to its message. Whether and how the
/// move succeeds depends on the file system and desktop, so nothing is stated.
#[verifier::external_body]
fn trash_delete(path: &str) -> Result<(), String> {
    trash::delete(path).map_err(|e| e.to_string())
}

/// The trasher that moves paths to the real platform trash.
#[derive(Debug, Default, Clone, Copy)]
pub struct SystemTrasher;

impl Trasher for SystemTrasher {
    fn trash(&self, path: &str) -> Result<(), std::io::Error> {
        if !path_exists(path) {
            return Ok(());
        }
        match trash_delete(path) {
            Ok(()) => Ok(()),
            Err(m) => Err(io_error_other(m.as_str())),
        }
    }
}

// ---------------------------------------------------------------------------
// Known projects
// ---------------------------------------------------------------------------

/// The stem of a file name: the whole name when it has no `.` except perhaps
/// a leading one; otherwise the part before the last `.`.
pub open spec fn stem_of(name: Seq<char>) -> Seq<char> {
    if last_dot(name) <= 0 {
        name
    } else {
        name.take(last_dot(name))
    }
}

/// A project the user has opened: its id, its bundle path and when it was
/// created and last opened (nanoseconds since the Unix epoch).
#[derive(Debug, Clone, PartialEq, Eq)]
pub struct ProjectEntry {
    pub id: String,
    pub url: String,
    pub created_date: i128,
    pub last_opened_date: i128,
}

/// An entry as values: id, path, created date, last-opened date.
pub open spec fn entry_view(e: ProjectEntry) -> (Seq<char>, Seq<char>, i128, i128) {
    (e.id@, e.url@, e.created_date, e.last_opened_date)
}

/// Entries as values.
pub open spec fn entry_views(es: Seq<ProjectEntry>) -> Seq<(Seq<char>, Seq<char>, i128, i128)> {
    es.map_values(|e: ProjectEntry| entry_view(e))
}

/// The de-duplication key of an entry: its normalized path.
pub open spec fn entry_key(e: ProjectEntry) -> Seq<char> {
    spec_normalize_path(e.url@)
}

/// The de-duplication key of an entry view.
pub open spec fn view_key(v: (Seq<char>, Seq<char>, i128, i128)) -> Seq<char> {
    spec_normalize_path(v.1)
}

impl ProjectEntry {
    /// The project's display name: the bundle path's file stem (empty when
    /// the path has no file name).
    pub fn name(&self) -> (r: String)
        ensures
            r@ == match file_name_of(self.url@) {
                Some(n) => stem_of(n),
                None => Seq::empty(),
            },
    {
        let cs = path_components(self.url.as_str());
        let n = cs.len();
        if n == 0 {
            return String::new();
        }
        let last = cs[n - 1].as_str();
        let is_named = !str_eq(last, "/") && !str_eq(last, ".") && !str_eq(last, "..");
        proof {
            assert(views(cs@).last() == cs@[n - 1]@);
            reveal_strlit("/");
            reveal_strlit(".");
            reveal_strlit("..");
            assert("/"@ =~= seq!['/']);
            assert("."@ =~= seq!['.']);
            assert(".."@ =~= seq!['.', '.']);
        }
        if !is_named {
            return String::new();
        }
        let chars = chars_of(last);
        let mut out = String::new();
        let end = match last_dot_index(&chars) {
            Some(i) => if i == 0 {
                chars.len()
            } else {
                i
            },
            None => chars.len(),
        };
        let mut k: usize = 0;
        while k < end
            invariant
                end <= chars@.len(),
                k <= end,
                out@ == chars@.take(k as int),
            decreases end - k,
        {
            push_char(&mut out, chars[k]);
            assert(chars@.take(k + 1) =~= chars@.take(k as int).push(chars@[k as int]));
            k = k + 1;
        }
        assert(chars@.take(chars@.len() as int) =~= chars@);
        out
    }

    /// The entry's de-duplication key: its normalized path.
    pub fn dedup_key(&self) -> (r: String)
        ensures
            r@ == entry_key(*self),
    {
        normalize_path(self.url.as_str())
    }

    /// Whether the bundle still exists on disk.
    pub fn is_accessible(&self) -> bool {
        path_exists(self.url.as_str())
    }
}

/// The index of the first entry whose key is `key` (the length when none).
pub open spec fn first_with_key(vs: Seq<(Seq<char>, Seq<char>, i128, i128)>, key: Seq<char>, i: int) -> int
    decreases vs.len() - i,
{
    if i < 0 || i >= vs.len() {
        vs.len() as int
    } else if view_key(vs[i]) == key {
        i
    } else {
        first_with_key(vs, key, i + 1)
    }
}

/// Registering `url` at time `now` with a fresh `id`: the first entry with
/// the same normalized path is re-opened (its last-opened date becomes `now`);
/// otherwise a new entry is appended.
pub open spec fn registered(
    vs: Seq<(Seq<char>, Seq<char>, i128, i128)>,
    url: Seq<char>,
    now: i128,
    id: Seq<char>,
) -> Seq<(Seq<char>, Seq<char>, i128, i128)> {
    let k = first_with_key(vs, spec_normalize_path(url), 0);
    if k < vs.len() {
        vs.update(k, (vs[k].0, vs[k].1, vs[k].2, now))
    } else {
        vs.push((id, url, now, now))
    }
}

/// The entries left after removing every entry with the normalized path of `url`.
pub open spec fn removed(vs: Seq<(Seq<char>, Seq<char>, i128, i128)>, url: Seq<char>) -> Seq<
    (Seq<char>, Seq<char>, i128, i128),
>
    decreases vs.len(),
{
    if vs.len() == 0 {
        Seq::empty()
    } else {
        let rest = removed(vs.drop_last(), url);
        if view_key(vs.last()) == spec_normalize_path(url) {
            rest
        } else {
            rest.push(vs.last())
        }
    }
}

/// Moving the bundle at `old` to `new` at time `now`: the first entry with the
/// normalized path of `old` takes `new` as its path and `now` as its
/// last-opened date; nothing changes when there is none.
pub open spec fn url_updated(
    vs: Seq<(Seq<char>, Seq<char>, i128, i128)>,
    old: Seq<char>,
    new: Seq<char>,
    now: i128,
) -> Seq<(Seq<char>, Seq<char>, i128, i128)> {
    let k = first_with_key(vs, spec_normalize_path(old), 0);
    if k < vs.len() {
        vs.update(k, (vs[k].0, new, vs[k].2, now))
    } else {
        vs
    }
}

/// `v` inserted into `sorted` after every entry opened at the same time or later.
pub open spec fn insert_by_recency(
    sorted: Seq<(Seq<char>, Seq<char>, i128, i128)>,
    v: (Seq<char>, Seq<char>, i128, i128),
) -> Seq<(Seq<char>, Seq<char>, i128, i128)>
    decreases sorted.len(),
{
    if sorted.len() == 0 {
        seq![v]
    } else if sorted.last().3 >= v.3 {
        sorted.push(v)
    } else {
        insert_by_recency(sorted.drop_last(), v).push(sorted.last())
    }
}

/// The entries ordered most recently opened first; entries opened at the same
/// time keep their order.
pub open spec fn by_recency(vs: Seq<(Seq<char>, Seq<char>, i128, i128)>) -> Seq<
    (Seq<char>, Seq<char>, i128, i128),
>
    decreases vs.len(),
{
    if vs.len() == 0 {
        Seq::empty()
    } else {
        insert_by_recency(by_recency(vs.drop_last()), vs.last())
    }
}

/// No two entries share a normalized path.
pub open spec fn unique_keys(vs: Seq<(Seq<char>, Seq<char>, i128, i128)>) -> bool {
    forall|i: int, j: int| 0 <= i < j < vs.len() ==> view_key(#[trigger] vs[i]) != view_key(#[trigger] vs[j])
}

proof fn lemma_first_with_key(vs: Seq<(Seq<char>, Seq<char>, i128, i128)>, key: Seq<char>, i: int)
    requires
        0 <= i <= vs.len(),
    ensures
        i <= first_with_key(vs, key, i) <= vs.len(),
        first_with_key(vs, key, i) < vs.len() ==> view_key(vs[first_with_key(vs, key, i)]) == key,
        forall|j: int| i <= j < first_with_key(vs, key, i) ==> view_key(#[trigger] vs[j]) != key,
    decreases vs.len() - i,
{
    if i < vs.len() && view_key(vs[i]) != key {
        lemma_first_with_key(vs, key, i + 1);
    }
}

/// The registry of known projects: where it is stored and its entries. The
/// file and the trash are handled by the caller.
#[derive(Debug, Clone)]
pub struct ProjectRegistry {
    path: String,
    entries: Vec<ProjectEntry>,
}

fn position_of_key(entries: &Vec<ProjectEntry>, key: &str) -> (r: usize)
    ensures
        r == first_with_key(entry_views(entries@), key@, 0),
{
    let ghost vs = entry_views(entries@);
    let n = entries.len();
    let mut i: usize = 0;
    while i < n
        invariant
            n == entries@.len(),
            vs == entry_views(entries@),
            i <= n,
            first_with_key(vs, key@, 0) == first_with_key(vs, key@, i as int),
        decreases n - i,
    {
        let k = entries[i].dedup_key();
        assert(vs[i as int] == entry_view(entries@[i as int]));
        if str_eq(k.as_str(), key) {
            return i;
        }
        i = i + 1;
    }
    i
}

/// The registry file under a configuration directory:
/// `<config>/palmier-pro/project-registry.json`.
pub open spec fn registry_file_under(config: Seq<char>) -> Seq<char> {
    spec_join(spec_join(config, "palmier-pro"@), REGISTRY_FILE@)
}

/// Joining a named part onto a path appends that part to its components.
proof fn lemma_components_join_name(base: Seq<char>, name: Seq<char>)
    requires
        name.len() > 0,
        name != seq!['.'],
        no_slash(name),
    ensures
        components(spec_join(base, name)) == components(base) + seq![name],
{
    let parts = seq![name];
    assert(all_named(parts));
    assert(join_slash(parts) == name) by {
        reveal_with_fuel(join_slash, 2);
        assert(parts.drop_last().len() == 0);
    }
    if base.len() == 0 {
        lemma_components_empty(base);
        lemma_components_join_named(parts);
        assert(spec_join(base, name) =~= name);
        assert(components(base) + parts =~= parts);
    } else if base.last() == '/' {
        let a = base.drop_last();
        assert(spec_join(base, name) =~= a + seq!['/'] + join_slash(parts));
        lemma_components_append(a, parts);
        lemma_components_append(a, Seq::empty());
        assert(a + seq!['/'] + join_slash(Seq::<Seq<char>>::empty()) =~= base);
        let head = if a.len() == 0 {
            seq![seq!['/']]
        } else {
            components(a)
        };
        assert(components(base) =~= head + Seq::<Seq<char>>::empty());
    } else {
        assert(name[0] != '/');
        assert(spec_join(base, name) =~= base + seq!['/'] + join_slash(parts));
        lemma_components_append(base, parts);
    }
}

/// The registry file lies exactly two named components below the directory
/// it is placed under: the `palmier-pro` folder, then the registry file.
proof fn lemma_registry_file_components(config: Seq<char>)
    ensures
        components(registry_file_under(config)) == components(config) + seq!["palmier-pro"@, REGISTRY_FILE@],
{
    reveal_strlit("palmier-pro");
    reveal_strlit("project-registry.json");
    let app = "palmier-pro"@;
    let file = REGISTRY_FILE@;
    assert(app.len() > 0 && app != seq!['.'] && no_slash(app)) by {
        assert(app[0] != seq!['.'][0] || app.len() != 1);
    }
    assert(file.len() > 0 && file != seq!['.'] && no_slash(file)) by {
        assert(file.len() != 1);
    }
    lemma_components_join_name(config, app);
    lemma_components_join_name(spec_join(config, app), file);
    assert(components(config) + seq![app] + seq![file] =~= components(config) + seq![app, file]);
}

/// The default registry file is found under the configuration directory the
/// environment reported, exactly two named components below it (the
/// `palmier-pro` folder, then `project-registry.json`); when the environment
/// reports none, there is no default file. Whatever `default_path` gives
/// satisfies this.
pub proof fn law_default_registry_sits_under_the_config_dir(r: Option<String>)
    requires
        call_ensures(ProjectRegistry::default_path, (), r),
    ensures
        r matches Some(p) ==> exists|c: Seq<char>|
            #[trigger] config_reply(Some(c)) && p@ == registry_file_under(c) && components(p@) == components(c)
                + seq!["palmier-pro"@, REGISTRY_FILE@],
        r is None ==> config_reply(None),
{
    let c = choose|c: Option<Seq<char>>| #[trigger] config_reply(c) && match c {
        Some(d) => r matches Some(p) && p@ == registry_file_under(d),
        None => r is None,
    };
    if let Some(d) = c {
        lemma_registry_file_components(d);
    }
}

impl ProjectRegistry {
    /// The registry file under the configuration directory `config`.
    pub fn path_under(config: &str) -> (r: String)
        ensures
            r@ == registry_file_under(config@),
    {
        let dir = join(config, "palmier-pro");
        join(dir.as_str(), REGISTRY_FILE)
    }

    /// The default registry file, under the operating system's configuration
    /// directory; `None` only when it exposes none.
    pub fn default_path() -> (r: Option<String>)
        ensures
            r matches Some(p) ==> exists|c: Seq<char>| p@ == registry_file_under(c),
            exists|c: Option<Seq<char>>| #[trigger] config_reply(c) && match c {
                Some(d) => r matches Some(p) && p@ == registry_file_under(d),
                None => r is None,
            },
    {
        let dir = config_dir();
        proof {
            lemma_config_reply(dir);
        }
        match dir {
            Some(c) => Some(Self::path_under(c.as_str())),
            None => None,
        }
    }

    /// Moves the bundle at `url` to the trash, then forgets its entry. When
    /// the trash fails the entry stays and the error is handed back.
    pub fn delete<T: Trasher>(&mut self, url: &str, trasher: &T) -> (r: Result<(), std::io::Error>)
        ensures
            r is Ok ==> final(self).spec_entries() == removed(old(self).spec_entries(), url@),
            r is Err ==> final(self).spec_entries() == old(self).spec_entries(),
            final(self).spec_path() == old(self).spec_path(),
    {
        match trasher.trash(url) {
            Ok(()) => {
                self.remove(url);
                Ok(())
            },
            Err(e) => Err(e),
        }
    }

    /// The entries as values.
    pub closed spec fn spec_entries(&self) -> Seq<(Seq<char>, Seq<char>, i128, i128)> {
        entry_views(self.entries@)
    }

    /// The registry file's path.
    pub closed spec fn spec_path(&self) -> Seq<char> {
        self.path@
    }

    /// A registry stored at `path` holding `entries`.
    pub fn with_entries(path: &str, entries: Vec<ProjectEntry>) -> (r: Self)
        ensures
            r.spec_path() == path@,
            r.spec_entries() == entry_views(entries@),
    {
        ProjectRegistry { path: path.to_string(), entries }
    }

    /// The registry file's path.
    pub fn path(&self) -> (r: &str)
        ensures
            r@ == self.spec_path(),
    {
        self.path.as_str()
    }

    /// The entries, in registration order.
    pub fn entries(&self) -> (r: &Vec<ProjectEntry>)
        ensures
            entry_views(r@) == self.spec_entries(),
    {
        &self.entries
    }

    /// Records that `url` was opened at `now`: the entry with the same
    /// normalized path gets `now` as its last-opened date; a new path gets a
    /// new entry with id `new_id` created at `now`.
    pub fn register(&mut self, url: &str, now: i128, new_id: &str)
        ensures
            final(self).spec_entries() == registered(old(self).spec_entries(), url@, now, new_id@),
            final(self).spec_path() == old(self).spec_path(),
    {
        let ghost vs = entry_views(self.entries@);
        let key = normalize_path(url);
        let k = position_of_key(&self.entries, key.as_str());
        if k < self.entries.len() {
            let e = ProjectEntry {
                id: self.entries[k].id.clone(),
                url: self.entries[k].url.clone(),
                created_date: self.entries[k].created_date,
                last_opened_date: now,
            };
            self.entries.set(k, e);
            assert(entry_views(self.entries@) =~= vs.update(k as int, (vs[k as int].0, vs[k as int].1, vs[k as int].2, now)));
        } else {
            self.entries.push(
                ProjectEntry {
                    id: new_id.to_string(),
                    url: url.to_string(),
                    created_date: now,
                    last_opened_date: now,
                },
            );
            assert(entry_views(self.entries@) =~= vs.push((new_id@, url@, now, now)));
        }
    }

    /// Registers `url` at the current UTC time (nanoseconds since the Unix
    /// epoch), giving a path not yet registered a fresh random id (a UUID in
    /// its 36-character hyphenated form).
    pub fn register_now(&mut self, url: &str)
        ensures
            exists|now: i128, id: Seq<char>|
                id.len() == 36 && final(self).spec_entries() == #[trigger] registered(
                    old(self).spec_entries(),
                    url@,
                    now,
                    id,
                ),
            final(self).spec_path() == old(self).spec_path(),
    {
        let ghost before = self.spec_entries();
        let now = utc_now_nanos();
        let id = new_uuid_string();
        self.register(url, now, id.as_str());
        assert(id@.len() == 36 && self.spec_entries() == registered(before, url@, now, id@));
    }

    /// Forgets every entry with the normalized path of `url`.
    pub fn remove(&mut self, url: &str)
        ensures
            final(self).spec_entries() == removed(old(self).spec_entries(), url@),
            final(self).spec_path() == old(self).spec_path(),
    {
        let ghost vs = entry_views(self.entries@);
        let key = normalize_path(url);
        let mut kept: Vec<ProjectEntry> = Vec::new();
        let mut i: usize = 0;
        while i < self.entries.len()
            invariant
                vs == entry_views(self.entries@),
                key@ == spec_normalize_path(url@),
                i <= self.entries@.len(),
                entry_views(kept@) == removed(vs.take(i as int), url@),
            decreases self.entries@.len() - i,
        {
            let k = self.entries[i].dedup_key();
            assert(vs.take(i + 1).drop_last() =~= vs.take(i as int));
            assert(vs[i as int] == entry_view(self.entries@[i as int]));
            if !str_eq(k.as_str(), key.as_str()) {
                let ghost before = kept@;
                kept.push(self.entries[i].clone_entry());
                assert(entry_views(kept@) =~= entry_views(before).push(vs[i as int]));
            }
            i = i + 1;
        }
        assert(vs.take(i as int) =~= vs);
        self.entries = kept;
    }

    /// Moves the entry of `old_url` to `new_url` at the current UTC time
    /// (nanoseconds since the Unix epoch).
    pub fn update_url_now(&mut self, old_url: &str, new_url: &str)
        ensures
            exists|now: i128|
                final(self).spec_entries() == #[trigger] url_updated(old(self).spec_entries(), old_url@, new_url@, now),
            final(self).spec_path() == old(self).spec_path(),
    {
        let ghost before = self.spec_entries();
        let now = utc_now_nanos();
        self.update_url(old_url, new_url, now);
        assert(self.spec_entries() == url_updated(before, old_url@, new_url@, now));
    }

    /// Records that the bundle at `old_url` now lives at `new_url` (its last-opened
    /// date becomes `now`); nothing changes when `old_url` is not registered.
    pub fn update_url(&mut self, old_url: &str, new_url: &str, now: i128)
        ensures
            final(self).spec_entries() == url_updated(old(self).spec_entries(), old_url@, new_url@, now),
            final(self).spec_path() == old(self).spec_path(),
    {
        let ghost vs = entry_views(self.entries@);
        let key = normalize_path(old_url);
        let k = position_of_key(&self.entries, key.as_str());
        if k < self.entries.len() {
            let e = ProjectEntry {
                id: self.entries[k].id.clone(),
                url: new_url.to_string(),
                created_date: self.entries[k].created_date,
                last_opened_date: now,
            };
            self.entries.set(k, e);
            assert(entry_views(self.entries@) =~= vs.update(k as int, (vs[k as int].0, new_url@, vs[k as int].2, now)));
        }
    }

    /// The entries, most recently opened first (ties keep registration order).
    pub fn sorted_entries(&self) -> (r: Vec<ProjectEntry>)
        ensures
            entry_views(r@) == by_recency(self.spec_entries()),
    {
        let ghost vs = entry_views(self.entries@);
        let mut out: Vec<ProjectEntry> = Vec::new();
        let mut i: usize = 0;
        while i < self.entries.len()
            invariant
                vs == entry_views(self.entries@),
                i <= self.entries@.len(),
                entry_views(out@) == by_recency(vs.take(i as int)),
            decreases self.entries@.len() - i,
        {
            assert(vs.take(i + 1).drop_last() =~= vs.take(i as int));
            assert(vs[i as int] == entry_view(self.entries@[i as int]));
            let e = self.entries[i].clone_entry();
            insert_entry_by_recency(&mut out, e);
            i = i + 1;
        }
        assert(vs.take(i as int) =~= vs);
        out
    }
}

fn insert_entry_by_recency(sorted: &mut Vec<ProjectEntry>, e: ProjectEntry)
    ensures
        entry_views(final(sorted)@) == insert_by_recency(entry_views(old(sorted)@), entry_view(e)),
{
    let ghost s0 = entry_views(sorted@);
    let mut at = sorted.len();
    assert(s0.take(at as int) =~= s0);
    assert(s0 + s0.skip(at as int) =~= s0);
    while at > 0 && sorted[at - 1].last_opened_date < e.last_opened_date
        invariant
            at <= sorted@.len(),
            s0 == entry_views(sorted@),
            insert_by_recency(s0, entry_view(e)) == insert_by_recency(s0.take(at as int), entry_view(e))
                + s0.skip(at as int),
        decreases at,
    {
        proof {
            let t = s0.take(at as int);
            assert(t.last() == s0[at - 1]);
            assert(t.drop_last() =~= s0.take(at - 1));
            assert(s0.skip(at - 1) =~= seq![s0[at - 1]] + s0.skip(at as int));
            assert(insert_by_recency(t, entry_view(e)) == insert_by_recency(s0.take(at - 1), entry_view(e)).push(s0[at - 1]));
            assert(insert_by_recency(s0.take(at - 1), entry_view(e)).push(s0[at - 1]) + s0.skip(at as int)
                =~= insert_by_recency(s0.take(at - 1), entry_view(e)) + s0.skip(at - 1));
        }
        at = at - 1;
    }
    proof {
        let t = s0.take(at as int);
        if at > 0 {
            assert(t.last() == s0[at - 1]);
        }
        assert(insert_by_recency(t, entry_view(e)) =~= t.push(entry_view(e)));
    }
    sorted.insert(at, e);
    assert(entry_views(sorted@) =~= s0.take(at as int).push(entry_view(e)) + s0.skip(at as int));
}

impl ProjectEntry {
    /// A field-by-field copy.
    pub fn clone_entry(&self) -> (r: ProjectEntry)
        ensures
            entry_view(r) == entry_view(*self),
    {
        ProjectEntry {
            id: self.id.clone(),
            url: self.url.clone(),
            created_date: self.created_date,
            last_opened_date: self.last_opened_date,
        }
    }
}

/// Registering keeps one entry per normalized path: on entries without two
/// entries for one path, registering `url` at `now` leaves entries without
/// duplicates, adds an entry only for a path not yet registered, and leaves
/// exactly that path's entry with `now` as its last-opened date.
pub proof fn law_register_keeps_one_entry_per_path(
    vs: Seq<(Seq<char>, Seq<char>, i128, i128)>,
    url: Seq<char>,
    now: i128,
    id: Seq<char>,
)
    requires
        unique_keys(vs),
    ensures
        unique_keys(registered(vs, url, now, id)),
        registered(vs, url, now, id).len() == vs.len() + if (exists|i: int|
            0 <= i < vs.len() && view_key(#[trigger] vs[i]) == spec_normalize_path(url)) {
            0int
        } else {
            1int
        },
        exists|k: int|
            0 <= k < registered(vs, url, now, id).len() && view_key(
                #[trigger] registered(vs, url, now, id)[k],
            ) == spec_normalize_path(url) && registered(vs, url, now, id)[k].3 == now,
{
    let key = spec_normalize_path(url);
    lemma_first_with_key(vs, key, 0);
    let k = first_with_key(vs, key, 0);
    let r = registered(vs, url, now, id);
    if k < vs.len() {
        assert(view_key(r[k]) == key);
        assert forall|i: int, j: int| 0 <= i < j < r.len() implies view_key(#[trigger] r[i]) != view_key(
            #[trigger] r[j],
        ) by {
            assert(view_key(r[i]) == view_key(vs[i]));
            assert(view_key(r[j]) == view_key(vs[j]));
        }
    } else {
        assert(r[vs.len() as int] == (id, url, now, now));
        assert(view_key(r[vs.len() as int]) == key);
        assert(!(exists|i: int| 0 <= i < vs.len() && view_key(#[trigger] vs[i]) == key));
        assert forall|i: int, j: int| 0 <= i < j < r.len() implies view_key(#[trigger] r[i]) != view_key(
            #[trigger] r[j],
        ) by {
            if j == vs.len() {
                assert(r[i] == vs[i]);
            } else {
                assert(r[i] == vs[i]);
                assert(r[j] == vs[j]);
            }
        }
    }
}

/// Entries ordered most recently opened first.
pub open spec fn recency_sorted(vs: Seq<(Seq<char>, Seq<char>, i128, i128)>) -> bool {
    forall|i: int, j: int| 0 <= i < j < vs.len() ==> (#[trigger] vs[i]).3 >= (#[trigger] vs[j]).3
}

proof fn lemma_insert_by_recency(
    sorted: Seq<(Seq<char>, Seq<char>, i128, i128)>,
    v: (Seq<char>, Seq<char>, i128, i128),
)
    requires
        recency_sorted(sorted),
    ensures
        recency_sorted(insert_by_recency(sorted, v)),
        insert_by_recency(sorted, v).to_multiset() == sorted.to_multiset().insert(v),
    decreases sorted.len(),
{
    broadcast use vstd::seq_lib::group_to_multiset_ensures;

    if sorted.len() == 0 {
        assert(seq![v] =~= Seq::<(Seq<char>, Seq<char>, i128, i128)>::empty().push(v));
    } else if sorted.last().3 >= v.3 {
    } else {
        let d = sorted.drop_last();
        assert(recency_sorted(d));
        lemma_insert_by_recency(d, v);
        let ins = insert_by_recency(d, v);
        let r = ins.push(sorted.last());
        assert(sorted =~= d.push(sorted.last()));
        assert forall|i: int, j: int| 0 <= i < j < r.len() implies (#[trigger] r[i]).3 >= (
        #[trigger] r[j]).3 by {
            if j == r.len() - 1 {
                // Every element of `ins` is `v` or an element of `d`, all
                // opened no earlier than the last entry.
                assert(ins.to_multiset().count(r[i]) > 0);
                assert(ins.to_multiset() == d.to_multiset().insert(v));
                if r[i] != v {
                    assert(d.to_multiset().count(r[i]) > 0);
                    assert(d.contains(r[i]));
                    let k = choose|k: int| 0 <= k < d.len() && d[k] == r[i];
                    assert(sorted[k] == d[k]);
                }
            }
        }
    }
}

/// Listing by recency keeps every entry exactly once and puts the most
/// recently opened first.
pub proof fn law_by_recency_sorts(vs: Seq<(Seq<char>, Seq<char>, i128, i128)>)
    ensures
        recency_sorted(by_recency(vs)),
        by_recency(vs).to_multiset() == vs.to_multiset(),
    decreases vs.len(),
{
    broadcast use vstd::seq_lib::group_to_multiset_ensures;

    if vs.len() > 0 {
        law_by_recency_sorts(vs.drop_last());
        lemma_insert_by_recency(by_recency(vs.drop_last()), vs.last());
        assert(vs =~= vs.drop_last().push(vs.last()));
    }
}


// ---------------------------------------------------------------------------
// Normalizing twice
// ---------------------------------------------------------------------------

/// A part that names something: non-empty, not `.`, without `/`.
pub open spec fn named_part(x: Seq<char>) -> bool {
    x.len() > 0 && x != seq!['.'] && no_slash(x)
}

/// Components as read from a path: the first may be the root or `.`, every
/// other one names something.
pub open spec fn read_shape(cs: Seq<Seq<char>>) -> bool {
    forall|i: int|
        0 <= i < cs.len() ==> (i == 0 && (cs[i] == seq!['/'] || cs[i] == seq!['.'])) || named_part(
            #[trigger] cs[i],
        )
}

/// Resolved components: the first may be the root, every other one names
/// something, and no `..` follows a normal component.
pub open spec fn resolved_shape(cs: Seq<Seq<char>>) -> bool {
    &&& forall|i: int| 0 <= i < cs.len() ==> (i == 0 && cs[i] == seq!['/']) || named_part(#[trigger] cs[i])
    &&& forall|i: int| 1 <= i < cs.len() && #[trigger] cs[i] == seq!['.', '.'] ==> !is_normal(cs[i - 1])
}

proof fn lemma_resolve_shape(cs: Seq<Seq<char>>)
    requires
        read_shape(cs),
    ensures
        resolved_shape(resolve_dots(cs)),
        cs.len() > 0 && cs[0] == seq!['/'] ==> resolve_dots(cs).len() > 0 && resolve_dots(cs)[0] == seq!['/'],
    decreases cs.len(),
{
    if cs.len() > 0 {
        let init = cs.drop_last();
        assert forall|i: int| 0 <= i < init.len() implies (i == 0 && (init[i] == seq!['/'] || init[i] == seq!['.']))
            || named_part(#[trigger] init[i]) by {
            assert(init[i] == cs[i]);
        }
        lemma_resolve_shape(init);
        let prev = resolve_dots(init);
        let c = cs.last();
        assert(c == cs[cs.len() - 1]);
        assert(seq!['/'][0] == '/');
        assert(!no_slash(seq!['/']));
        if cs.len() > 1 {
            assert(init[0] == cs[0]);
        }
        if cs.len() == 1 {
            assert(init.len() == 0);
            assert(prev.len() == 0);
        }
        if c == seq!['.'] {
        } else if c == seq!['.', '.'] {
            if prev.len() > 0 && is_normal(prev.last()) {
                let d = prev.drop_last();
                assert forall|i: int| 1 <= i < d.len() && #[trigger] d[i] == seq!['.', '.'] implies !is_normal(d[i - 1]) by {
                    assert(d[i] == prev[i] && d[i - 1] == prev[i - 1]);
                }
                assert forall|i: int| 0 <= i < d.len() implies (i == 0 && d[i] == seq!['/']) || named_part(#[trigger] d[i]) by {
                    assert(d[i] == prev[i]);
                }
                if cs.len() > 1 && cs[0] == seq!['/'] {
                    assert(prev[0] == seq!['/']);
                    assert(!is_normal(prev[0]));
                    assert(prev.len() > 1);
                }
            } else {
                let q = prev.push(c);
                assert(named_part(c)) by {
                    assert(seq!['.', '.'].len() == 2);
                    assert(no_slash(c));
                }
                assert forall|i: int| 1 <= i < q.len() && #[trigger] q[i] == seq!['.', '.'] implies !is_normal(q[i - 1]) by {
                    if i < prev.len() {
                        assert(q[i] == prev[i] && q[i - 1] == prev[i - 1]);
                    }
                }
                assert forall|i: int| 0 <= i < q.len() implies (i == 0 && q[i] == seq!['/']) || named_part(#[trigger] q[i]) by {
                    if i < prev.len() {
                        assert(q[i] == prev[i]);
                    }
                }
            }
        } else {
            let q = prev.push(c);
            assert((cs.len() == 1 && c == seq!['/']) || named_part(c));
            if c == seq!['/'] {
                assert(cs.len() == 1);
            }
            assert forall|i: int| 1 <= i < q.len() && #[trigger] q[i] == seq!['.', '.'] implies !is_normal(q[i - 1]) by {
                if i < prev.len() {
                    assert(q[i] == prev[i] && q[i - 1] == prev[i - 1]);
                }
            }
            assert forall|i: int| 0 <= i < q.len() implies (i == 0 && q[i] == seq!['/']) || named_part(#[trigger] q[i]) by {
                if i < prev.len() {
                    assert(q[i] == prev[i]);
                }
            }
        }
    }
}

proof fn lemma_resolve_fixed(cs: Seq<Seq<char>>)
    requires
        resolved_shape(cs),
    ensures
        resolve_dots(cs) == cs,
    decreases cs.len(),
{
    if cs.len() > 0 {
        let init = cs.drop_last();
        assert forall|i: int| 0 <= i < init.len() implies (i == 0 && init[i] == seq!['/']) || named_part(#[trigger] init[i]) by {
            assert(init[i] == cs[i]);
        }
        assert forall|i: int| 1 <= i < init.len() && #[trigger] init[i] == seq!['.', '.'] implies !is_normal(init[i - 1]) by {
            assert(init[i] == cs[i] && init[i - 1] == cs[i - 1]);
        }
        lemma_resolve_fixed(init);
        let c = cs.last();
        assert(c == cs[cs.len() - 1]);
        assert(seq!['/'][0] != seq!['.'][0]);
        assert(c != seq!['.']);
        assert(init.push(c) =~= cs);
        if c == seq!['.', '.'] && cs.len() > 1 {
            assert(init.last() == cs[cs.len() - 2]);
        }
    }
}

proof fn lemma_components_rebuild(cs: Seq<Seq<char>>)
    requires
        resolved_shape(cs),
    ensures
        components(rebuild(cs)) == cs,
{
    if cs.len() > 0 && cs[0] == seq!['/'] {
        let t = cs.drop_first();
        assert forall|i: int| 0 <= i < t.len() implies (#[trigger] t[i]).len() > 0 && t[i] != seq!['.'] && no_slash(t[i]) by {
            assert(t[i] == cs[i + 1]);
        }
        lemma_components_append(Seq::empty(), t);
        assert(Seq::<char>::empty() + seq!['/'] + join_slash(t) =~= seq!['/'] + join_slash(t));
        assert(seq![seq!['/']] + t =~= cs);
    } else {
        assert forall|i: int| 0 <= i < cs.len() implies (#[trigger] cs[i]).len() > 0 && cs[i] != seq!['.'] && no_slash(cs[i]) by {
            assert(named_part(cs[i]));
        }
        lemma_components_join_named(cs);
    }
}

/// Normalizing is idempotent: the normalized text of a normalized path is
/// itself, so a de-duplication key never changes when recomputed.
pub proof fn law_normalize_idempotent(path: Seq<char>)
    ensures
        spec_normalize_path(spec_normalize_path(path)) == spec_normalize_path(path),
{
    let cs = components(path);
    lemma_components_shape(path);
    assert forall|i: int| 0 <= i < cs.len() implies (i == 0 && (cs[i] == seq!['/'] || cs[i] == seq!['.'])) || named_part(#[trigger] cs[i]) by {}
    lemma_resolve_shape(cs);
    let r = resolve_dots(cs);
    lemma_components_rebuild(r);
    lemma_resolve_fixed(r);
}


/// In resolved components every `..` leads: nothing before it is a normal
/// component.
proof fn lemma_dots_lead(cs: Seq<Seq<char>>, j: int)
    requires
        resolved_shape(cs),
        0 <= j < cs.len(),
        cs[j] == seq!['.', '.'],
    ensures
        forall|i: int| 0 <= i < j ==> !is_normal(#[trigger] cs[i]),
    decreases j,
{
    if j > 0 {
        assert(!is_normal(cs[j - 1]));
        if j - 1 > 0 {
            assert(named_part(cs[j - 1]));
            assert(cs[j - 1] != seq!['/']) by {
                if cs[j - 1] == seq!['/'] {
                    assert(cs[j - 1][0] == '/');
                }
            }
            assert(cs[j - 1] == seq!['.', '.']);
            lemma_dots_lead(cs, j - 1);
        }
    }
}

/// What normalizing leaves: the components of a normalized path hold no `.`,
/// and every `..` comes before the first named component (a `..` is kept only
/// where there is nothing left to pop).
pub proof fn law_normalized_path_shape(path: Seq<char>)
    ensures
        forall|i: int|
            0 <= i < components(spec_normalize_path(path)).len() ==> #[trigger] components(
                spec_normalize_path(path),
            )[i] != seq!['.'],
        forall|i: int, j: int|
            0 <= i < j < components(spec_normalize_path(path)).len() && #[trigger] components(
                spec_normalize_path(path),
            )[j] == seq!['.', '.'] ==> !is_normal(#[trigger] components(spec_normalize_path(path))[i]),
{
    let cs = components(path);
    lemma_components_shape(path);
    assert forall|i: int| 0 <= i < cs.len() implies (i == 0 && (cs[i] == seq!['/'] || cs[i] == seq!['.'])) || named_part(#[trigger] cs[i]) by {}
    lemma_resolve_shape(cs);
    let r = resolve_dots(cs);
    lemma_components_rebuild(r);
    assert(components(spec_normalize_path(path)) == r);
    assert forall|i: int| 0 <= i < r.len() implies #[trigger] r[i] != seq!['.'] by {
        if i == 0 && r[i] == seq!['/'] {
            assert(r[i][0] != seq!['.'][0]);
        }
    }
    assert forall|i: int, j: int| 0 <= i < j < r.len() && #[trigger] r[j] == seq!['.', '.'] implies !is_normal(#[trigger] r[i]) by {
        lemma_dots_lead(r, j);
    }
}

// ---------------------------------------------------------------------------
// Removing undoes registering
// ---------------------------------------------------------------------------

proof fn lemma_removed_update(
    vs: Seq<(Seq<char>, Seq<char>, i128, i128)>,
    url: Seq<char>,
    k: int,
    e: (Seq<char>, Seq<char>, i128, i128),
)
    requires
        0 <= k < vs.len(),
        view_key(vs[k]) == spec_normalize_path(url),
        view_key(e) == spec_normalize_path(url),
    ensures
        removed(vs.update(k, e), url) == removed(vs, url),
    decreases vs.len(),
{
    let us = vs.update(k, e);
    if k == vs.len() - 1 {
        assert(us.drop_last() =~= vs.drop_last());
    } else {
        assert(us.drop_last() =~= vs.drop_last().update(k, e));
        assert(us.last() == vs.last());
        lemma_removed_update(vs.drop_last(), url, k, e);
    }
}

/// Removing a path undoes registering it: registering `url` and then removing
/// it leaves what removing it alone leaves.
pub proof fn law_remove_undoes_register(
    vs: Seq<(Seq<char>, Seq<char>, i128, i128)>,
    url: Seq<char>,
    now: i128,
    id: Seq<char>,
)
    ensures
        removed(registered(vs, url, now, id), url) == removed(vs, url),
{
    let key = spec_normalize_path(url);
    lemma_first_with_key(vs, key, 0);
    let k = first_with_key(vs, key, 0);
    if k < vs.len() {
        lemma_removed_update(vs, url, k, (vs[k].0, vs[k].1, vs[k].2, now));
    } else {
        let w = vs.push((id, url, now, now));
        assert(w.drop_last() =~= vs);
    }
}

} // verus!
