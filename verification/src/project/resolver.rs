use vstd::prelude::*;

use crate::model::clip_type::ClipType;
use crate::model::manifest::MediaSource;
use crate::path::{
    all_named, components, join, join_parts, join_slash, lemma_components_append, lemma_components_empty,
    lemma_components_join_named, lemma_components_shape, lemma_join_append, lemma_join_first, no_slash,
    path_components, spec_join, split_slash, named_pieces,
};
use crate::sys::{exists_reply, lemma_exists_reply, path_exists};
use crate::text::{str_eq, views};

verus! {

/// The path text of a media source: an external source is its absolute path; a
/// project source is its relative path joined onto the project bundle path,
/// and has none without a project path.
pub open spec fn spec_expected_url(source: MediaSource, project_url: Option<Seq<char>>) -> Option<Seq<char>> {
    match source {
        MediaSource::External { absolute_path } => Some(absolute_path@),
        MediaSource::Project { relative_path } => match project_url {
            Some(base) => Some(spec_join(base, relative_path@)),
            None => None,
        },
    }
}

/// The expected path of a media source given the optional project bundle path.
pub fn expected_url_for_source(source: &MediaSource, project_url: Option<&str>) -> (r: Option<String>)
    ensures
        match r {
            Some(u) => spec_expected_url(*source, opt_text(project_url)) == Some(u@),
            None => spec_expected_url(*source, opt_text(project_url)) is None,
        },
{
    match source {
        MediaSource::External { absolute_path } => Some(absolute_path.clone()),
        MediaSource::Project { relative_path } => match project_url {
            Some(base) => Some(join(base, relative_path.as_str())),
            None => None,
        },
    }
}

/// The text of an optional string slice.
pub open spec fn opt_text(o: Option<&str>) -> Option<Seq<char>> {
    match o {
        Some(s) => Some(s@),
        None => None,
    }
}

/// `base`'s components are a prefix of `url`'s.
pub open spec fn is_under(url: Seq<char>, base: Seq<char>) -> bool {
    components(base).len() <= components(url).len()
        && components(url).take(components(base).len() as int) == components(base)
}

/// How a file path is recorded in the manifest: a path under the project
/// bundle becomes a project source holding the components after the bundle
/// path joined with `/`; any other path stays external, verbatim.
pub open spec fn spec_source_for_url(url: Seq<char>, project_url: Option<Seq<char>>) -> (MediaSource, Seq<char>) {
    match project_url {
        Some(base) if is_under(url, base) => (
            MediaSource::Project { relative_path: arbitrary() },
            join_slash(components(url).skip(components(base).len() as int)),
        ),
        _ => (MediaSource::External { absolute_path: arbitrary() }, url),
    }
}

/// Decide how an on-disk `url` is recorded: under `project_url` it becomes a
/// project-relative source (with `/` separators); otherwise an external one.
pub fn source_for_url(url: &str, project_url: Option<&str>) -> (r: MediaSource)
    ensures
        ({
            let (kind, text) = spec_source_for_url(url@, opt_text(project_url));
            match r {
                MediaSource::Project { relative_path } => kind is Project && relative_path@ == text,
                MediaSource::External { absolute_path } => kind is External && absolute_path@ == text,
            }
        }),
{
    match project_url {
        Some(base) => {
            let uc = path_components(url);
            let bc = path_components(base);
            let mut under = bc.len() <= uc.len();
            let mut i: usize = 0;
            while under && i < bc.len()
                invariant
                    bc@.len() <= uc@.len() || !under,
                    i <= bc@.len(),
                    under ==> forall|j: int| 0 <= j < i ==> views(uc@)[j] == views(bc@)[j],
                    !under ==> !(views(bc@).len() <= views(uc@).len() && views(uc@).take(views(bc@).len() as int) == views(bc@)),
                decreases bc@.len() - i,
            {
                if !str_eq(uc[i].as_str(), bc[i].as_str()) {
                    proof {
                        assert(views(uc@)[i as int] != views(bc@)[i as int]);
                        if views(bc@).len() <= views(uc@).len() && views(uc@).take(views(bc@).len() as int) == views(bc@) {
                            assert(views(uc@).take(views(bc@).len() as int)[i as int] == views(uc@)[i as int]);
                        }
                    }
                    under = false;
                }
                i = i + 1;
            }
            if under {
                proof {
                    assert(views(uc@).take(views(bc@).len() as int) =~= views(bc@));
                }
                let mut rest: Vec<String> = Vec::new();
                let mut j: usize = bc.len();
                while j < uc.len()
                    invariant
                        bc@.len() <= j <= uc@.len(),
                        views(rest@) == views(uc@).subrange(bc@.len() as int, j as int),
                    decreases uc@.len() - j,
                {
                    let ghost b = views(rest@);
                    rest.push(uc[j].clone());
                    proof {
                        assert(views(rest@) =~= b.push(uc@[j as int]@));
                        assert(views(uc@)[j as int] == uc@[j as int]@);
                        assert(views(rest@) =~= views(uc@).subrange(bc@.len() as int, j + 1));
                    }
                    j = j + 1;
                }
                proof {
                    assert(views(uc@).subrange(bc@.len() as int, uc@.len() as int) =~= views(uc@).skip(bc@.len() as int));
                }
                return MediaSource::Project { relative_path: join_parts(&rest) };
            }
            MediaSource::External { absolute_path: String::from_str(url) }
        },
        None => MediaSource::External { absolute_path: String::from_str(url) },
    }
}

/// What reopening reports for one manifest entry.
#[derive(Debug, Clone, PartialEq)]
pub enum RestoreEvent {
    /// The file resolved and exists.
    Restored { asset_id: String, url: String, kind: ClipType },
    /// No path could be formed (a project source without a project path).
    Unresolvable { asset_id: String },
    /// The path was formed but nothing exists there; logged and skipped.
    Missing { asset_id: String, url: String },
}

/// Whether `r` is what reopening reports for the entry `asset_id` with
/// `source` and `kind`: unresolvable exactly when no path can be formed;
/// otherwise restored or missing at the formed path.
pub open spec fn is_restore_event_of(
    r: RestoreEvent,
    asset_id: Seq<char>,
    source: MediaSource,
    kind: ClipType,
    project_url: Option<Seq<char>>,
) -> bool {
    &&& spec_expected_url(source, project_url) is None <==> r is Unresolvable
    &&& match r {
        RestoreEvent::Restored { asset_id: a, url, kind: k } => a@ == asset_id && k == kind
            && spec_expected_url(source, project_url) == Some(url@),
        RestoreEvent::Missing { asset_id: a, url } => a@ == asset_id && spec_expected_url(source, project_url)
            == Some(url@),
        RestoreEvent::Unresolvable { asset_id: a } => a@ == asset_id,
    }
}

/// The restore event of one manifest entry, given whether a file exists at
/// the path formed for it: unresolvable without a path; otherwise restored
/// when the file exists and missing when it does not.
pub fn restore_event_given(
    asset_id: &str,
    source: &MediaSource,
    kind: ClipType,
    project_url: Option<&str>,
    file_exists: bool,
) -> (r: RestoreEvent)
    ensures
        is_restore_event_of(r, asset_id@, *source, kind, opt_text(project_url)),
        r is Restored <==> (spec_expected_url(*source, opt_text(project_url)) is Some && file_exists),
        r is Missing <==> (spec_expected_url(*source, opt_text(project_url)) is Some && !file_exists),
{
    match expected_url_for_source(source, project_url) {
        None => RestoreEvent::Unresolvable { asset_id: String::from_str(asset_id) },
        Some(url) => {
            if file_exists {
                RestoreEvent::Restored { asset_id: String::from_str(asset_id), url, kind }
            } else {
                RestoreEvent::Missing { asset_id: String::from_str(asset_id), url }
            }
        },
    }
}

/// Whether `r` reports what the file system said of the entry's expected
/// path: when a path can be formed, `r` is restored when the file system
/// answered that something exists there and missing when it answered that
/// nothing does.
pub open spec fn restore_follows_file_system(
    r: RestoreEvent,
    source: MediaSource,
    project_url: Option<Seq<char>>,
) -> bool {
    match spec_expected_url(source, project_url) {
        Some(u) => exists|present: bool|
            #[trigger] exists_reply(u, present) && (r is Restored <==> present) && (r is Missing <==> !present),
        None => r is Unresolvable,
    }
}

/// The restore event of one manifest entry: unresolvable without a path;
/// otherwise restored or missing as the file system says at the time.
pub fn restore_event(asset_id: &str, source: &MediaSource, kind: ClipType, project_url: Option<&str>) -> (r: RestoreEvent)
    ensures
        is_restore_event_of(r, asset_id@, *source, kind, opt_text(project_url)),
        restore_follows_file_system(r, *source, opt_text(project_url)),
{
    let ghost expected = spec_expected_url(*source, opt_text(project_url));
    let file_exists = match expected_url_for_source(source, project_url) {
        Some(url) => {
            let us = url.as_str();
            let e = path_exists(us);
            proof {
                lemma_exists_reply(us, e);
            }
            e
        },
        None => false,
    };
    proof {
        if expected is Some {
            assert(exists_reply(expected->0, file_exists));
        }
    }
    restore_event_given(asset_id, source, kind, project_url, file_exists)
}

/// Reopening reports each file as the file system saw it: whatever
/// `restore_event` gives, an entry whose path cannot be formed is
/// unresolvable; otherwise it is restored (at its expected path, with its id
/// and kind) only after the file system answered that something exists at
/// that path, and missing only after it answered that nothing does.
pub proof fn law_restore_reports_what_the_file_system_said(
    asset_id: &str,
    source: &MediaSource,
    kind: ClipType,
    project_url: Option<&str>,
    r: RestoreEvent,
)
    requires
        call_ensures(restore_event, (asset_id, source, kind, project_url), r),
    ensures
        match spec_expected_url(*source, opt_text(project_url)) {
            Some(u) => {
                &&& r matches RestoreEvent::Restored { asset_id: a, url, kind: k } ==> a@ == asset_id@ && url@
                    == u && k == kind && exists_reply(u, true)
                &&& r matches RestoreEvent::Missing { asset_id: a, url } ==> a@ == asset_id@ && url@ == u
                    && exists_reply(u, false)
                &&& !(r is Unresolvable)
            },
            None => r matches RestoreEvent::Unresolvable { asset_id: a } && a@ == asset_id@,
        },
{
    if let Some(u) = spec_expected_url(*source, opt_text(project_url)) {
        let present = choose|present: bool|
            #[trigger] exists_reply(u, present) && (r is Restored <==> present) && (r is Missing <==> !present);
    }
}

/// Reopening a whole manifest reports every entry as the file system saw it:
/// whatever `restore_entries` gives holds one event per entry, in order, and
/// an entry with a formed path is restored only after the file system
/// answered that something exists there and missing only after it answered
/// that nothing does.
pub proof fn law_restore_entries_report_what_the_file_system_said(
    entries: &[ResolvableEntry],
    project_url: Option<&str>,
    r: Vec<RestoreEvent>,
)
    requires
        call_ensures(restore_entries, (entries, project_url), r),
    ensures
        r@.len() == entries@.len(),
        forall|i: int|
            0 <= i < entries@.len() ==> match spec_expected_url(entries@[i].source, opt_text(project_url)) {
                Some(u) => (#[trigger] r@[i] is Restored ==> exists_reply(u, true)) && (r@[i] is Missing
                    ==> exists_reply(u, false)) && !(r@[i] is Unresolvable),
                None => r@[i] is Unresolvable,
            },
{
    assert forall|i: int| 0 <= i < entries@.len() implies match spec_expected_url(
        entries@[i].source,
        opt_text(project_url),
    ) {
        Some(u) => (#[trigger] r@[i] is Restored ==> exists_reply(u, true)) && (r@[i] is Missing ==> exists_reply(
            u,
            false,
        )) && !(r@[i] is Unresolvable),
        None => r@[i] is Unresolvable,
    } by {
        assert(restore_follows_file_system(r@[i], entries@[i].source, opt_text(project_url)));
        if let Some(u) = spec_expected_url(entries@[i].source, opt_text(project_url)) {
            let present = choose|present: bool|
                #[trigger] exists_reply(u, present) && (r@[i] is Restored <==> present) && (r@[i] is Missing
                    <==> !present);
        }
    }
}

/// What the resolver reads of a media-manifest entry.
#[derive(Debug, Clone, PartialEq)]
pub struct ResolvableEntry {
    pub id: String,
    pub name: String,
    pub kind: ClipType,
    pub source: MediaSource,
}

/// One restore event per entry, in order; never fails on a missing or
/// unresolvable file.
pub fn restore_entries(entries: &[ResolvableEntry], project_url: Option<&str>) -> (r: Vec<RestoreEvent>)
    ensures
        r@.len() == entries@.len(),
        forall|i: int|
            0 <= i < entries@.len() ==> is_restore_event_of(
                #[trigger] r@[i],
                entries@[i].id@,
                entries@[i].source,
                entries@[i].kind,
                opt_text(project_url),
            ),
        forall|i: int|
            0 <= i < entries@.len() ==> restore_follows_file_system(
                #[trigger] r@[i],
                entries@[i].source,
                opt_text(project_url),
            ),
{
    let mut out: Vec<RestoreEvent> = Vec::new();
    let mut i: usize = 0;
    while i < entries.len()
        invariant
            i <= entries@.len(),
            out@.len() == i,
            forall|j: int|
                0 <= j < i ==> is_restore_event_of(
                    #[trigger] out@[j],
                    entries@[j].id@,
                    entries@[j].source,
                    entries@[j].kind,
                    opt_text(project_url),
                ),
            forall|j: int|
                0 <= j < i ==> restore_follows_file_system(
                    #[trigger] out@[j],
                    entries@[j].source,
                    opt_text(project_url),
                ),
        decreases entries@.len() - i,
    {
        let e = &entries[i];
        let ev = restore_event(e.id.as_str(), &e.source, e.kind, project_url);
        out.push(ev);
        i = i + 1;
    }
    out
}

/// The index of the first entry with `id` at or after `i`, or the length
/// when there is none.
pub open spec fn first_entry(es: Seq<ResolvableEntry>, id: Seq<char>, i: int) -> int
    decreases es.len() - i,
{
    if i < 0 || i >= es.len() {
        es.len() as int
    } else if es[i].id@ == id {
        i
    } else {
        first_entry(es, id, i + 1)
    }
}

proof fn lemma_first_entry(es: Seq<ResolvableEntry>, id: Seq<char>, i: int)
    requires
        0 <= i <= es.len(),
    ensures
        i <= first_entry(es, id, i) <= es.len(),
        first_entry(es, id, i) < es.len() ==> es[first_entry(es, id, i)].id@ == id,
        forall|j: int| i <= j < first_entry(es, id, i) ==> (#[trigger] es[j]).id@ != id,
    decreases es.len() - i,
{
    if i < es.len() && es[i].id@ != id {
        lemma_first_entry(es, id, i + 1);
    }
}

/// Resolves asset ids to paths through the manifest entries and the project
/// bundle path (when the project is saved).
pub struct MediaResolver<'a> {
    entries: &'a [ResolvableEntry],
    project_url: Option<String>,
}

impl<'a> MediaResolver<'a> {
    /// The entries resolved through.
    pub closed spec fn spec_entries(&self) -> Seq<ResolvableEntry> {
        self.entries@
    }

    /// The project bundle path, as text.
    pub closed spec fn spec_project_url(&self) -> Option<Seq<char>> {
        match self.project_url {
            Some(p) => Some(p@),
            None => None,
        }
    }

    /// The entry of an asset id: the first one carrying it.
    pub open spec fn spec_entry(&self, asset_id: Seq<char>) -> Option<ResolvableEntry> {
        let k = first_entry(self.spec_entries(), asset_id, 0);
        if k < self.spec_entries().len() {
            Some(self.spec_entries()[k])
        } else {
            None
        }
    }

    /// The expected path of an asset id: its entry's source resolved against
    /// the project path; none for an unknown id.
    pub open spec fn spec_expected(&self, asset_id: Seq<char>) -> Option<Seq<char>> {
        match self.spec_entry(asset_id) {
            Some(e) => spec_expected_url(e.source, self.spec_project_url()),
            None => None,
        }
    }

    /// A resolver over `entries`, rooted at `project_url`.
    pub fn new(entries: &'a [ResolvableEntry], project_url: Option<&str>) -> (r: Self)
        ensures
            r.spec_entries() == entries@,
            r.spec_project_url() == opt_text(project_url),
    {
        let project_url = match project_url {
            Some(p) => Some(String::from_str(p)),
            None => None,
        };
        MediaResolver { entries, project_url }
    }

    /// The first entry for `asset_id`.
    pub fn entry(&self, asset_id: &str) -> (r: Option<&'a ResolvableEntry>)
        ensures
            match r {
                Some(e) => self.spec_entry(asset_id@) == Some(*e),
                None => self.spec_entry(asset_id@) is None,
            },
    {
        let ghost es = self.entries@;
        proof {
            lemma_first_entry(es, asset_id@, 0);
        }
        let mut i: usize = 0;
        while i < self.entries.len()
            invariant
                es == self.entries@,
                i <= es.len(),
                first_entry(es, asset_id@, 0) == first_entry(es, asset_id@, i as int),
            decreases es.len() - i,
        {
            if str_eq(self.entries[i].id.as_str(), asset_id) {
                return Some(&self.entries[i]);
            }
            i = i + 1;
        }
        None
    }

    /// The expected path of `asset_id`, whether or not a file is there.
    pub fn expected_url(&self, asset_id: &str) -> (r: Option<String>)
        ensures
            match r {
                Some(u) => self.spec_expected(asset_id@) == Some(u@),
                None => self.spec_expected(asset_id@) is None,
            },
    {
        match self.entry(asset_id) {
            Some(e) => {
                let base = match &self.project_url {
                    Some(p) => Some(p.as_str()),
                    None => None,
                };
                expected_url_for_source(&e.source, base)
            },
            None => None,
        }
    }

    /// The expected path of `asset_id`, given whether a file exists there
    /// (`file_exists`): the path when one can be formed and the file exists,
    /// `None` otherwise.
    pub fn resolve_url_given(&self, asset_id: &str, file_exists: bool) -> (r: Option<String>)
        ensures
            match self.spec_expected(asset_id@) {
                Some(u) => if file_exists {
                    r matches Some(x) && x@ == u
                } else {
                    r is None
                },
                None => r is None,
            },
    {
        match self.expected_url(asset_id) {
            Some(u) => {
                if file_exists {
                    Some(u)
                } else {
                    None
                }
            },
            None => None,
        }
    }

    /// Whether a file exists at the expected path of `asset_id` (false when no
    /// path can be formed), as the file system says at the time.
    fn expected_file_exists(&self, asset_id: &str) -> (r: bool)
        ensures
            match self.spec_expected(asset_id@) {
                Some(u) => exists_reply(u, r),
                None => !r,
            },
    {
        match self.expected_url(asset_id) {
            Some(u) => {
                let us = u.as_str();
                let e = path_exists(us);
                proof {
                    lemma_exists_reply(us, e);
                }
                e
            },
            None => false,
        }
    }

    /// The expected path of `asset_id`, only when a file exists there: when a
    /// path can be formed, it is handed back exactly when the file system
    /// answered that something exists there.
    pub fn resolve_url(&self, asset_id: &str) -> (r: Option<String>)
        ensures
            r matches Some(u) ==> self.spec_expected(asset_id@) == Some(u@),
            self.spec_expected(asset_id@) is None ==> r is None,
            self.spec_expected(asset_id@) matches Some(u) ==> exists|present: bool|
                #[trigger] exists_reply(u, present) && (r is Some <==> present),
    {
        let file_exists = self.expected_file_exists(asset_id);
        self.resolve_url_given(asset_id, file_exists)
    }

    /// Whether the file of `asset_id` is missing: no path can be formed, or
    /// the file system answered that nothing exists at it.
    pub fn is_missing(&self, asset_id: &str) -> (r: bool)
        ensures
            self.spec_expected(asset_id@) is None ==> r,
            self.spec_expected(asset_id@) matches Some(u) ==> exists|present: bool|
                #[trigger] exists_reply(u, present) && (r <==> !present),
    {
        let file_exists = self.expected_file_exists(asset_id);
        self.resolve_url_given(asset_id, file_exists).is_none()
    }

    /// The entry's name, or `Offline` for an unknown id.
    pub fn display_name(&self, asset_id: &str) -> (r: String)
        ensures
            r@ == match self.spec_entry(asset_id@) {
                Some(e) => e.name@,
                None => "Offline"@,
            },
    {
        match self.entry(asset_id) {
            Some(e) => e.name.clone(),
            None => "Offline".to_string(),
        }
    }
}


/// Saving then reopening finds the same file: a path under the project
/// bundle is recorded as a project source, and its relative path joined back
/// onto the bundle path has the same components as the file's own path.
pub proof fn law_project_source_resolves_back(url: Seq<char>, base: Seq<char>)
    requires
        is_under(url, base),
    ensures
        spec_source_for_url(url, Some(base)).0 is Project,
        components(spec_join(base, spec_source_for_url(url, Some(base)).1)) == components(url),
{
    let cu = components(url);
    let cb = components(base);
    let k = cb.len() as int;
    let rest = cu.skip(k);
    assert(cu =~= cb + rest);
    lemma_components_shape(url);
    let r = join_slash(rest);
    assert(spec_source_for_url(url, Some(base)).1 == r);
    if base.len() == 0 {
        lemma_components_empty(base);
        assert(rest =~= cu);
        lemma_components_of_joined(url);
        if r.len() > 0 && r[0] == '/' {
        } else {
            assert(base + r =~= r);
        }
    } else {
        lemma_components_nonempty(base);
        assert forall|i: int| 0 <= i < rest.len() implies (#[trigger] rest[i]).len() > 0 && rest[i] != seq!['.']
            && no_slash(rest[i]) by {
            assert(rest[i] == cu[k + i]);
        }
        assert(all_named(rest));
        if rest.len() > 0 {
            lemma_join_first(rest);
            assert(no_slash(rest[0]));
        }
        if base.last() == '/' {
            let a = base.drop_last();
            assert(base + r =~= a + seq!['/'] + r);
            lemma_components_append(a, rest);
            lemma_components_append(a, Seq::empty());
            assert(a + seq!['/'] + join_slash(Seq::<Seq<char>>::empty()) =~= base);
            assert(cb =~= cb + Seq::<Seq<char>>::empty());
        } else {
            lemma_components_append(base, rest);
        }
    }
}

/// Recording a file joined under the bundle and resolving it again gives back
/// the very same path text: for a bundle path `base` and a non-empty relative
/// path `rel` made of named parts, the file `base` joined with `rel` is
/// recorded as a project source whose relative path is `rel`, and joining that
/// relative path back onto `base` (which is how a project source resolves)
/// yields the joined path itself.
pub proof fn law_joined_source_resolves_back(base: Seq<char>, parts: Seq<Seq<char>>)
    requires
        parts.len() > 0,
        all_named(parts),
    ensures
        ({
            let rel = join_slash(parts);
            let url = spec_join(base, rel);
            &&& spec_source_for_url(url, Some(base)).0 is Project
            &&& spec_source_for_url(url, Some(base)).1 == rel
            &&& spec_join(base, spec_source_for_url(url, Some(base)).1) == url
        }),
{
    let rel = join_slash(parts);
    let url = spec_join(base, rel);
    lemma_join_first(parts);
    assert(no_slash(parts[0]));
    assert(rel[0] != '/');
    let cb = components(base);
    if base.len() == 0 {
        lemma_components_empty(base);
        assert(url =~= rel);
        lemma_components_join_named(parts);
        assert(components(url).take(0) =~= cb);
        assert(components(url).skip(0) =~= parts);
    } else if base.last() == '/' {
        let a = base.drop_last();
        assert(url =~= a + seq!['/'] + rel);
        lemma_components_append(a, parts);
        lemma_components_append(a, Seq::empty());
        assert(a + seq!['/'] + join_slash(Seq::<Seq<char>>::empty()) =~= base);
        let head = if a.len() == 0 {
            seq![seq!['/']]
        } else {
            components(a)
        };
        assert(cb =~= head + Seq::<Seq<char>>::empty());
        assert(components(url).take(cb.len() as int) =~= cb);
        assert(components(url).skip(cb.len() as int) =~= parts);
    } else {
        assert(url =~= base + seq!['/'] + rel);
        lemma_components_append(base, parts);
        assert(components(url).take(cb.len() as int) =~= cb);
        assert(components(url).skip(cb.len() as int) =~= parts);
    }
}

proof fn lemma_components_nonempty(p: Seq<char>)
    requires
        p.len() > 0,
    ensures
        components(p).len() > 0,
{
    let pieces = split_slash(p);
    crate::path::lemma_split_nonempty_pub(p);
    if p[0] != '/' && pieces[0] != seq!['.'] {
        crate::path::lemma_first_piece_nonempty(p);
        let named = |x: Seq<char>| x.len() > 0 && x != seq!['.'];
        pieces.lemma_filter_contains(named, 0);
    }
}

/// The components of a path, joined with `/` and read again, are the same
/// components.
proof fn lemma_components_of_joined(url: Seq<char>)
    ensures
        components(join_slash(components(url))) == components(url),
{
    let cu = components(url);
    lemma_components_shape(url);
    if cu.len() == 0 {
        lemma_components_empty(join_slash(cu));
    } else if cu[0] == seq!['/'] || cu[0] == seq!['.'] {
        let head = seq![cu[0]];
        let t = cu.drop_first();
        assert forall|i: int| 0 <= i < t.len() implies (#[trigger] t[i]).len() > 0 && t[i] != seq!['.'] && no_slash(t[i]) by {
            assert(t[i] == cu[i + 1]);
        }
        assert(head + t =~= cu);
        let h = cu[0];
        if cu[0] == seq!['/'] {
            lemma_components_append(Seq::empty(), Seq::empty());
            assert(Seq::<char>::empty() + seq!['/'] + join_slash(Seq::<Seq<char>>::empty()) =~= seq!['/']);
            if t.len() > 0 {
                lemma_join_append(head, t);
                lemma_components_append(seq!['/'], t);
            } else {
                assert(cu =~= head);
            }
        } else {
            lemma_dot_components();
            if t.len() > 0 {
                lemma_join_append(head, t);
                lemma_components_append(seq!['.'], t);
            } else {
                assert(cu =~= head);
            }
        }
    } else {
        assert(all_named(cu)) by {
            assert forall|i: int| 0 <= i < cu.len() implies (#[trigger] cu[i]).len() > 0 && cu[i] != seq!['.']
                && no_slash(cu[i]) by {}
        }
        lemma_components_join_named(cu);
    }
}

proof fn lemma_dot_components()
    ensures
        components(seq!['.']) == seq![seq!['.']],
{
    let d = seq!['.'];
    assert(d.drop_last() =~= Seq::<char>::empty());
    assert(split_slash(Seq::<char>::empty()) == seq![Seq::<char>::empty()]);
    assert(split_slash(d) =~= seq![d]);
    reveal_with_fuel(Seq::filter, 1);
    assert(seq![d].drop_first() =~= Seq::<Seq<char>>::empty());
    assert(named_pieces(Seq::<Seq<char>>::empty()) =~= Seq::<Seq<char>>::empty());
    assert(seq![d] + Seq::<Seq<char>>::empty() =~= seq![d]);
}

} // verus!
