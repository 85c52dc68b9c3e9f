use palmier::model::clip_type::ClipType;
use palmier::model::manifest::MediaSource;
use palmier::model::CRATE_NAME;
use palmier::project::bundle::{
    generation_log_kept, manifest_file_verdict, project_file_verdict, BundleError, FileOutcome,
};
use palmier::project::dialog::{DialogError, DirectoryDocumentDialog, DirectorySelection};
use palmier::project::document::ProjectDocument;
use palmier::project::registry::{normalize_path, ProjectEntry, ProjectRegistry, Trasher};
use std::cell::RefCell;
use palmier::project::resolver::{
    expected_url_for_source, restore_entries, restore_event, restore_event_given, source_for_url, MediaResolver, ResolvableEntry, RestoreEvent,
};
use palmier::project::samples::{
    download_jobs, endpoint_url, resolve_url, safe_name, sample_bundle_path, samples_root_under, slug_dir, urlencode,
    SampleChat, SampleDownload, SampleError,
};
use palmier::project::{MEDIA_FILE, PROJECT_FILE};

#[test]
fn open_dialog_presents_directory_as_single_document() {
    let d = DirectoryDocumentDialog::open();
    assert!(d.presents_directory_as_document());
    assert_eq!(d.selection, DirectorySelection::AsSingleDocument);
    assert!(!d.allow_create);
    assert_eq!(d.extension, "palmier");
}

#[test]
fn linux_native_variant_is_plain_directory() {
    let d = DirectoryDocumentDialog::open_directory_native();
    assert!(!d.presents_directory_as_document());
    assert_eq!(d.selection, DirectorySelection::AsDirectory);
}

#[test]
fn selection_verdicts_cover_each_error() {
    let open = DirectoryDocumentDialog::open();
    assert_eq!(open.selection_verdict("/p/Real.palmier", true, true), Ok(()));
    assert_eq!(open.selection_verdict("/p/Real.PALMIER", true, true), Ok(()));
    assert_eq!(open.selection_verdict("/p/Real.txt", true, true), Err(DialogError::WrongExtension));
    assert_eq!(open.selection_verdict("/p/Gone.palmier", false, false), Err(DialogError::NotFound));
    assert_eq!(open.selection_verdict("/p/File.palmier", true, false), Err(DialogError::NotADirectory));
    let save = DirectoryDocumentDialog::save();
    assert!(save.allow_create);
    assert_eq!(save.selection_verdict("/p/New.palmier", false, false), Ok(()));
}

#[test]
fn chat_change_marks_dirty() {
    let mut doc = ProjectDocument::new(Some("X.palmier"));
    assert!(!doc.is_dirty());
    doc.mark_chat_changed();
    assert!(doc.is_dirty(), "a chat change dirties the document");
}

#[test]
fn clean_document_is_not_due_and_save_clears_dirty() {
    let mut doc = ProjectDocument::new(Some("X.palmier"));
    assert!(!doc.autosave_due());
    assert_eq!(doc.path(), Some("X.palmier"));
    doc.mark_dirty();
    assert!(doc.is_dirty());
    doc.note_saved();
    assert!(!doc.is_dirty());
    assert!(!doc.autosave_due());
}

#[test]
fn bundle_filenames_match_reference() {
    assert_eq!(PROJECT_FILE, "project.json");
    assert_eq!(MEDIA_FILE, "media.json");
    assert_eq!(CRATE_NAME, "palmier-model");
}

#[test]
fn safe_name_strips_path_chars() {
    assert_eq!(safe_name("a/b:c\\d"), "abcd");
}

#[test]
fn normalize_path_resolves_dot_and_dotdot() {
    assert_eq!(normalize_path("/a/b/./c.palmier"), normalize_path("/a/b/x/../c.palmier"));
    assert_eq!(normalize_path("/a/b/./c.palmier"), "/a/b/c.palmier");
    assert_eq!(normalize_path("/a/b/"), "/a/b");
    assert_eq!(normalize_path("/.."), "/..");
}

#[test]
fn expected_url_for_both_variants() {
    let proj = "/proj/My.palmier";
    let p = expected_url_for_source(
        &MediaSource::Project { relative_path: "media/clip.mov".into() },
        Some(proj),
    );
    assert_eq!(p, Some("/proj/My.palmier/media/clip.mov".to_string()));
    let e = expected_url_for_source(
        &MediaSource::External { absolute_path: "/ext/v.mov".into() },
        Some(proj),
    );
    assert_eq!(e, Some("/ext/v.mov".to_string()));
    assert!(expected_url_for_source(&MediaSource::Project { relative_path: "media/x.mov".into() }, None)
        .is_none());
}

#[test]
fn source_for_url_internalizes_paths_under_project() {
    let proj = "/proj/My.palmier";
    match source_for_url("/proj/My.palmier/media/clip.mov", Some(proj)) {
        MediaSource::Project { relative_path } => assert_eq!(relative_path, "media/clip.mov"),
        other => panic!("expected Project, got {other:?}"),
    }
    match source_for_url("/elsewhere/v.mov", Some(proj)) {
        MediaSource::External { absolute_path } => assert_eq!(absolute_path, "/elsewhere/v.mov"),
        other => panic!("expected External, got {other:?}"),
    }
    assert!(matches!(
        source_for_url("/proj/My.palmier/media/clip.mov", None),
        MediaSource::External { .. }
    ));
}

#[test]
fn restore_reports_unresolvable_and_missing() {
    let ev = restore_event("a", &MediaSource::Project { relative_path: "media/x.mov".into() }, ClipType::Video, None);
    assert_eq!(ev, RestoreEvent::Unresolvable { asset_id: "a".into() });
    let ev = restore_event(
        "b",
        &MediaSource::External { absolute_path: "/surely/not/here/v.mov".into() },
        ClipType::Video,
        None,
    );
    assert_eq!(ev, RestoreEvent::Missing { asset_id: "b".into(), url: "/surely/not/here/v.mov".into() });
}

#[test]
fn restore_given_existence_picks_restored_or_missing() {
    let src = MediaSource::Project { relative_path: "media/x.mov".into() };
    assert_eq!(
        restore_event_given("a", &src, ClipType::Video, Some("/p/P.palmier"), true),
        RestoreEvent::Restored { asset_id: "a".into(), url: "/p/P.palmier/media/x.mov".into(), kind: ClipType::Video }
    );
    assert_eq!(
        restore_event_given("a", &src, ClipType::Video, Some("/p/P.palmier"), false),
        RestoreEvent::Missing { asset_id: "a".into(), url: "/p/P.palmier/media/x.mov".into() }
    );
    assert_eq!(
        restore_event_given("a", &src, ClipType::Video, None, true),
        RestoreEvent::Unresolvable { asset_id: "a".into() }
    );
}

#[test]
fn autosave_due_needs_dirty_edit_and_elapsed_window() {
    let mut doc = ProjectDocument::new(Some("X.palmier"));
    assert!(!doc.autosave_due_given(5_000, 1_000), "a clean document is never due");
    doc.mark_dirty();
    assert!(doc.autosave_due_given(1_000, 1_000), "exactly the window is enough");
    assert!(doc.autosave_due_given(1_001, 1_000));
    assert!(!doc.autosave_due_given(999, 1_000), "within the debounce window");
    doc.note_saved();
    assert!(!doc.autosave_due_given(5_000, 1_000));
}

#[test]
fn read_severities_per_file() {
    assert!(project_file_verdict(FileOutcome::Decoded).is_ok());
    match project_file_verdict(FileOutcome::Missing) {
        Err(BundleError::Corrupt { file, detail }) => {
            assert_eq!(file, "project.json");
            assert_eq!(detail, "missing");
        }
        other => panic!("expected corrupt, got {other:?}"),
    }
    match project_file_verdict(FileOutcome::Undecodable("bad".into())) {
        Err(BundleError::Corrupt { file, detail }) => assert_eq!((file, detail.as_str()), ("project.json", "bad")),
        other => panic!("expected corrupt, got {other:?}"),
    }
    assert!(matches!(
        project_file_verdict(FileOutcome::Unreadable(std::io::Error::other("x"))),
        Err(BundleError::Io(_))
    ));
    assert!(matches!(manifest_file_verdict(FileOutcome::Missing), Ok(false)));
    assert!(matches!(manifest_file_verdict(FileOutcome::Decoded), Ok(true)));
    match manifest_file_verdict(FileOutcome::Undecodable("eof".into())) {
        Err(BundleError::Corrupt { file, .. }) => assert_eq!(file, "media.json"),
        other => panic!("expected corrupt, got {other:?}"),
    }
    assert!(generation_log_kept(&FileOutcome::Decoded));
    assert!(!generation_log_kept(&FileOutcome::Undecodable("x".into())));
    assert!(!generation_log_kept(&FileOutcome::Missing));
}

#[test]
fn register_dedups_on_normalized_path_and_bumps_last_opened() {
    let mut r = ProjectRegistry::with_entries("/cfg/project-registry.json", vec![]);
    r.register("/work/Proj.palmier", 100, "id-1");
    assert_eq!(r.entries().len(), 1);
    r.register("/work/sub/../Proj.palmier", 200, "id-2");
    assert_eq!(r.entries().len(), 1, "messy path must dedup to one entry");
    assert_eq!(r.entries()[0].last_opened_date, 200);
    assert_eq!(r.entries()[0].created_date, 100);
    assert_eq!(r.entries()[0].id, "id-1");
}

#[test]
fn sorted_entries_newest_first() {
    let mut r = ProjectRegistry::with_entries("/cfg/r.json", vec![]);
    r.register("/w/A.palmier", 1, "a");
    r.register("/w/B.palmier", 2, "b");
    r.register("/w/C.palmier", 3, "c");
    r.register("/w/D.palmier", 2, "d");
    let names: Vec<String> = r.sorted_entries().iter().map(|e| e.name()).collect();
    assert_eq!(names, vec!["C", "B", "D", "A"], "newest first, ties in registration order");
}

#[test]
fn update_url_moves_entry_not_orphan() {
    let mut r = ProjectRegistry::with_entries("/cfg/r.json", vec![]);
    r.register("/w/Old.palmier", 1, "id");
    r.update_url("/w/Old.palmier", "/w/Renamed.palmier", 5);
    assert_eq!(r.entries().len(), 1);
    assert_eq!(r.entries()[0].id, "id");
    assert_eq!(r.entries()[0].name(), "Renamed");
    assert_eq!(r.entries()[0].last_opened_date, 5);
    r.update_url("/w/Old.palmier", "/w/Nope.palmier", 9);
    assert_eq!(r.entries()[0].name(), "Renamed", "no-op when old missing");
}

#[test]
fn remove_deletes_matching_entries() {
    let mut r = ProjectRegistry::with_entries("/cfg/r.json", vec![]);
    r.register("/w/Keep.palmier", 1, "k");
    r.register("/w/Go.palmier", 1, "g");
    r.remove("/w/./Go.palmier");
    assert_eq!(r.entries().len(), 1);
    assert_eq!(r.entries()[0].id, "k");
    assert_eq!(r.path(), "/cfg/r.json");
}

struct RecordingTrasher {
    trashed: RefCell<Vec<String>>,
    fail: bool,
}

impl Trasher for RecordingTrasher {
    fn trash(&self, path: &str) -> Result<(), std::io::Error> {
        if self.fail {
            return Err(std::io::Error::other("trash refused"));
        }
        self.trashed.borrow_mut().push(path.to_string());
        Ok(())
    }
}

#[test]
fn delete_trashes_then_removes_entry() {
    let mut r = ProjectRegistry::with_entries("/cfg/r.json", vec![]);
    r.register("/w/Gone.palmier", 1, "g");
    r.register("/w/Stay.palmier", 1, "s");
    let t = RecordingTrasher { trashed: RefCell::new(Vec::new()), fail: false };
    r.delete("/w/Gone.palmier", &t).unwrap();
    assert_eq!(*t.trashed.borrow(), vec!["/w/Gone.palmier".to_string()]);
    assert_eq!(r.entries().len(), 1);
    assert_eq!(r.entries()[0].id, "s");
}

#[test]
fn delete_keeps_entry_when_trash_fails() {
    let mut r = ProjectRegistry::with_entries("/cfg/r.json", vec![]);
    r.register("/w/Stuck.palmier", 1, "x");
    let t = RecordingTrasher { trashed: RefCell::new(Vec::new()), fail: true };
    assert!(r.delete("/w/Stuck.palmier", &t).is_err());
    assert_eq!(r.entries().len(), 1);
}

#[test]
fn registry_file_lives_under_the_config_directory() {
    assert_eq!(ProjectRegistry::path_under("/home/u/.config"), "/home/u/.config/palmier-pro/project-registry.json");
    if let Some(p) = ProjectRegistry::default_path() {
        assert!(p.ends_with("/palmier-pro/project-registry.json"));
    }
    let e = ProjectEntry { id: "x".into(), url: "/surely/not/here.palmier".into(), created_date: 0, last_opened_date: 0 };
    assert!(!e.is_accessible());
}

#[test]
fn entry_name_strips_extension() {
    let e = |url: &str| ProjectEntry { id: "x".into(), url: url.into(), created_date: 0, last_opened_date: 0 };
    assert_eq!(e("/w/My Film.palmier").name(), "My Film");
    assert_eq!(e("/w/a.b.palmier").name(), "a.b");
    assert_eq!(e("/w/.hidden").name(), ".hidden");
    assert_eq!(e("/w/plain").name(), "plain");
    assert_eq!(e("/").name(), "");
    assert_eq!(e("/w/x.palmier").dedup_key(), "/w/x.palmier");
}

#[test]
fn urlencode_keeps_unreserved_and_escapes_the_rest() {
    assert_eq!(urlencode("abc-XYZ_0.9~"), "abc-XYZ_0.9~");
    assert_eq!(urlencode("a b/c"), "a%20b%2Fc");
    assert_eq!(urlencode("é"), "%C3%A9");
    assert_eq!(urlencode(""), "");
}

#[test]
fn service_urls_join_base_and_path_with_one_slash() {
    assert_eq!(endpoint_url("https://x.convex.site/", "/v1/samples"), "https://x.convex.site/v1/samples");
    assert_eq!(endpoint_url("https://x.convex.site", "v1/samples"), "https://x.convex.site/v1/samples");
    assert_eq!(endpoint_url("https://x.convex.site//", "//v1/samples"), "https://x.convex.site/v1/samples");
    assert_eq!(
        resolve_url("https://x.convex.site/", "intro film"),
        "https://x.convex.site/v1/samples/resolve?slug=intro%20film"
    );
}

#[test]
fn sample_paths_use_safe_names() {
    assert_eq!(samples_root_under("/home/u/.config"), "/home/u/.config/palmier-pro/Samples");
    assert_eq!(slug_dir("/cache", "a/b:c"), "/cache/abc");
    assert_eq!(sample_bundle_path("/cache", "intro", "Demo: Film"), "/cache/intro/Demo Film.palmier");
}

#[test]
fn download_jobs_list_media_then_chat_then_poster() {
    let downloads = vec![SampleDownload { id: "m1".into(), relative_path: "media/a.mov".into(), url: "https://u/a".into() }];
    let chat = vec![SampleChat { name: "s1.json".into(), url: "https://u/s1".into() }];
    let jobs = download_jobs(&downloads, &chat, Some("https://u/poster.jpg"));
    assert_eq!(
        jobs,
        vec![
            ("media/a.mov".to_string(), "https://u/a".to_string()),
            ("chat/s1.json".to_string(), "https://u/s1".to_string()),
            ("thumbnail.jpg".to_string(), "https://u/poster.jpg".to_string()),
        ]
    );
    assert!(download_jobs(&vec![], &vec![], None).is_empty());
}

#[test]
fn error_messages_name_the_cause() {
    let e = BundleError::Corrupt { file: "project.json", detail: "missing".into() };
    assert_eq!(e.message(), "corrupt bundle: project.json: missing");
    let e = BundleError::WriteUnknown { file: "project.json", detail: "boom".into() };
    assert_eq!(e.message(), "write failed: project.json: boom");
    let e = BundleError::Io(std::io::Error::other("disk gone"));
    assert_eq!(e.message(), "io error: disk gone");
    assert_eq!(DialogError::WrongExtension.message(), "not a .palmier bundle (wrong extension)");
    assert_eq!(DialogError::NotFound.message(), "bundle does not exist");
    assert_eq!(DialogError::NotADirectory.message(), "bundle path is a file, not a directory");
    assert_eq!(SampleError::Network("offline".into()).message(), "sample network error: offline");
    assert_eq!(SampleError::Io(std::io::Error::other("full")).message(), "sample io error: full");
}

fn resolvable(id: &str, source: MediaSource, kind: ClipType) -> ResolvableEntry {
    ResolvableEntry { id: id.into(), name: format!("{id} name"), kind, source }
}

#[test]
fn resolver_resolve_vs_expected_and_missing() {
    let entries = vec![
        resolvable("here", MediaSource::External { absolute_path: "/".into() }, ClipType::Image),
        resolvable("gone", MediaSource::External { absolute_path: "/surely/not/here.mov".into() }, ClipType::Video),
        resolvable("proj", MediaSource::Project { relative_path: "media/clip.mov".into() }, ClipType::Video),
    ];
    let r = MediaResolver::new(&entries, Some("/proj/My.palmier"));
    assert_eq!(r.expected_url("proj").as_deref(), Some("/proj/My.palmier/media/clip.mov"));
    assert_eq!(r.expected_url("gone").as_deref(), Some("/surely/not/here.mov"));
    assert_eq!(r.resolve_url("gone"), None, "missing file does not resolve");
    assert!(r.is_missing("gone"));
    assert_eq!(r.resolve_url("here").as_deref(), Some("/"));
    assert!(!r.is_missing("here"));
    assert_eq!(r.expected_url("nope"), None);
    assert!(r.is_missing("nope"));
    assert_eq!(r.display_name("gone"), "gone name");
    assert_eq!(r.display_name("nope"), "Offline");
    assert_eq!(r.entry("proj").map(|e| e.kind), Some(ClipType::Video));
    let unsaved = MediaResolver::new(&entries, None);
    assert_eq!(unsaved.expected_url("proj"), None, "a project source needs the bundle path");
}

#[test]
fn resolver_given_existence_resolves_or_not() {
    let entries = vec![resolvable("proj", MediaSource::Project { relative_path: "media/clip.mov".into() }, ClipType::Video)];
    let r = MediaResolver::new(&entries, Some("/proj/My.palmier"));
    assert_eq!(r.resolve_url_given("proj", true).as_deref(), Some("/proj/My.palmier/media/clip.mov"));
    assert_eq!(r.resolve_url_given("proj", false), None);
    assert_eq!(r.resolve_url_given("nope", true), None);
    let unsaved = MediaResolver::new(&entries, None);
    assert_eq!(unsaved.resolve_url_given("proj", true), None);
}

#[test]
fn normalized_path_keeps_no_dot_and_only_leading_dot_dots() {
    assert_eq!(normalize_path("a/./b/../../../c"), "../c");
    assert_eq!(normalize_path("/x/../../y/./z"), "/../y/z");
    assert_eq!(normalize_path("./a/b/.."), "a");
    for p in ["a/./b/../../../c", "/x/../../y/./z", "./a/b/..", "../../k/./.."] {
        let n = normalize_path(p);
        let parts: Vec<&str> = n.split('/').filter(|c| !c.is_empty()).collect();
        assert!(!parts.contains(&"."), "{n}");
        if let Some(first_named) = parts.iter().position(|c| *c != "..") {
            assert!(!parts[first_named..].contains(&".."), "{n}");
        }
    }
}

#[test]
fn joined_source_resolves_back_to_the_same_text() {
    for base in ["/p/P.palmier", "/p/P.palmier/", "rel/P.palmier"] {
        let url = palmier::path::join(base, "media/sub/x.mov");
        let source = source_for_url(&url, Some(base));
        assert_eq!(source, MediaSource::Project { relative_path: "media/sub/x.mov".into() });
        assert_eq!(expected_url_for_source(&source, Some(base)), Some(url));
    }
}

#[test]
fn restore_logs_and_skips_missing_files() {
    let entries = vec![
        resolvable("here", MediaSource::External { absolute_path: "/".into() }, ClipType::Image),
        resolvable("gone", MediaSource::External { absolute_path: "/surely/not/here.mov".into() }, ClipType::Video),
        resolvable("proj", MediaSource::Project { relative_path: "media/clip.mov".into() }, ClipType::Video),
    ];
    let events = restore_entries(&entries, None);
    assert_eq!(
        events,
        vec![
            RestoreEvent::Restored { asset_id: "here".into(), url: "/".into(), kind: ClipType::Image },
            RestoreEvent::Missing { asset_id: "gone".into(), url: "/surely/not/here.mov".into() },
            RestoreEvent::Unresolvable { asset_id: "proj".into() },
        ]
    );
}

#[test]
fn recorded_project_source_resolves_back_to_the_file() {
    let base = "/proj/My.palmier";
    for url in ["/proj/My.palmier/media/clip.mov", "/proj/./My.palmier//media/a b.mov", "/proj/My.palmier"] {
        let source = source_for_url(url, Some(base));
        assert!(matches!(source, MediaSource::Project { .. }), "{url} is under the bundle");
        let back = expected_url_for_source(&source, Some(base)).unwrap();
        assert_eq!(normalize_path(&back), normalize_path(url), "{url} resolves back");
    }
}

#[test]
fn normalizing_twice_changes_nothing() {
    for p in ["/a/./b/../c/", "a/../../b", "./x//y/.", "/..", "", "/", "../a/./b"] {
        let once = normalize_path(p);
        assert_eq!(normalize_path(&once), once, "{p}");
    }
}

#[test]
fn safe_names_are_stable() {
    for s in ["a/b:c\\d", "plain", "::", ""] {
        let once = safe_name(s);
        assert!(!once.contains(['/', ':', '\\']));
        assert_eq!(safe_name(&once), once);
    }
}

#[test]
fn remove_undoes_register() {
    let mut r = ProjectRegistry::with_entries("/cfg/r.json", vec![]);
    r.register("/w/Keep.palmier", 1, "k");
    let mut alone = r.clone();
    alone.remove("/w/New.palmier");
    r.register("/w/./New.palmier", 2, "n");
    r.remove("/w/New.palmier");
    assert_eq!(r.entries(), alone.entries());
}

#[test]
fn path_extension_agrees_with_std() {
    let cases = [
        "a/b.tar.gz", ".hidden", "a.", "noext", "dir/..", "/", "", "a/b.mov/", "..foo", "x/.", "./clip.MOV",
        "/p/Project.palmier", "a/.b.c", "...", "a//b.txt", "a/./b.png/.",
    ];
    for p in cases {
        let expected = std::path::Path::new(p).extension().and_then(|e| e.to_str()).map(|e| e.to_string());
        assert_eq!(palmier::path::path_extension(p), expected, "{p:?}");
    }
}

#[test]
fn register_now_stamps_the_clock_and_a_fresh_id() {
    let mut r = ProjectRegistry::with_entries("/cfg/r.json", vec![]);
    r.register_now("/p/A.palmier");
    assert_eq!(r.entries().len(), 1);
    let first = r.entries()[0].clone();
    assert_eq!(first.id.len(), 36);
    assert_eq!(first.url, "/p/A.palmier");
    assert_eq!(first.created_date, first.last_opened_date);
    assert!(first.created_date > 1_600_000_000_000_000_000, "nanoseconds since the Unix epoch");
    r.register_now("/p/./A.palmier/");
    assert_eq!(r.entries().len(), 1, "the same normalized path keeps one entry");
    assert_eq!(r.entries()[0].id, first.id);
    assert!(r.entries()[0].last_opened_date >= first.last_opened_date);
    r.update_url_now("/p/A.palmier", "/q/B.palmier");
    assert_eq!(r.entries()[0].url, "/q/B.palmier");
    assert_eq!(r.entries()[0].created_date, first.created_date);
}
