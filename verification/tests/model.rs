use palmier::model::animatable_property::AnimatableProperty;
use palmier::model::clip::{
    has_any_clip, has_overlap, start_order, total_frames, track_end_frame, ClipTiming, FadeEdge,
};
use palmier::model::clip_type::ClipType;
use palmier::model::edit_types::{FrameRange, GapSelection, TimelineRangeSelection};
use palmier::model::interpolation::Interpolation;
use palmier::model::keyframe::{clamp_keyframes_to_duration, to_abs, to_offset, Keyframe, KeyframeTrack};
use palmier::model::library::{create_folder, move_assets_to_folder, plan_delete_folders, AssetPlacement};
use palmier::model::manifest::MediaFolder;
use palmier::model::media_asset::GenerationStatus;
use palmier::model::media_folders::{move_folders_to_folder, rename_folder, MediaFolderIndex};
use palmier::model::volume::VolumeScale;
use palmier::model::CRATE_NAME;

fn interp(a: f64, b: f64, offset: i64, span: i64, smooth: bool) -> f64 {
    let raw = offset as f64 / span as f64;
    let t = if smooth { raw * raw * (3.0 - 2.0 * raw) } else { raw };
    a + (b - a) * t
}

#[test]
fn all_has_six_distinct_variants() {
    assert_eq!(AnimatableProperty::ALL.len(), 6);
}

#[test]
fn is_visual_matrix() {
    assert!(ClipType::Video.is_visual());
    assert!(ClipType::Image.is_visual());
    assert!(ClipType::Text.is_visual());
    assert!(ClipType::Lottie.is_visual());
    assert!(!ClipType::Audio.is_visual());
}

#[test]
fn is_compatible_truth_table() {
    let visual = [ClipType::Video, ClipType::Image, ClipType::Text, ClipType::Lottie];
    for &a in &visual {
        for &b in &visual {
            assert!(a.is_compatible(b), "{a:?} should be compatible with {b:?}");
        }
        assert!(!a.is_compatible(ClipType::Audio), "{a:?} vs audio");
        assert!(!ClipType::Audio.is_compatible(a), "audio vs {a:?}");
    }
    assert!(ClipType::Audio.is_compatible(ClipType::Audio));
}

#[test]
fn from_file_extension_representative() {
    assert_eq!(ClipType::from_file_extension("mov"), Some(ClipType::Video));
    assert_eq!(ClipType::from_file_extension("mp4"), Some(ClipType::Video));
    assert_eq!(ClipType::from_file_extension("m4v"), Some(ClipType::Video));
    assert_eq!(ClipType::from_file_extension("mp3"), Some(ClipType::Audio));
    assert_eq!(ClipType::from_file_extension("wav"), Some(ClipType::Audio));
    assert_eq!(ClipType::from_file_extension("aac"), Some(ClipType::Audio));
    assert_eq!(ClipType::from_file_extension("m4a"), Some(ClipType::Audio));
    assert_eq!(ClipType::from_file_extension("png"), Some(ClipType::Image));
    assert_eq!(ClipType::from_file_extension("jpg"), Some(ClipType::Image));
    assert_eq!(ClipType::from_file_extension("jpeg"), Some(ClipType::Image));
    assert_eq!(ClipType::from_file_extension("tiff"), Some(ClipType::Image));
    assert_eq!(ClipType::from_file_extension("heic"), Some(ClipType::Image));
    assert_eq!(ClipType::from_file_extension("webp"), Some(ClipType::Image));
    assert_eq!(ClipType::from_file_extension("json"), Some(ClipType::Lottie));
    assert_eq!(ClipType::from_file_extension("lottie"), Some(ClipType::Lottie));
    assert_eq!(ClipType::from_file_extension("MOV"), None);
    assert_eq!(ClipType::from_file_extension(".mov"), None);
    assert_eq!(ClipType::from_file_extension("txt"), None);
    assert_eq!(ClipType::from_file_extension(""), None);
}

#[test]
fn frame_range_length_and_half_open_contains() {
    let r = FrameRange::new(10, 20);
    assert_eq!(r.length(), 10);
    assert!(r.contains(10), "start frame is inside");
    assert!(r.contains(19), "frame just before end is inside");
    assert!(!r.contains(20), "end frame is OUTSIDE (half-open)");
    assert!(!r.contains(9), "before start is outside");
}

#[test]
fn frame_range_empty_contains_nothing() {
    let empty = FrameRange::new(5, 5);
    assert_eq!(empty.length(), 0);
    assert!(!empty.contains(5));
}

#[test]
fn gap_selection_wraps_track_and_range() {
    let g = GapSelection::new(2, FrameRange::new(30, 45));
    assert_eq!(g.track_index, 2);
    assert_eq!(g.range.length(), 15);
}

#[test]
fn range_selection_normalizes_reversed_drag() {
    let reversed = TimelineRangeSelection::new(100, 40);
    let n = reversed.normalized();
    assert_eq!(n.start_frame, 40);
    assert_eq!(n.end_frame, 100);
    let forward = TimelineRangeSelection::new(40, 100);
    assert_eq!(forward.normalized(), forward);
}

#[test]
fn range_selection_is_valid_requires_span() {
    assert!(TimelineRangeSelection::new(10, 20).is_valid());
    assert!(TimelineRangeSelection::new(20, 10).is_valid(), "reversed but spans");
    assert!(!TimelineRangeSelection::new(15, 15).is_valid(), "zero-width invalid");
}

#[test]
fn range_selection_half_open_contains_boundary() {
    let sel = TimelineRangeSelection::new(10, 20);
    assert!(sel.contains(10), "start inside");
    assert!(sel.contains(19), "before end inside");
    assert!(!sel.contains(20), "end OUTSIDE (half-open)");
    assert!(!sel.contains(9), "before start outside");
    let rev = TimelineRangeSelection::new(20, 10);
    assert!(rev.contains(10));
    assert!(!rev.contains(20));
}

#[test]
fn range_selection_direction_does_not_matter() {
    let a = TimelineRangeSelection::new(7, 3);
    let b = TimelineRangeSelection::new(3, 7);
    assert_eq!(a.normalized(), b.normalized());
    assert_eq!(a.normalized().normalized(), a.normalized());
}

#[test]
fn default_is_smooth() {
    assert_eq!(Interpolation::default(), Interpolation::Smooth);
}

#[test]
fn track_is_active() {
    let mut t: KeyframeTrack<f64> = KeyframeTrack::new();
    assert!(!t.is_active());
    t.upsert(Keyframe::new(0, 1.0));
    assert!(t.is_active());
}

#[test]
fn upsert_keeps_sorted_and_unique() {
    let mut t: KeyframeTrack<f64> = KeyframeTrack::new();
    t.upsert(Keyframe::new(10, 1.0));
    t.upsert(Keyframe::new(0, 2.0));
    t.upsert(Keyframe::new(5, 3.0));
    let frames: Vec<i32> = t.keyframes.iter().map(|k| k.frame).collect();
    assert_eq!(frames, vec![0, 5, 10]);
    t.upsert(Keyframe::new(5, 99.0));
    assert_eq!(t.keyframes.len(), 3);
    assert_eq!(t.keyframes[1].value, 99.0);
}

#[test]
fn move_is_noop_when_target_occupied() {
    let mut t: KeyframeTrack<f64> = KeyframeTrack::new();
    t.upsert(Keyframe::new(0, 1.0));
    t.upsert(Keyframe::new(10, 2.0));
    t.move_keyframe(0, 10);
    let frames: Vec<i32> = t.keyframes.iter().map(|k| k.frame).collect();
    assert_eq!(frames, vec![0, 10]);
    assert_eq!(t.keyframes[0].value, 1.0);
    t.move_keyframe(0, 5);
    let frames: Vec<i32> = t.keyframes.iter().map(|k| k.frame).collect();
    assert_eq!(frames, vec![5, 10]);
}

#[test]
fn remove_undoes_upsert_of_new_frame() {
    let mut t: KeyframeTrack<f64> = KeyframeTrack::new();
    t.upsert(Keyframe::new(0, 1.0));
    t.upsert(Keyframe::new(10, 2.0));
    let before = t.clone();
    t.upsert(Keyframe::new(4, 3.0));
    assert_eq!(t.keyframes.len(), 3);
    t.remove(4);
    assert_eq!(t, before);
}

fn two_kf(interp: Interpolation) -> KeyframeTrack<f64> {
    let mut t = KeyframeTrack::new();
    t.upsert(Keyframe::with_interpolation(0, 0.0, interp));
    t.upsert(Keyframe::with_interpolation(10, 1.0, interp));
    t
}

#[test]
fn empty_track_returns_fallback() {
    let t: KeyframeTrack<f64> = KeyframeTrack::new();
    assert_eq!(t.sample(0, 0.42, interp), 0.42);
    assert_eq!(t.sample(100, -1.0, interp), -1.0);
}

#[test]
fn single_keyframe_returns_its_value_everywhere() {
    let mut t = KeyframeTrack::new();
    t.upsert(Keyframe::new(5, 7.0_f64));
    assert_eq!(t.sample(-100, 0.0, interp), 7.0);
    assert_eq!(t.sample(5, 0.0, interp), 7.0);
    assert_eq!(t.sample(1000, 0.0, interp), 7.0);
}

#[test]
fn linear_boundaries_and_midpoint() {
    let t = two_kf(Interpolation::Linear);
    assert_eq!(t.sample(0, -9.0, interp), 0.0);
    assert_eq!(t.sample(-5, -9.0, interp), 0.0);
    assert_eq!(t.sample(10, -9.0, interp), 1.0);
    assert_eq!(t.sample(50, -9.0, interp), 1.0);
    assert!((t.sample(5, -9.0, interp) - 0.5).abs() < 1e-12);
    assert!((t.sample(3, -9.0, interp) - 0.3).abs() < 1e-12);
}

#[test]
fn smooth_boundaries_and_midpoint() {
    let t = two_kf(Interpolation::Smooth);
    assert_eq!(t.sample(0, -9.0, interp), 0.0);
    assert_eq!(t.sample(10, -9.0, interp), 1.0);
    assert!((t.sample(5, -9.0, interp) - 0.5).abs() < 1e-12);
    assert!((t.sample(2, -9.0, interp) - 0.104).abs() < 1e-12);
    assert!((t.sample(8, -9.0, interp) - 0.896).abs() < 1e-12);
}

#[test]
fn hold_returns_left_keyframe_until_next_key() {
    let t = two_kf(Interpolation::Hold);
    assert_eq!(t.sample(0, -9.0, interp), 0.0);
    assert_eq!(t.sample(3, -9.0, interp), 0.0);
    assert_eq!(t.sample(9, -9.0, interp), 0.0);
    assert_eq!(t.sample(10, -9.0, interp), 1.0);
}

#[test]
fn three_keyframe_mixed_interpolation() {
    let mut t = KeyframeTrack::new();
    t.upsert(Keyframe::with_interpolation(0, 0.0, Interpolation::Linear));
    t.upsert(Keyframe::with_interpolation(10, 1.0, Interpolation::Hold));
    t.upsert(Keyframe::with_interpolation(20, 3.0, Interpolation::Smooth));
    assert_eq!(t.sample(0, -9.0, interp), 0.0);
    assert!((t.sample(5, -9.0, interp) - 0.5).abs() < 1e-12);
    assert_eq!(t.sample(10, -9.0, interp), 1.0);
    assert_eq!(t.sample(15, -9.0, interp), 1.0);
    assert_eq!(t.sample(20, -9.0, interp), 3.0);
}

#[test]
fn clamp_to_duration_drops_out_of_range() {
    let mut t = KeyframeTrack::new();
    t.upsert(Keyframe::new(-5, 1.0_f64));
    t.upsert(Keyframe::new(0, 2.0));
    t.upsert(Keyframe::new(10, 3.0));
    t.upsert(Keyframe::new(20, 4.0));
    let clamped = t.clamp_to_duration(10).unwrap();
    let frames: Vec<i32> = clamped.keyframes.iter().map(|k| k.frame).collect();
    assert_eq!(frames, vec![0, 10]);
    let mut t2 = KeyframeTrack::new();
    t2.upsert(Keyframe::new(50, 1.0_f64));
    assert!(t2.clamp_to_duration(10).is_none());
}

#[test]
fn clamp_optional_track_keeps_none_and_clamps_some() {
    assert!(clamp_keyframes_to_duration::<f64>(None, 10).is_none());
    let mut t = KeyframeTrack::new();
    t.upsert(Keyframe::new(3, 1.0_f64));
    t.upsert(Keyframe::new(30, 2.0));
    let c = clamp_keyframes_to_duration(Some(t), 10).unwrap();
    assert_eq!(c.keyframes.len(), 1);
    assert_eq!(c.keyframes[0].frame, 3);
}

#[test]
fn clip_relative_abs_offset_seam() {
    let start = 30;
    let abs = to_abs(7, start);
    assert_eq!(abs, 37);
    assert_eq!(to_offset(abs, start), 7);
}

#[test]
fn crate_name_is_set() {
    assert_eq!(CRATE_NAME, "palmier-model");
}

#[test]
fn generation_status_default_is_none() {
    assert_eq!(GenerationStatus::default(), GenerationStatus::Idle);
}

#[test]
fn three_distinct_db_constant_pairs_are_separate() {
    assert_eq!(VolumeScale::FLOOR_DB as f64, -60.0);
    assert_eq!(VolumeScale::CEILING_DB as f64, 15.0);
    assert_eq!(VolumeScale::RUBBER_BAND_TOP_DB as f64, 6.0);
    assert_eq!(VolumeScale::RUBBER_BAND_BOTTOM_DB as f64, -60.0);
    assert_ne!(VolumeScale::RUBBER_BAND_TOP_DB, VolumeScale::CEILING_DB);
}

// ---- clip timing ----

#[test]
fn clip_end_frame_and_contains() {
    let c = ClipTiming::new(30, 60);
    assert_eq!(c.end_frame(), 90);
    assert!(c.contains(30));
    assert!(c.contains(89));
    assert!(!c.contains(90));
    assert!(!c.contains(29));
}

#[test]
fn fades_clamp_to_duration() {
    let mut c = ClipTiming::new(0, 10);
    c.set_fade(FadeEdge::Left, 7);
    assert_eq!(c.fade_in_frames, 7);
    c.set_fade(FadeEdge::Right, 8);
    assert_eq!(c.fade_out_frames, 3, "tail clamps into what the head leaves");
    c.set_fade(FadeEdge::Left, -4);
    assert_eq!(c.fade_in_frames, 0, "negative fade counts as none");
    c.set_duration(2);
    assert_eq!(c.fade_in_frames, 0);
    assert_eq!(c.fade_out_frames, 2);
    c.set_fade(FadeEdge::Left, 50);
    assert_eq!((c.fade_in_frames, c.fade_out_frames), (2, 0));
}

#[test]
fn track_end_is_max_end_or_zero() {
    assert_eq!(track_end_frame(&[]), 0);
    let clips = [ClipTiming::new(0, 30), ClipTiming::new(100, 5), ClipTiming::new(40, 10)];
    assert_eq!(track_end_frame(&clips), 105);
    let tracks = vec![clips.to_vec(), vec![ClipTiming::new(0, 200)], vec![]];
    assert_eq!(total_frames(&tracks), 200);
    assert_eq!(total_frames(&vec![]), 0);
    assert!(has_any_clip(&tracks));
    assert!(!has_any_clip(&vec![vec![], vec![]]));
}

#[test]
fn overlap_detection_orders_by_start() {
    let apart = [ClipTiming::new(30, 30), ClipTiming::new(0, 30)];
    assert!(!has_overlap(&apart), "touching clips do not overlap");
    let over = [ClipTiming::new(40, 10), ClipTiming::new(0, 45)];
    assert!(has_overlap(&over));
    assert!(!has_overlap(&[]));
    // Equal starts: the later-listed clip counts as coming after.
    let zero_first = [ClipTiming::new(0, 0), ClipTiming::new(0, 5)];
    assert!(!has_overlap(&zero_first));
    let long_first = [ClipTiming::new(0, 5), ClipTiming::new(0, 0)];
    assert!(has_overlap(&long_first));
}

// ---- folders ----

fn folder(id: &str, name: &str, parent: Option<&str>) -> MediaFolder {
    MediaFolder { id: id.to_string(), name: name.to_string(), parent_id: parent.map(|p| p.to_string()) }
}

fn placement(id: &str, folder: Option<&str>) -> AssetPlacement {
    AssetPlacement { id: id.to_string(), folder_id: folder.map(|f| f.to_string()) }
}

#[test]
fn rename_folder_changes_only_a_new_name() {
    let mut fs = vec![folder("a", "Footage", None)];
    assert!(rename_folder(&mut fs, "a", "B-Roll"));
    assert_eq!(fs[0].name, "B-Roll");
    assert!(!rename_folder(&mut fs, "a", "B-Roll"));
    assert!(!rename_folder(&mut fs, "nope", "X"));
}

#[test]
fn is_descendant_self_and_chain() {
    let fs = vec![folder("a", "A", None), folder("b", "B", Some("a")), folder("c", "C", Some("b"))];
    let idx = MediaFolderIndex::new(&fs);
    assert!(idx.is_descendant("a", "a"));
    assert!(idx.is_descendant("c", "a"));
    assert!(idx.is_descendant("b", "a"));
    assert!(!idx.is_descendant("a", "c"));
    let path: Vec<&str> = idx.path(Some("c")).iter().map(|f| f.name.as_str()).collect();
    assert_eq!(path, vec!["A", "B", "C"]);
    assert!(idx.path(None).is_empty());
    let mut all = idx.ids_including_descendants(&vec!["b".to_string()]);
    all.sort();
    assert_eq!(all, vec!["b".to_string(), "c".to_string()]);
}

#[test]
fn move_guards_reject_cycles_and_no_ops() {
    let mut fs = vec![folder("a", "A", None), folder("b", "B", Some("a")), folder("c", "C", Some("b"))];
    assert!(!move_folders_to_folder(&mut fs, &vec!["a".to_string()], Some("a")), "into itself");
    assert!(!move_folders_to_folder(&mut fs, &vec!["a".to_string()], Some("c")), "into a descendant");
    assert!(!move_folders_to_folder(&mut fs, &vec!["b".to_string()], Some("a")), "already there");
    assert!(!move_folders_to_folder(&mut fs, &vec![], None), "nothing to move");
    assert_eq!(fs[0].parent_id, None);
    assert!(move_folders_to_folder(&mut fs, &vec!["c".to_string()], None));
    assert_eq!(fs[2].parent_id, None);
    assert!(move_folders_to_folder(&mut fs, &vec!["c".to_string()], Some("a")));
    assert_eq!(fs[2].parent_id, Some("a".to_string()));
}

#[test]
fn delete_folders_cascades_to_descendants_assets_and_clips() {
    let fs = vec![folder("a", "A", None), folder("b", "B", Some("a")), folder("o", "Other", None)];
    let assets = vec![placement("in_a", Some("a")), placement("in_b", Some("b")), placement("outside", None)];
    let entries = assets.clone();
    let tracks = vec![
        vec!["in_b".to_string(), "outside".to_string()],
        vec!["in_a".to_string()],
    ];
    let plan = plan_delete_folders(&fs, &assets, &entries, &tracks, &vec!["a".to_string()]).unwrap();
    assert_eq!(plan.folders_kept, vec![2]);
    assert_eq!(plan.assets_kept, vec![2]);
    assert_eq!(plan.entries_kept, vec![2]);
    assert_eq!(plan.clips_kept, vec![vec![1], vec![]]);
    assert_eq!(plan.tracks_kept, vec![0], "the emptied track is pruned");
}

#[test]
fn delete_leaves_no_orphaned_folder() {
    let fs = vec![
        folder("root", "Root", None),
        folder("mid", "Mid", Some("root")),
        folder("leaf", "Leaf", Some("mid")),
        folder("deeper", "Deeper", Some("leaf")),
        folder("side", "Side", Some("root")),
    ];
    let none: Vec<AssetPlacement> = vec![];
    let tracks: Vec<Vec<String>> = vec![];
    let plan = plan_delete_folders(&fs, &none, &none, &tracks, &vec!["mid".to_string()]).unwrap();
    assert_eq!(plan.folders_kept, vec![0, 4]);
    let kept: Vec<&str> = plan.folders_kept.iter().map(|&k| fs[k].id.as_str()).collect();
    for &k in &plan.folders_kept {
        if let Some(p) = &fs[k].parent_id {
            assert!(kept.contains(&p.as_str()), "{} lost its parent", fs[k].id);
        }
    }
}

#[test]
fn delete_folders_without_match_changes_nothing() {
    let fs = vec![folder("a", "A", None)];
    let none: Vec<AssetPlacement> = vec![];
    let tracks: Vec<Vec<String>> = vec![vec![]];
    assert!(plan_delete_folders(&fs, &none, &none, &tracks, &vec![]).is_none());
    assert!(plan_delete_folders(&fs, &none, &none, &tracks, &vec!["zz".to_string()]).is_none());
    // A match that removes no clip keeps every track, even an empty one.
    let plan = plan_delete_folders(&fs, &none, &none, &tracks, &vec!["a".to_string()]).unwrap();
    assert_eq!(plan.tracks_kept, vec![0]);
    assert!(plan.folders_kept.is_empty());
}

#[test]
fn create_folder_appends_with_fresh_uuid() {
    let mut fs = vec![];
    let a = create_folder(&mut fs, "Footage", None);
    let b = create_folder(&mut fs, "Sub", Some(&a));
    assert_eq!(a.len(), 36);
    assert_ne!(a, b);
    assert_eq!(fs.len(), 2);
    assert_eq!(fs[0].name, "Footage");
    assert_eq!(fs[1].parent_id, Some(a.clone()));
}

#[test]
fn move_assets_to_folder_reparents_and_skips_no_ops() {
    let mut assets = vec![placement("a1", None), placement("a2", Some("f"))];
    let mut entries = vec![placement("a2", Some("f")), placement("a1", None)];
    let ids = vec!["a1".to_string(), "a2".to_string(), "missing".to_string()];
    assert!(move_assets_to_folder(&mut assets, &mut entries, &ids, Some("f")));
    assert_eq!(assets[0].folder_id, Some("f".to_string()));
    assert_eq!(entries[1].folder_id, Some("f".to_string()), "manifest entry kept in sync");
    assert!(!move_assets_to_folder(&mut assets, &mut entries, &ids, Some("f")), "already there");
    assert!(!move_assets_to_folder(&mut assets, &mut entries, &vec![], None));
    assert!(move_assets_to_folder(&mut assets, &mut entries, &vec!["a2".to_string()], None));
    assert_eq!(assets[1].folder_id, None);
    assert_eq!(entries[0].folder_id, None);
}

#[test]
fn subfolders_are_ordered_by_lowercased_name() {
    let f = |id: &str, name: &str, parent: Option<&str>| MediaFolder {
        id: id.into(),
        name: name.into(),
        parent_id: parent.map(|p| p.to_string()),
    };
    let fs = vec![
        f("1", "beta", None),
        f("2", "Alpha", None),
        f("3", "child", Some("1")),
        f("4", "alpha", None),
        f("5", "Zed", None),
        f("6", "épée", None),
    ];
    let idx = MediaFolderIndex::new(&fs);
    let top: Vec<&str> = idx.subfolders(None).iter().map(|f| f.id.as_str()).collect();
    assert_eq!(top, vec!["2", "4", "1", "5", "6"], "case-insensitive, ties keep list order");
    let kids: Vec<&str> = idx.subfolders(Some("1")).iter().map(|f| f.id.as_str()).collect();
    assert_eq!(kids, vec!["3"]);
    assert!(idx.subfolders(Some("9")).is_empty());
}

#[test]
fn clips_sort_by_start_stably() {
    let at = |start: i32| ClipTiming::new(start, 10);
    let clips = vec![at(30), at(0), at(30), at(10)];
    assert_eq!(start_order(&clips), vec![1, 3, 0, 2], "equal starts keep list order");
    assert!(start_order(&[]).is_empty());
}

fn parent_of(fs: &[MediaFolder], id: &str) -> Option<String> {
    MediaFolderIndex::new(fs).folder(id).unwrap().parent_id.clone()
}

#[test]
fn create_and_rename_folder() {
    let mut fs: Vec<MediaFolder> = vec![];
    let id = create_folder(&mut fs, "Footage", None);
    assert_eq!(fs.len(), 1);
    assert_eq!(MediaFolderIndex::new(&fs).folder(&id).unwrap().name, "Footage");
    assert!(rename_folder(&mut fs, &id, "B-Roll"));
    assert_eq!(MediaFolderIndex::new(&fs).folder(&id).unwrap().name, "B-Roll");
    assert!(!rename_folder(&mut fs, &id, "B-Roll"));
    assert!(!rename_folder(&mut fs, "nope", "X"));
}

#[test]
fn move_into_self_is_rejected() {
    let mut fs: Vec<MediaFolder> = vec![];
    let a = create_folder(&mut fs, "A", None);
    assert!(!move_folders_to_folder(&mut fs, &vec![a.clone()], Some(&a)));
    assert_eq!(parent_of(&fs, &a), None);
}

#[test]
fn move_into_descendant_is_rejected() {
    let mut fs: Vec<MediaFolder> = vec![];
    let a = create_folder(&mut fs, "A", None);
    let b = create_folder(&mut fs, "B", Some(&a));
    let c = create_folder(&mut fs, "C", Some(&b));
    assert!(!move_folders_to_folder(&mut fs, &vec![a.clone()], Some(&c)));
    assert_eq!(parent_of(&fs, &a), None);
    assert!(!move_folders_to_folder(&mut fs, &vec![a.clone()], Some(&b)));
    assert_eq!(parent_of(&fs, &a), None);
}

#[test]
fn move_no_op_already_parent_is_rejected() {
    let mut fs: Vec<MediaFolder> = vec![];
    let a = create_folder(&mut fs, "A", None);
    let b = create_folder(&mut fs, "B", Some(&a));
    assert!(!move_folders_to_folder(&mut fs, &vec![b.clone()], Some(&a)));
    assert_eq!(parent_of(&fs, &b), Some(a.clone()));
}

#[test]
fn move_folder_accepts_valid_reparent() {
    let mut fs: Vec<MediaFolder> = vec![];
    let a = create_folder(&mut fs, "A", None);
    let b = create_folder(&mut fs, "B", None);
    assert!(move_folders_to_folder(&mut fs, &vec![b.clone()], Some(&a)));
    assert_eq!(parent_of(&fs, &b), Some(a.clone()));
    assert!(move_folders_to_folder(&mut fs, &vec![b.clone()], None));
    assert_eq!(parent_of(&fs, &b), None);
}

#[test]
fn folder_path_and_subfolders() {
    let mut fs: Vec<MediaFolder> = vec![];
    let a = create_folder(&mut fs, "Apple", None);
    let z = create_folder(&mut fs, "zebra", Some(&a));
    let _b = create_folder(&mut fs, "Banana", Some(&a));
    let idx = MediaFolderIndex::new(&fs);
    let path: Vec<&str> = idx.path(Some(&z)).iter().map(|f| f.name.as_str()).collect();
    assert_eq!(path, vec!["Apple", "zebra"]);
    let subs: Vec<&str> = idx.subfolders(Some(&a)).iter().map(|f| f.name.as_str()).collect();
    assert_eq!(subs, vec!["Banana", "zebra"]);
    let top: Vec<&str> = idx.subfolders(None).iter().map(|f| f.name.as_str()).collect();
    assert_eq!(top, vec!["Apple"]);
}

#[test]
fn end_frame_and_total_frames_over_multi_clip_fixture() {
    let v = vec![ClipTiming::new(0, 30), ClipTiming::new(30, 60)];
    assert_eq!(track_end_frame(&v), 90);
    let a = vec![ClipTiming::new(0, 120)];
    assert_eq!(track_end_frame(&a), 120);
    assert_eq!(total_frames(&vec![v, a]), 120);
}

#[test]
fn fps_freeze_after_first_clip() {
    // The frame rate can change only while no track holds a clip.
    let mut tracks: Vec<Vec<ClipTiming>> = vec![vec![]];
    assert!(!has_any_clip(&tracks));
    tracks[0].push(ClipTiming::new(0, 30));
    assert!(has_any_clip(&tracks));
}

#[test]
fn has_overlap_detects_overlapping_clips() {
    let mut tr = vec![ClipTiming::new(0, 30), ClipTiming::new(30, 30)];
    assert!(!has_overlap(&tr));
    tr.push(ClipTiming::new(50, 30));
    assert!(has_overlap(&tr));
}

#[test]
fn moves_never_close_a_loop() {
    let mut fs: Vec<MediaFolder> = vec![];
    let a = create_folder(&mut fs, "A", None);
    let b = create_folder(&mut fs, "B", None);
    // B cannot go into itself; A goes under B.
    assert!(move_folders_to_folder(&mut fs, &vec![a.clone(), b.clone()], Some(&b)));
    assert_eq!(parent_of(&fs, &a), Some(b.clone()));
    assert_eq!(parent_of(&fs, &b), None);
    // B under A would make B its own ancestor.
    assert!(!move_folders_to_folder(&mut fs, &vec![b.clone()], Some(&a)));
    let idx = MediaFolderIndex::new(&fs);
    assert!(!idx.is_descendant(&b, &a));
    let path: Vec<&str> = idx.path(Some(&a)).iter().map(|f| f.name.as_str()).collect();
    assert_eq!(path, vec!["B", "A"]);
}

#[test]
fn clamping_fades_twice_changes_nothing() {
    let mut c = ClipTiming::new(0, 10);
    c.fade_in_frames = 9;
    c.fade_out_frames = 9;
    c.clamp_fades_to_duration();
    let once = c;
    c.clamp_fades_to_duration();
    assert_eq!(c, once);
    assert!(c.fade_in_frames + c.fade_out_frames <= c.duration_frames);
}
