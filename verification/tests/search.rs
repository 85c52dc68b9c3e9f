use palmier::model::clip_type::ClipType;
use palmier::search::coordinator::{
    IndexQueue, SweepCandidate, VisualStatus, is_blank_query, is_visual_kind, visual_candidates, wants_transcript,
};
use palmier::search::export_pause::ExportPauseCounter;
use palmier::search::indexer::{ExportYield, FrameMark, Indexed, NoExportYield, VisualIndexer};
use palmier::search::manifest::{OnnxManifest, SHA_PLACEHOLDER};
use palmier::search::model_loader::{InstalledModel, ModelState, VisualModelLoader};
use palmier::search::model_spec;
use palmier::search::sampler::{FrameSampler, SampleError, SAMPLER_VERSION};
use palmier::search::store::{
    cache_key_for_identity, decode, encode, header_span, lower_hex, EmbeddingStore, Header, Row,
    StoreError,
};
use palmier::search::tokenize::{pad_to_context, SiglipTokenizer, TokenizeError};
use palmier::search::transcript_search::{contains_all_terms, fold, SegmentHit, TranscriptSearch};
use sha2::{Digest, Sha256};
use tokenizers::models::wordlevel::WordLevel;
use tokenizers::pre_tokenizers::whitespace::Whitespace;
use tokenizers::Tokenizer;

#[test]
fn progress_split_visual_share_is_half_when_transcribing() {
    fn visual_share(transcribe: bool) -> f64 {
        if transcribe { 0.5 } else { 1.0 }
    }
    assert_eq!(visual_share(true), 0.5);
    assert_eq!(visual_share(false), 1.0);
}

#[test]
fn no_export_yield_is_a_noop() {
    let y = NoExportYield;
    assert!(y.wait_while_export_active().is_ok());
}

#[test]
fn manifest_constants_agree_with_spec() {
    let m = OnnxManifest::proposed_default();
    assert_eq!(m.model, model_spec::MODEL);
    assert_eq!(m.version, model_spec::MODEL_VERSION);
    assert_eq!(m.embedding_dim, model_spec::EMBEDDING_DIM);
    assert_eq!(m.image_size, model_spec::IMAGE_SIZE);
    assert_eq!(m.context_length, model_spec::CONTEXT_LENGTH);
    assert_eq!(m.version, 2);
}

#[test]
fn manifest_files_are_placeholders() {
    let m = OnnxManifest::proposed_default();
    assert_eq!(m.files.vision_model.name, "onnx/vision_model_fp16.onnx");
    assert_eq!(m.files.text_model.name, "onnx/text_model_fp16.onnx");
    assert_eq!(m.files.tokenizer.name, "tokenizer.json");
    assert_eq!(m.files.tokenizer.sha256, SHA_PLACEHOLDER);
    assert_eq!(m.files.vision_model.bytes, 0);
}

#[test]
fn terms_strip_edge_punctuation_and_drop_empties() {
    let t = TranscriptSearch::terms("  the budget, ... don't  ");
    assert_eq!(t, vec!["the", "budget", "don't"]);
    assert!(TranscriptSearch::terms("  ,.!?  ").is_empty());
    assert!(TranscriptSearch::terms("").is_empty());
}

#[test]
fn terms_split_on_unicode_space_and_strip_unicode_punctuation() {
    let t = TranscriptSearch::terms("«hola»\u{3000}¿qué?\tok…");
    assert_eq!(t, vec!["hola", "qué", "ok"]);
}

#[test]
fn fold_is_case_and_diacritic_insensitive() {
    assert_eq!(fold("Café"), "cafe");
    assert_eq!(fold("US"), "us");
    let terms = vec![fold("cafe")];
    assert!(contains_all_terms("We met at the café downtown", &terms));
    assert!(!contains_all_terms("No accent here either way", &terms));
    assert!(contains_all_terms("anything", &vec![]));
}

fn segs(texts: &[&str]) -> Option<Vec<String>> {
    Some(texts.iter().map(|s| s.to_string()).collect())
}

#[test]
fn search_returns_all_term_segments_in_order() {
    let t = vec![segs(&[
        "Welcome to the budget meeting",
        "The meeting starts now",
        "Our budget is tight",
        "BUDGET MEETING agenda follows",
        "No relevant content here",
        "A productive budget meeting indeed",
    ])];
    let hits = TranscriptSearch::search_segments("budget meeting", &t, 20);
    let idx: Vec<usize> = hits.iter().map(|h| h.segment).collect();
    assert_eq!(idx, vec![0, 3, 5]);
    assert!(TranscriptSearch::search_segments("   ", &t, 20).is_empty());
}

#[test]
fn search_is_asset_then_segment_ordered_and_capped() {
    let t = vec![
        segs(&["alpha one", "alpha two", "alpha three"]),
        None,
        segs(&["alpha four", "alpha five"]),
    ];
    let all = TranscriptSearch::search_segments("alpha", &t, 20);
    assert_eq!(all.len(), 5);
    assert_eq!(all[3], SegmentHit { asset: 2, segment: 0 });
    let capped = TranscriptSearch::search_segments("alpha", &t, 2);
    assert_eq!(capped, vec![SegmentHit { asset: 0, segment: 0 }, SegmentHit { asset: 0, segment: 1 }]);
    let zero = TranscriptSearch::search_segments("alpha", &t, 0);
    assert!(zero.is_empty(), "hits are capped at the limit, so a zero limit gives none");
}

fn sample_header(dim: usize, count: usize) -> Header {
    Header {
        model: model_spec::MODEL.to_string(),
        model_version: model_spec::MODEL_VERSION,
        sampler_version: model_spec::SAMPLER_VERSION,
        dim,
        count,
    }
}

fn row(t: f64, s: f64, e: f64) -> Row {
    Row { time: t.to_bits(), shot_start: s.to_bits(), shot_end: e.to_bits() }
}

#[test]
fn exact_golden_byte_buffer_for_known_count_dim() {
    let header = Header { model: "m".into(), model_version: 2, sampler_version: 1, dim: 2, count: 1 };
    let json = br#"{"model":"m","modelVersion":2,"samplerVersion":1,"dim":2,"count":1}"#;
    let rows = vec![row(1.0, 0.0, 2.0)];
    // binary16 0.5 = 0x3800, -1.0 = 0xBC00.
    let vectors = vec![0x3800u16, 0xBC00u16];
    let bytes = encode(json, &header, &rows, &vectors).unwrap();
    let mut golden = Vec::new();
    golden.extend_from_slice(b"PALMEMB1");
    golden.extend_from_slice(&(json.len() as u32).to_le_bytes());
    golden.extend_from_slice(json);
    golden.extend_from_slice(&1.0f64.to_le_bytes());
    golden.extend_from_slice(&0.0f64.to_le_bytes());
    golden.extend_from_slice(&2.0f64.to_le_bytes());
    golden.extend_from_slice(&[0x00, 0x38]);
    golden.extend_from_slice(&[0x00, 0xBC]);
    assert_eq!(bytes, golden);
}

#[test]
fn round_trips_through_bytes() {
    let h = sample_header(4, 2);
    let json = b"{}";
    let rows = vec![row(0.0, 0.0, 3.0), row(3.0, 3.0, 6.0)];
    let vectors = vec![1, 2, 3, 4, 5, 6, 7, 0xffff];
    let bytes = encode(json, &h, &rows, &vectors).unwrap();
    assert_eq!(bytes.len(), 8 + 4 + json.len() + 2 * (24 + 4 * 2));
    assert_eq!(header_span(&bytes), Ok(12 + json.len()));
    let back = decode(&bytes, h.clone()).unwrap();
    assert_eq!(back.header, h);
    assert_eq!(back.rows, rows);
    assert_eq!(back.vectors, vectors);
}

#[test]
fn encode_and_decode_report_each_error() {
    let h = sample_header(4, 2);
    assert_eq!(encode(b"{}", &h, &[row(0.0, 0.0, 1.0)], &[0; 8]), Err(StoreError::ShapeMismatch));
    assert_eq!(encode(b"{}", &h, &[row(0.0, 0.0, 1.0); 2], &[0; 7]), Err(StoreError::ShapeMismatch));
    assert_eq!(header_span(b"PALMEMB"), Err(StoreError::NotEmbedFile));
    assert_eq!(header_span(b"PALMEMB2\x00\x00\x00\x00"), Err(StoreError::NotEmbedFile));
    assert_eq!(header_span(b"PALMEMB1\x05\x00\x00\x00{}"), Err(StoreError::TruncatedHeader));
    let bytes = encode(b"{}", &h, &[row(0.0, 0.0, 1.0); 2], &[0; 8]).unwrap();
    assert_eq!(decode(&bytes[..bytes.len() - 1], h.clone()), Err(StoreError::SizeMismatch));
    assert_eq!(decode(&bytes, sample_header(4, 3)), Err(StoreError::SizeMismatch));
}

#[test]
fn cache_key_matches_known_sha256_prefix() {
    let identity = "C:/media/clip.mp4|1700000000|1234";
    let full: String = Sha256::digest(identity.as_bytes()).iter().map(|b| format!("{b:02x}")).collect();
    let k = cache_key_for_identity(identity);
    assert_eq!(k, &full[..32]);
    assert_eq!(k.len(), 32);
    assert_ne!(k, cache_key_for_identity("C:/media/clip.mp4|1700000001|1234"));
}

#[test]
fn lower_hex_writes_two_digits_per_byte() {
    assert_eq!(lower_hex(&[0x00, 0x0f, 0xa0, 0xff]), "000fa0ff");
    assert_eq!(lower_hex(&[]), "");
}

#[test]
fn store_paths_and_currency() {
    let store = EmbeddingStore::with_directory("/cache/embeddings");
    assert_eq!(store.directory(), "/cache/embeddings");
    assert_eq!(store.disk_path("deadbeef"), "/cache/embeddings/deadbeef.embed");
    assert_eq!(EmbeddingStore::directory_under("/home/u/.config"), "/home/u/.config/palmier-pro/Cache/embeddings");
    let h = sample_header(4, 2);
    assert!(EmbeddingStore::is_current(&Some(h.clone()), &h.model, h.model_version, h.sampler_version));
    assert!(!EmbeddingStore::is_current(&None, &h.model, h.model_version, h.sampler_version));
    assert!(!EmbeddingStore::is_current(&Some(h.clone()), "other-model", h.model_version, h.sampler_version));
    assert!(!EmbeddingStore::is_current(&Some(h.clone()), &h.model, h.model_version + 1, h.sampler_version));
    assert!(!EmbeddingStore::is_current(&Some(h.clone()), &h.model, h.model_version, h.sampler_version + 1));
}

#[test]
fn needs_index_follows_key_and_header() {
    let current = VisualIndexer::header_for(3);
    assert_eq!(current.dim, 768);
    assert_eq!(current.count, 3);
    assert!(!VisualIndexer::needs_index(&None, &None), "no key, nothing to index");
    assert!(VisualIndexer::needs_index(&Some("k".into()), &None));
    assert!(!VisualIndexer::needs_index(&Some("k".into()), &Some(current.clone())));
    let mut stale = current.clone();
    stale.model_version = 1;
    assert!(VisualIndexer::needs_index(&Some("k".into()), &Some(stale)));
    let store = EmbeddingStore::with_directory("/tmp");
    let ix = VisualIndexer::new(&store);
    assert_eq!(ix.embedding_store().directory(), "/tmp");
    assert_ne!(Indexed::Skipped, Indexed::NoKey);
}

fn mark(t: f64, new_shot: bool) -> FrameMark {
    FrameMark { time: t.to_bits(), is_new_shot: new_shot }
}

#[test]
fn two_shot_video_rows_have_correct_shot_boundaries() {
    let frames = vec![mark(1.0, true), mark(9.0, false), mark(12.0, true), mark(20.0, false)];
    let rows = VisualIndexer::build_video_rows(&frames, 24.0f64.to_bits());
    assert_eq!(rows.len(), 4);
    assert_eq!(rows[0], row(1.0, 0.0, 12.0));
    assert_eq!(rows[1], row(9.0, 0.0, 12.0));
    assert_eq!(rows[2], row(12.0, 12.0, 24.0));
    assert_eq!(rows[3], row(20.0, 12.0, 24.0));
}

#[test]
fn first_shot_always_starts_at_zero_even_if_frame_time_nonzero() {
    let rows = VisualIndexer::build_video_rows(&[mark(1.0, true)], 10.0f64.to_bits());
    assert_eq!(rows, vec![row(1.0, 0.0, 10.0)]);
    assert!(VisualIndexer::build_video_rows(&[], 10.0f64.to_bits()).is_empty());
}

#[test]
fn refcount_resumes_only_after_last_export_ends() {
    let mut c = ExportPauseCounter::new();
    assert!(!c.is_active());
    c.begin();
    c.begin();
    assert!(c.is_active());
    c.end();
    assert!(c.is_active(), "still one export in flight");
    c.end();
    assert!(!c.is_active());
    c.end();
    assert_eq!(c.count(), 0, "an unmatched end saturates at zero");
}

#[test]
fn default_state_is_not_active() {
    assert!(!ExportPauseCounter::new().is_active(), "default (no wiring) must not pause indexing");
}

#[test]
fn begin_end_pair_toggles_active() {
    let mut c = ExportPauseCounter::new();
    assert!(!c.is_active());
    c.begin();
    assert!(c.is_active());
    c.end();
    assert!(!c.is_active());
}

#[test]
fn end_saturates_at_zero() {
    let mut c = ExportPauseCounter::new();
    c.end();
    c.end();
    assert!(!c.is_active());
    c.begin();
    assert!(c.is_active());
}

#[test]
fn starts_unknown_enabled() {
    let l = VisualModelLoader::default();
    assert_eq!(*l.state(), ModelState::Unknown);
    assert!(l.enabled());
    assert!(!l.is_ready());
}

#[test]
fn prepare_with_no_model_is_not_installed() {
    let mut l = VisualModelLoader::new(true);
    l.prepare(None);
    assert_eq!(*l.state(), ModelState::NotInstalled);
}

#[test]
fn prepare_is_noop_when_disabled() {
    let mut l = VisualModelLoader::new(false);
    l.prepare(None);
    assert_eq!(*l.state(), ModelState::Unknown);
}

#[test]
fn prepare_is_idempotent_only_from_unknown() {
    let mut l = VisualModelLoader::new(true);
    l.prepare(None);
    assert_eq!(*l.state(), ModelState::NotInstalled);
    l.prepare(Some(InstalledModel { dir: "nope".into() }));
    assert_eq!(*l.state(), ModelState::NotInstalled);
}

#[test]
fn prepare_with_incomplete_model_fails() {
    let mut l = VisualModelLoader::new(true);
    l.prepare(Some(InstalledModel { dir: "/surely/not/a/model/dir".into() }));
    assert_eq!(*l.state(), ModelState::Failed("installed model incomplete".into()));
    assert!(!l.is_ready());
}

#[test]
fn download_stub_enters_downloading_and_progress_tracks() {
    let mut l = VisualModelLoader::new(true);
    l.download_stub();
    assert_eq!(*l.state(), ModelState::Downloading(0.0f64.to_bits()));
    l.set_download_progress(0.5f64.to_bits());
    assert_eq!(*l.state(), ModelState::Downloading(0.5f64.to_bits()));
    l.set_download_progress(2.0f64.to_bits());
    assert_eq!(*l.state(), ModelState::Downloading(1.0f64.to_bits()));
    l.set_download_progress((-0.25f64).to_bits());
    assert_eq!(*l.state(), ModelState::Downloading(0.0f64.to_bits()));
    l.fail("x");
    l.set_download_progress(0.3f64.to_bits());
    assert_eq!(*l.state(), ModelState::Failed("x".into()));
}

#[test]
fn download_stub_noop_when_ready_or_preparing() {
    let mut l = VisualModelLoader::from_parts(ModelState::Ready, true);
    l.download_stub();
    assert_eq!(*l.state(), ModelState::Ready);
    let mut l = VisualModelLoader::from_parts(ModelState::Preparing, true);
    l.download_stub();
    assert_eq!(*l.state(), ModelState::Preparing);
}

#[test]
fn disable_resets_ready_to_unknown() {
    let mut l = VisualModelLoader::from_parts(ModelState::Ready, true);
    l.set_enabled(false);
    assert_eq!(*l.state(), ModelState::Unknown);
    assert!(!l.enabled());
    let mut l = VisualModelLoader::from_parts(ModelState::NotInstalled, true);
    l.set_enabled(false);
    assert_eq!(*l.state(), ModelState::NotInstalled);
}

#[test]
fn installed_model_paths() {
    let m = InstalledModel { dir: "/models/siglip".into() };
    assert_eq!(m.vision_model_path(), "/models/siglip/vision_model.onnx");
    assert_eq!(m.text_model_path(), "/models/siglip/text_model.onnx");
    assert_eq!(m.tokenizer_path(), "/models/siglip/tokenizer.json");
    assert!(InstalledModel::probe("/surely/not/a/model/dir").is_none());
}

#[test]
fn sampler_version_and_error_message() {
    assert_eq!(FrameSampler::version(), SAMPLER_VERSION);
    assert_eq!(SampleError::Decode("no stream".into()).message(), "decode: no stream");
}

#[test]
fn asset_kinds_decide_transcript_and_visual_work() {
    assert!(wants_transcript(ClipType::Audio, false));
    assert!(wants_transcript(ClipType::Video, true));
    assert!(!wants_transcript(ClipType::Video, false));
    assert!(!wants_transcript(ClipType::Image, true));
    assert!(is_visual_kind(ClipType::Video));
    assert!(is_visual_kind(ClipType::Image));
    assert!(!is_visual_kind(ClipType::Audio));
    assert!(!is_visual_kind(ClipType::Text));
}

#[test]
fn queue_schedules_once_and_drains_in_order() {
    let mut q = IndexQueue::new();
    assert!(q.schedule("a", true, false, true));
    assert!(!q.schedule("a", true, false, true), "already queued");
    assert!(!q.schedule("b", false, false, true), "embedder not ready");
    assert!(!q.schedule("b", true, true, true), "still generating");
    assert!(!q.schedule("b", true, false, false), "nothing to do");
    assert!(q.schedule("b", true, false, true));
    assert_eq!(q.batch_counts(), (0, 2));
    assert!(q.indexing_active());
    let g = q.claim_worker().unwrap();
    assert!(q.claim_worker().is_none(), "single worker");
    assert_eq!(q.dequeue(g), Some("a".to_string()));
    q.complete_asset(g);
    assert_eq!(q.dequeue(g), Some("b".to_string()));
    q.mark_failed("b");
    q.complete_asset(g);
    assert_eq!(q.batch_counts(), (2, 2));
    assert!(!q.indexing_active());
    assert_eq!(q.dequeue(g), None);
    assert_eq!(q.batch_counts(), (0, 0), "a drained queue resets the batch");
    assert!(!q.schedule("b", true, false, true), "failed this batch");
    assert!(q.begin_sweep(true));
    assert!(q.schedule("b", true, false, true), "a sweep forgets failures");
    q.finish_worker(g);
    assert!(q.claim_worker().is_some());
}

#[test]
fn cancel_clears_queue_and_bumps_generation() {
    let mut q = IndexQueue::new();
    assert!(q.schedule("c1", true, false, true));
    let g0 = q.worker_generation();
    q.cancel();
    assert_eq!(q.queued(), 0, "cancel clears the queue");
    assert_eq!(q.batch_counts().1, 0);
    assert!(q.worker_generation() > g0, "cancel bumps the generation");
}

#[test]
fn visual_status_disabled_when_toggle_off() {
    let mut q = IndexQueue::new();
    q.set_search_index_enabled(false);
    assert_eq!(q.visual_status(&ModelState::Ready), VisualStatus::Disabled);
    assert_eq!(q.visual_status(&ModelState::NotInstalled), VisualStatus::Disabled);
}

#[test]
fn visual_status_maps_loader_states() {
    let q = IndexQueue::new();
    assert_eq!(q.visual_status(&ModelState::NotInstalled), VisualStatus::ModelNotInstalled);
    assert_eq!(q.visual_status(&ModelState::Preparing), VisualStatus::Preparing);
    assert_eq!(
        q.visual_status(&ModelState::Downloading(0.4f64.to_bits())),
        VisualStatus::DownloadingModel(0.4f64.to_bits())
    );
    assert_eq!(q.visual_status(&ModelState::Failed("boom".into())), VisualStatus::Failed("boom".into()));
    assert_eq!(q.visual_status(&ModelState::Unknown), VisualStatus::Disabled);
}

#[test]
fn visual_status_ready_is_disabled_on_default_build() {
    let q = IndexQueue::new();
    assert_eq!(q.visual_status(&ModelState::Ready), VisualStatus::Disabled);
}

#[test]
fn cancel_makes_the_running_worker_stale() {
    let mut q = IndexQueue::new();
    q.schedule("a", true, false, true);
    q.schedule("b", true, false, true);
    let g = q.claim_worker().unwrap();
    q.cancel();
    assert_eq!(q.queued(), 0);
    assert_eq!(q.dequeue(g), None);
    q.complete_asset(g);
    assert_eq!(q.batch_counts(), (0, 0), "a stale completion does not count");
    q.set_search_index_enabled(false);
    assert!(!q.search_index_enabled());
    assert!(!q.schedule("c", true, false, true), "toggle off");
    assert!(!q.begin_sweep(true));
}

#[test]
fn search_empty_query_returns_empty() {
    assert!(is_blank_query(""));
    assert!(is_blank_query("  \t\n"));
    assert!(is_blank_query("\u{3000}\u{a0}"));
    assert!(!is_blank_query("  beach "));
}

#[test]
fn search_within_scopes_to_given_ids() {
    let assets = vec![
        ("v1".to_string(), ClipType::Video),
        ("a1".to_string(), ClipType::Audio),
        ("i1".to_string(), ClipType::Image),
        ("v2".to_string(), ClipType::Video),
    ];
    assert_eq!(visual_candidates(&assets, None), vec![0, 2, 3]);
    let within = vec!["v2".to_string(), "a1".to_string()];
    assert_eq!(visual_candidates(&assets, Some(&within)), vec![3]);
}

#[test]
fn single_shot_last_shot_end_is_duration() {
    let frames = vec![mark(1.0, true), mark(9.0, false), mark(17.0, false)];
    let rows = VisualIndexer::build_video_rows(&frames, 24.0f64.to_bits());
    assert_eq!(rows.len(), 3);
    for r in &rows {
        assert_eq!(r.shot_start, 0.0f64.to_bits());
        assert_eq!(r.shot_end, 24.0f64.to_bits());
    }
}

#[test]
fn three_shots_chain_shot_end_to_next_shot_start() {
    let frames = vec![mark(1.0, true), mark(5.0, true), mark(9.0, true)];
    let rows = VisualIndexer::build_video_rows(&frames, 12.0f64.to_bits());
    assert_eq!(rows[0], row(1.0, 0.0, 5.0));
    assert_eq!(rows[1], row(5.0, 5.0, 9.0));
    assert_eq!(rows[2], row(9.0, 9.0, 12.0));
}

#[test]
fn needs_index_false_for_missing_file() {
    // An unreadable file has no cache key, and then nothing is indexed.
    assert!(!VisualIndexer::needs_index(&None, &None));
    assert!(VisualIndexer::needs_index(&Some("k".to_string()), &None));
}

#[test]
fn byte_layout_matches_reference_formula() {
    let h = sample_header(4, 2);
    let json = br#"{"model":"siglip2-base-patch16-256","modelVersion":2,"samplerVersion":1,"dim":4,"count":2}"#;
    let rows = vec![row(0.0, 0.0, 3.0), row(3.0, 3.0, 6.0)];
    let vectors: Vec<u16> = vec![0x3800, 0xB800, 0x3800, 0xB800, 0x2E66, 0x3266, 0x34CD, 0x3B6B];
    let bytes = encode(json, &h, &rows, &vectors).unwrap();
    let expected = 8 + 4 + json.len() + h.count * (24 + h.dim * 2);
    assert_eq!(bytes.len(), expected);
    assert_eq!(&bytes[..8], b"PALMEMB1");
    let read_len = u32::from_le_bytes(bytes[8..12].try_into().unwrap()) as usize;
    assert_eq!(read_len, json.len());
}

#[test]
fn cache_key_is_32_hex_chars_and_stable() {
    let key = |p: &str, m: f64, s: u64| cache_key_for_identity(&format!("{p}|{m}|{s}"));
    let k = key("C:/media/clip.mp4", 1_700_000_000.0, 1234);
    assert_eq!(k.len(), 32);
    assert!(k.chars().all(|c| c.is_ascii_hexdigit()));
    assert_eq!(k, key("C:/media/clip.mp4", 1_700_000_000.0, 1234));
    assert_ne!(k, key("C:/media/clip.mp4", 1_700_000_001.0, 1234));
    assert_ne!(k, key("C:/media/clip.mp4", 1_700_000_000.0, 1235));
    assert_ne!(k, key("C:/media/other.mp4", 1_700_000_000.0, 1234));
}

#[test]
fn is_current_reflects_header_match() {
    let h = sample_header(4, 2);
    assert!(!EmbeddingStore::is_current(&None, &h.model, h.model_version, h.sampler_version));
    let stored = Some(h.clone());
    assert!(EmbeddingStore::is_current(&stored, &h.model, h.model_version, h.sampler_version));
    assert!(!EmbeddingStore::is_current(&stored, "other-model", h.model_version, h.sampler_version));
    assert!(!EmbeddingStore::is_current(&stored, &h.model, h.model_version + 1, h.sampler_version));
    assert!(!EmbeddingStore::is_current(&stored, &h.model, h.model_version, h.sampler_version + 1));
}

#[test]
fn schedule_requires_embedder_ready() {
    let mut q = IndexQueue::new();
    assert!(!q.schedule("a", false, false, true));
    assert!(!q.indexing_active());
    assert!(q.schedule("a", true, false, true));
    assert!(q.indexing_active());
}

#[test]
fn schedule_skips_generating_asset() {
    let mut q = IndexQueue::new();
    assert!(!q.schedule("g", true, true, true), "a generating asset is never scheduled");
}

#[test]
fn schedule_dedupes_within_queue() {
    let mut q = IndexQueue::new();
    assert!(q.schedule("dup", true, false, true));
    assert!(!q.schedule("dup", true, false, true));
    assert_eq!(q.batch_counts().1, 1);
}

#[test]
fn schedule_skips_when_toggle_off() {
    let mut q = IndexQueue::new();
    q.set_search_index_enabled(false);
    assert!(!q.schedule("off", true, false, true));
}

fn candidate(id: &str, is_generating: bool, needs_work: bool) -> SweepCandidate {
    SweepCandidate { id: id.to_string(), is_generating, needs_work }
}

fn drain(q: &mut IndexQueue) -> Vec<String> {
    let generation = q.claim_worker().unwrap();
    let mut out = Vec::new();
    while let Some(id) = q.dequeue(generation) {
        out.push(id);
    }
    out
}

#[test]
fn sweep_queues_needing_assets_in_order() {
    let mut q = IndexQueue::new();
    assert!(q.schedule("a", true, false, true));
    let cands = vec![
        candidate("b", false, true),
        candidate("gen", true, true),
        candidate("a", false, true),
        candidate("fresh", false, false),
        candidate("c", false, true),
        candidate("b", false, true),
    ];
    q.sweep(&cands, true);
    assert_eq!(q.batch_counts(), (0, 3));
    assert_eq!(drain(&mut q), vec!["a", "b", "c"]);
}

#[test]
fn sweep_gives_failed_assets_a_fresh_chance() {
    let mut q = IndexQueue::new();
    q.mark_failed("x");
    assert!(!q.schedule("x", true, false, true));
    q.sweep(&vec![candidate("x", false, true)], true);
    assert_eq!(q.queued(), 1);
}

#[test]
fn sweep_without_embedder_or_toggle_changes_nothing() {
    let mut q = IndexQueue::new();
    q.mark_failed("x");
    q.sweep(&vec![candidate("x", false, true), candidate("y", false, true)], false);
    assert_eq!(q.queued(), 0);
    assert!(!q.schedule("x", true, false, true));
    q.set_search_index_enabled(false);
    q.sweep(&vec![candidate("y", false, true)], true);
    assert_eq!(q.queued(), 0);
}

#[test]
fn sweeping_twice_queues_nothing_more() {
    let mut q = IndexQueue::new();
    let cands = vec![candidate("a", false, true), candidate("b", false, true), candidate("c", true, true)];
    q.sweep(&cands, true);
    assert_eq!(q.batch_counts(), (0, 2));
    q.sweep(&cands, true);
    assert_eq!(q.batch_counts(), (0, 2));
    assert_eq!(drain(&mut q), vec!["a", "b"]);
}

/// A tiny whitespace tokenizer with a fixed vocabulary, id 0 the pad token.
fn toy(context_length: usize) -> SiglipTokenizer {
    let mut vocab: Vec<(String, u32)> = vec![("<pad>".to_string(), 0)];
    for (i, w) in ["a", "quick", "brown", "fox", "jumps"].iter().enumerate() {
        vocab.push((w.to_string(), (i + 1) as u32));
    }
    let wl = WordLevel::builder().vocab(vocab.into_iter().collect()).unk_token("<pad>".into()).build().unwrap();
    let mut tk = Tokenizer::new(wl);
    tk.with_pre_tokenizer(Some(Whitespace {}));
    SiglipTokenizer::from_tokenizer(tk, context_length)
}

#[test]
fn pads_to_context_length_with_zero() {
    let t = toy(64);
    let ids = t.encode("quick brown fox").unwrap();
    assert_eq!(ids.len(), 64);
    assert_eq!(&ids[..3], &[2, 3, 4]);
    assert!(ids[3..].iter().all(|&x| x == 0), "tail must be pad id 0");
}

#[test]
fn truncates_to_context_length() {
    let t = toy(2);
    let ids = t.encode("quick brown fox jumps").unwrap();
    assert_eq!(ids, vec![2, 3]);
    assert_eq!(t.context_length(), 2);
}

#[test]
fn empty_text_is_all_pad() {
    let t = toy(8);
    assert_eq!(t.encode("").unwrap(), vec![0; 8]);
}

#[test]
fn pad_to_context_cuts_and_pads() {
    assert_eq!(pad_to_context(&[7, 8, 9], 5), vec![7, 8, 9, 0, 0]);
    assert_eq!(pad_to_context(&[7, 8, 9], 2), vec![7, 8]);
    assert!(pad_to_context(&[7], 0).is_empty());
}

#[test]
fn tokenizer_file_errors_are_load_errors() {
    match SiglipTokenizer::from_file("/surely/not/a/tokenizer.json") {
        Err(e) => {
            assert!(matches!(e, TokenizeError::Load(_)));
            assert!(e.message().starts_with("load tokenizer.json: "));
        }
        Ok(_) => panic!("a missing file cannot load"),
    }
    assert_eq!(TokenizeError::Encode("bad".into()).message(), "encode: bad");
}

#[test]
fn ending_an_export_restores_the_count_it_began_from() {
    for start in [0usize, 1, 3] {
        let mut c = ExportPauseCounter::with_count(start);
        c.begin();
        assert!(c.is_active());
        assert_eq!(c.count(), start + 1);
        c.end();
        assert_eq!(c.count(), start);
    }
}
