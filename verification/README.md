# palmier

The core of a video editor's project layer, verified with Verus: the timeline
and media model, the `.palmier` bundle rules, the project registry, the media
resolver, sample bundles, and the search index's byte format, queue and
transcript matching.

- `src/` — the verified library. Functions carry contracts; the laws
  that relate several operations are public proof functions named `law_*`.
  - `model/` — clip timing and fades, keyframe tracks, clip types, edit
    selections, media folders (lookup, walks, moves, subfolders, deletes).
  - `project/` — bundle read verdicts, file dialog rules, the document's dirty
    state, the project registry, media resolution, sample bundle paths and
    URLs.
  - `search/` — the `.embed` byte format and cache keys, the indexing queue,
    the export pause, the model loader's states, shot rows, the tokenizer's
    fixed-length ids and transcript search.
  - `path.rs`, `text.rs` — lexical path and text helpers; `sys.rs` — thin
    calls into std and `dirs`. Every call into std or an outside crate sits in
    a small `external_body` function whose doc comment says what its contract
    trusts.
- `tests/` — tests of the library on concrete values.
- `app/` — the unverified rest: serde shapes, floating-point math, pixel
  preprocessing, file I/O (reading and atomically writing bundles, the
  registry file, `.embed` files), the process-wide export pause, the indexing
  worker with its registry of live coordinators (its scheduling decisions are
  the library's queue), and sample downloads over HTTP.

The agent-instructions prompt text that accompanies the editor is not
included: its text file is not part of this source tree.
