use vstd::prelude::*;

use unicode_normalization::UnicodeNormalization;

use crate::sys::push_char;
use crate::text::views;

verus! {

/// Whisper model id of the bundled English model, the default lookup key.
pub const DEFAULT_MODEL_ID: &'static str = "ggml-small.en";

/// Language tag paired with `DEFAULT_MODEL_ID`.
pub const DEFAULT_LANGUAGE: &'static str = "en";

/// Default result cap.
pub const DEFAULT_LIMIT: usize = 20;

// ---------------------------------------------------------------------------
// Characters
// ---------------------------------------------------------------------------

/// Unicode `White_Space`: the characters a query is split on.
pub open spec fn is_white_space(c: char) -> bool {
    let u = c as u32;
    (0x9 <= u && u <= 0xd) || u == 0x20 || u == 0x85 || u == 0xa0 || u == 0x1680 || (0x2000 <= u
        && u <= 0x200a) || u == 0x2028 || u == 0x2029 || u == 0x202f || u == 0x205f || u == 0x3000
}

/// Punctuation stripped from the edges of a query token: ASCII punctuation
/// plus `¡ ¿ « »`, the general-punctuation blocks U+2010–U+2027 and
/// U+2030–U+205E, and the CJK corner brackets U+300C–U+300F.
pub open spec fn is_edge_punctuation(c: char) -> bool {
    let u = c as u32;
    (0x21 <= u && u <= 0x2f) || (0x3a <= u && u <= 0x40) || (0x5b <= u && u <= 0x60) || (0x7b
        <= u && u <= 0x7e) || u == 0xa1 || u == 0xbf || u == 0xab || u == 0xbb || (0x2010 <= u
        && u <= 0x2027) || (0x2030 <= u && u <= 0x205e) || (0x300c <= u && u <= 0x300f)
}

pub(crate) fn white_space(c: char) -> (r: bool)
    ensures
        r == is_white_space(c),
{
    let u = c as u32;
    (0x9 <= u && u <= 0xd) || u == 0x20 || u == 0x85 || u == 0xa0 || u == 0x1680 || (0x2000 <= u
        && u <= 0x200a) || u == 0x2028 || u == 0x2029 || u == 0x202f || u == 0x205f || u == 0x3000
}

fn edge_punctuation(c: char) -> (r: bool)
    ensures
        r == is_edge_punctuation(c),
{
    let u = c as u32;
    (0x21 <= u && u <= 0x2f) || (0x3a <= u && u <= 0x40) || (0x5b <= u && u <= 0x60) || (0x7b
        <= u && u <= 0x7e) || u == 0xa1 || u == 0xbf || u == 0xab || u == 0xbb || (0x2010 <= u
        && u <= 0x2027) || (0x2030 <= u && u <= 0x205e) || (0x300c <= u && u <= 0x300f)
}

fn chars_of(s: &str) -> (r: Vec<char>)
    ensures
        r@ == s@,
{
    let mut v: Vec<char> = Vec::new();
    for c in it: s.chars()
        invariant
            it.seq() == s@,
            v@ == it.seq().take(it.index() as int),
    {
        v.push(c);
    }
    v
}

fn string_of(cs: &Vec<char>, from: usize, to: usize) -> (r: String)
    requires
        from <= to <= cs@.len(),
    ensures
        r@ == cs@.subrange(from as int, to as int),
{
    let mut out = String::new();
    let mut i = from;
    while i < to
        invariant
            from <= i <= to,
            to <= cs@.len(),
            out@ == cs@.subrange(from as int, i as int),
        decreases to - i,
    {
        push_char(&mut out, cs[i]);
        assert(cs@.subrange(from as int, i + 1) =~= cs@.subrange(from as int, i as int).push(
            cs@[i as int],
        ));
        i = i + 1;
    }
    out
}

// ---------------------------------------------------------------------------
// Query terms
// ---------------------------------------------------------------------------

/// Scanning a query left to right: the finished tokens and the token being read.
pub open spec fn split_state(s: Seq<char>) -> (Seq<Seq<char>>, Seq<char>)
    decreases s.len(),
{
    if s.len() == 0 {
        (Seq::empty(), Seq::empty())
    } else {
        let (done, cur) = split_state(s.drop_last());
        if is_white_space(s.last()) {
            if cur.len() > 0 {
                (done.push(cur), Seq::empty())
            } else {
                (done, cur)
            }
        } else {
            (done, cur.push(s.last()))
        }
    }
}

/// The maximal runs of non-white-space characters, in order.
pub open spec fn split_white_space(s: Seq<char>) -> Seq<Seq<char>> {
    let (done, cur) = split_state(s);
    if cur.len() > 0 {
        done.push(cur)
    } else {
        done
    }
}

/// `t` without its leading edge punctuation.
pub open spec fn trim_start(t: Seq<char>) -> Seq<char>
    decreases t.len(),
{
    if t.len() > 0 && is_edge_punctuation(t[0]) {
        trim_start(t.drop_first())
    } else {
        t
    }
}

/// `t` without its trailing edge punctuation.
pub open spec fn trim_end(t: Seq<char>) -> Seq<char>
    decreases t.len(),
{
    if t.len() > 0 && is_edge_punctuation(t.last()) {
        trim_end(t.drop_last())
    } else {
        t
    }
}

/// `t` without edge punctuation at either end (interior punctuation stays).
pub open spec fn trimmed(t: Seq<char>) -> Seq<char> {
    trim_end(trim_start(t))
}

/// The trimmed tokens that are not empty, in order.
pub open spec fn keep_terms(tokens: Seq<Seq<char>>) -> Seq<Seq<char>>
    decreases tokens.len(),
{
    if tokens.len() == 0 {
        Seq::empty()
    } else {
        let rest = keep_terms(tokens.drop_last());
        if trimmed(tokens.last()).len() > 0 {
            rest.push(trimmed(tokens.last()))
        } else {
            rest
        }
    }
}

/// The search terms of a query.
pub open spec fn query_terms(q: Seq<char>) -> Seq<Seq<char>> {
    keep_terms(split_white_space(q))
}

fn trim_token(t: &Vec<char>) -> (r: String)
    ensures
        r@ == trimmed(t@),
{
    let n = t.len();
    let mut a: usize = 0;
    assert(t@.subrange(0, n as int) =~= t@);
    while a < n && edge_punctuation(t[a])
        invariant
            n == t@.len(),
            a <= n,
            trim_start(t@) == trim_start(t@.subrange(a as int, n as int)),
        decreases n - a,
    {
        assert(t@.subrange(a as int, n as int).drop_first() =~= t@.subrange(a + 1, n as int));
        a = a + 1;
    }
    assert(trim_start(t@) == t@.subrange(a as int, n as int));
    let mut b: usize = n;
    while b > a && edge_punctuation(t[b - 1])
        invariant
            n == t@.len(),
            a <= b <= n,
            trim_end(t@.subrange(a as int, n as int)) == trim_end(t@.subrange(a as int, b as int)),
        decreases b,
    {
        assert(t@.subrange(a as int, b as int).drop_last() =~= t@.subrange(a as int, b - 1));
        b = b - 1;
    }
    string_of(t, a, b)
}

/// A token has ended: keep its trimmed form unless that is empty.
fn end_token(out: &mut Vec<String>, cur: &Vec<char>, Ghost(done): Ghost<Seq<Seq<char>>>)
    requires
        views(old(out)@) == keep_terms(done),
    ensures
        views(final(out)@) == keep_terms(done.push(cur@)),
{
    let t = trim_token(cur);
    let ghost pushed = done.push(cur@);
    assert(pushed.drop_last() =~= done);
    if t.as_str().unicode_len() > 0 {
        out.push(t);
        assert(views(final(out)@) =~= views(old(out)@).push(trimmed(cur@)));
    }
}

/// A query split into search terms: split on white space, strip edge
/// punctuation from each token, drop the tokens that end up empty.
pub struct TranscriptSearch;

impl TranscriptSearch {
    /// The search terms of `query`: its white-space separated tokens with
    /// leading and trailing punctuation stripped, empty ones dropped.
    pub fn terms(query: &str) -> (r: Vec<String>)
        ensures
            views(r@) == query_terms(query@),
    {
        let qs = chars_of(query);
        let n = qs.len();
        let mut out: Vec<String> = Vec::new();
        let mut cur: Vec<char> = Vec::new();
        let mut i: usize = 0;
        while i < n
            invariant
                n == qs@.len(),
                qs@ == query@,
                i <= n,
                cur@ == split_state(qs@.take(i as int)).1,
                views(out@) == keep_terms(split_state(qs@.take(i as int)).0),
            decreases n - i,
        {
            let c = qs[i];
            let ghost pre = qs@.take(i as int);
            assert(qs@.take(i + 1).drop_last() =~= pre);
            if white_space(c) {
                if cur.len() > 0 {
                    end_token(&mut out, &cur, Ghost(split_state(pre).0));
                    cur = Vec::new();
                }
            } else {
                cur.push(c);
            }
            i = i + 1;
        }
        assert(qs@.take(n as int) =~= query@);
        if cur.len() > 0 {
            end_token(&mut out, &cur, Ghost(split_state(query@).0));
        }
        out
    }
}

// ---------------------------------------------------------------------------
// Case- and diacritic-insensitive matching
// ---------------------------------------------------------------------------

/// What canonical decomposition (Unicode NFD) gives for a text.
pub uninterp spec fn nfd_of(s: Seq<char>) -> Seq<char>;

/// Whether a character is a combining mark (`General_Category=Mark`).
pub uninterp spec fn combining_mark(c: char) -> bool;

/// The Unicode lowercase mapping of a character (one or more characters).
pub uninterp spec fn lowercase_of(c: char) -> Seq<char>;

/// Calls `unicode_normalization::UnicodeNormalization::nfd` and collects the
/// decomposition; it is a function of the text alone, named and not stated.
#[verifier::external_body]
fn nfd(s: &str) -> (r: String)
    ensures
        r@ == nfd_of(s@),
{
    s.nfd().collect()
}

/// Calls `unicode_normalization::char::is_combining_mark`; a table lookup on
/// the character alone, named and not stated.
#[verifier::external_body]
fn is_combining_mark(c: char) -> (r: bool)
    ensures
        r == combining_mark(c),
{
    unicode_normalization::char::is_combining_mark(c)
}

/// Calls `char::to_lowercase` and collects the mapping; a function of the
/// character alone, named and not stated.
#[verifier::external_body]
fn to_lowercase(c: char) -> (r: String)
    ensures
        r@ == lowercase_of(c),
{
    c.to_lowercase().collect()
}

/// Drops the combining marks and lowercases what is left.
pub open spec fn fold_chars(s: Seq<char>) -> Seq<char>
    decreases s.len(),
{
    if s.len() == 0 {
        Seq::empty()
    } else {
        fold_chars(s.drop_last()) + if combining_mark(s.last()) {
            Seq::<char>::empty()
        } else {
            lowercase_of(s.last())
        }
    }
}

/// The case- and diacritic-insensitive form of a text: decompose (NFD), drop
/// combining marks, lowercase.
pub open spec fn folded(s: Seq<char>) -> Seq<char> {
    fold_chars(nfd_of(s))
}

/// Whether `needle` occurs in `hay` as a contiguous run.
pub open spec fn contains_run(hay: Seq<char>, needle: Seq<char>) -> bool {
    exists|i: int| 0 <= i <= hay.len() - needle.len() && #[trigger] hay.subrange(i, i + needle.len()) == needle
}

/// Whether a segment text contains every (already folded) term once folded.
pub open spec fn segment_matches(text: Seq<char>, folded_terms: Seq<Seq<char>>) -> bool {
    forall|k: int| 0 <= k < folded_terms.len() ==> contains_run(folded(text), #[trigger] folded_terms[k])
}

/// The case- and diacritic-insensitive form of `s`.
pub fn fold(s: &str) -> (r: String)
    ensures
        r@ == folded(s@),
{
    let d = nfd(s);
    let cs = chars_of(d.as_str());
    let mut out = String::new();
    let mut i: usize = 0;
    while i < cs.len()
        invariant
            i <= cs@.len(),
            cs@ == nfd_of(s@),
            out@ == fold_chars(cs@.take(i as int)),
        decreases cs@.len() - i,
    {
        let c = cs[i];
        assert(cs@.take(i + 1).drop_last() =~= cs@.take(i as int));
        if !is_combining_mark(c) {
            let l = to_lowercase(c);
            out.append(l.as_str());
        } else {
            assert(out@ =~= out@ + Seq::<char>::empty());
        }
        i = i + 1;
    }
    assert(cs@.take(i as int) =~= cs@);
    out
}

fn run_at(hay: &Vec<char>, needle: &Vec<char>, at: usize) -> (r: bool)
    requires
        at + needle@.len() <= hay@.len(),
    ensures
        r == (hay@.subrange(at as int, at + needle@.len()) == needle@),
{
    let hl = hay.len();
    let mut k: usize = 0;
    while k < needle.len()
        invariant
            k <= needle@.len(),
            hl == hay@.len(),
            at + needle@.len() <= hay@.len(),
            forall|j: int| 0 <= j < k ==> hay@[at + j] == needle@[j],
        decreases needle@.len() - k,
    {
        if hay[at + k] != needle[k] {
            assert(hay@.subrange(at as int, at + needle@.len())[k as int] != needle@[k as int]);
            return false;
        }
        k = k + 1;
    }
    assert(hay@.subrange(at as int, at + needle@.len()) =~= needle@);
    true
}

fn contains_chars(hay: &Vec<char>, needle: &Vec<char>) -> (r: bool)
    ensures
        r == contains_run(hay@, needle@),
{
    if needle.len() > hay.len() {
        return false;
    }
    let last = hay.len() - needle.len();
    let mut i: usize = 0;
    while i <= last
        invariant
            last == hay@.len() - needle@.len(),
            needle@.len() <= hay@.len(),
            forall|j: int| 0 <= j < i ==> #[trigger] hay@.subrange(j, j + needle@.len()) != needle@,
        ensures
            forall|j: int|
                0 <= j <= last ==> #[trigger] hay@.subrange(j, j + needle@.len()) != needle@,
        decreases last + 1 - i,
    {
        if run_at(hay, needle, i) {
            return true;
        }
        if i == last {
            break;
        }
        i = i + 1;
    }
    false
}

/// Whether `text` contains every one of `folded_terms` under the case- and
/// diacritic-insensitive fold.
pub fn contains_all_terms(text: &str, folded_terms: &Vec<String>) -> (r: bool)
    ensures
        r == segment_matches(text@, views(folded_terms@)),
{
    let f = fold(text);
    let hay = chars_of(f.as_str());
    let mut k: usize = 0;
    while k < folded_terms.len()
        invariant
            k <= folded_terms@.len(),
            hay@ == folded(text@),
            forall|j: int| 0 <= j < k ==> contains_run(hay@, #[trigger] views(folded_terms@)[j]),
        decreases folded_terms@.len() - k,
    {
        let needle = chars_of(folded_terms[k].as_str());
        assert(views(folded_terms@)[k as int] == needle@);
        if !contains_chars(&hay, &needle) {
            return false;
        }
        k = k + 1;
    }
    true
}

// ---------------------------------------------------------------------------
// Selecting hits
// ---------------------------------------------------------------------------

/// A matching transcript segment: the index of its asset in the input and the
/// index of the segment in that asset's transcript.
#[derive(Debug, Clone, Copy, PartialEq, Eq)]
pub struct SegmentHit {
    pub asset: usize,
    pub segment: usize,
}

/// Hits as index pairs.
pub open spec fn hit_views(v: Seq<SegmentHit>) -> Seq<(int, int)> {
    v.map_values(|h: SegmentHit| (h.asset as int, h.segment as int))
}

/// The segment texts of each asset, `None` where no transcript is cached.
pub open spec fn transcript_views(ts: Seq<Option<Vec<String>>>) -> Seq<Option<Seq<Seq<char>>>> {
    ts.map_values(
        |o: Option<Vec<String>>|
            match o {
                Some(v) => Some(views(v@)),
                None => None,
            },
    )
}

/// The matching segments of asset `a`, in segment order.
pub open spec fn asset_hits(a: int, segs: Seq<Seq<char>>, folded_terms: Seq<Seq<char>>) -> Seq<
    (int, int),
>
    decreases segs.len(),
{
    if segs.len() == 0 {
        Seq::empty()
    } else {
        asset_hits(a, segs.drop_last(), folded_terms) + if segment_matches(
            segs.last(),
            folded_terms,
        ) {
            seq![(a, segs.len() - 1)]
        } else {
            Seq::<(int, int)>::empty()
        }
    }
}

/// The hits of one asset's (possibly missing) transcript.
pub open spec fn transcript_hits(
    a: int,
    t: Option<Seq<Seq<char>>>,
    folded_terms: Seq<Seq<char>>,
) -> Seq<(int, int)> {
    match t {
        Some(segs) => asset_hits(a, segs, folded_terms),
        None => Seq::empty(),
    }
}

/// Every matching segment, in asset order and then segment order.
pub open spec fn all_hits(ts: Seq<Option<Seq<Seq<char>>>>, folded_terms: Seq<Seq<char>>) -> Seq<
    (int, int),
>
    decreases ts.len(),
{
    if ts.len() == 0 {
        Seq::empty()
    } else {
        all_hits(ts.drop_last(), folded_terms) + transcript_hits(
            ts.len() - 1,
            ts.last(),
            folded_terms,
        )
    }
}

/// The folded search terms of a query.
pub open spec fn folded_query_terms(q: Seq<char>) -> Seq<Seq<char>> {
    query_terms(q).map_values(|t: Seq<char>| folded(t))
}

/// What a search returns: nothing for a query without terms; otherwise the
/// matching segments in asset, then segment, order, capped at `limit` (none
/// for a limit of 0).
pub open spec fn search_result(q: Seq<char>, ts: Seq<Option<Seq<Seq<char>>>>, limit: nat) -> Seq<
    (int, int),
> {
    let ft = folded_query_terms(q);
    if ft.len() == 0 {
        Seq::empty()
    } else {
        let h = all_hits(ts, ft);
        if h.len() <= limit {
            h
        } else {
            h.take(limit as int)
        }
    }
}

/// `p` is a prefix of `q`.
pub open spec fn prefix_of<A>(p: Seq<A>, q: Seq<A>) -> bool {
    p.len() <= q.len() && q.take(p.len() as int) == p
}

proof fn lemma_prefix_trans<A>(p: Seq<A>, q: Seq<A>, r: Seq<A>)
    requires
        prefix_of(p, q),
        prefix_of(q, r),
    ensures
        prefix_of(p, r),
{
    assert(r.take(p.len() as int) =~= q.take(p.len() as int));
}

proof fn lemma_prefix_append<A>(p: Seq<A>, x: Seq<A>)
    ensures
        prefix_of(p, p + x),
{
    assert((p + x).take(p.len() as int) =~= p);
}

proof fn lemma_asset_hits_prefix(a: int, segs: Seq<Seq<char>>, s: int, ft: Seq<Seq<char>>)
    requires
        0 <= s <= segs.len(),
    ensures
        prefix_of(asset_hits(a, segs.take(s), ft), asset_hits(a, segs, ft)),
    decreases segs.len(),
{
    if s == segs.len() {
        assert(segs.take(s) =~= segs);
        lemma_prefix_append(asset_hits(a, segs, ft), Seq::empty());
        assert(asset_hits(a, segs, ft) + Seq::<(int, int)>::empty() =~= asset_hits(a, segs, ft));
    } else {
        let d = segs.drop_last();
        assert(d.take(s) =~= segs.take(s));
        lemma_asset_hits_prefix(a, d, s, ft);
        let last_hits = if segment_matches(segs.last(), ft) {
            seq![(a, segs.len() - 1)]
        } else {
            Seq::<(int, int)>::empty()
        };
        lemma_prefix_append(asset_hits(a, d, ft), last_hits);
        lemma_prefix_trans(asset_hits(a, segs.take(s), ft), asset_hits(a, d, ft), asset_hits(a, segs, ft));
    }
}

proof fn lemma_all_hits_prefix(ts: Seq<Option<Seq<Seq<char>>>>, n: int, ft: Seq<Seq<char>>)
    requires
        0 <= n <= ts.len(),
    ensures
        prefix_of(all_hits(ts.take(n), ft), all_hits(ts, ft)),
    decreases ts.len(),
{
    if n == ts.len() {
        assert(ts.take(n) =~= ts);
        lemma_prefix_append(all_hits(ts, ft), Seq::empty());
        assert(all_hits(ts, ft) + Seq::<(int, int)>::empty() =~= all_hits(ts, ft));
    } else {
        let d = ts.drop_last();
        assert(d.take(n) =~= ts.take(n));
        lemma_all_hits_prefix(d, n, ft);
        lemma_prefix_append(all_hits(d, ft), transcript_hits(ts.len() - 1, ts.last(), ft));
        lemma_prefix_trans(all_hits(ts.take(n), ft), all_hits(d, ft), all_hits(ts, ft));
    }
}

impl TranscriptSearch {
    /// Selects the transcript segments that contain every term of `query`,
    /// compared case- and diacritic-insensitively. `transcripts` holds, per
    /// asset in order, its cached segment texts (`None` when nothing is cached:
    /// such an asset gives no hits). Hits come in asset order, then segment
    /// order, capped at `limit`: the search stops as soon as `limit` hits are
    /// collected, and a `limit` of 0 gives no hits. A query without terms gives
    /// no hits.
    pub fn search_segments(
        query: &str,
        transcripts: &Vec<Option<Vec<String>>>,
        limit: usize,
    ) -> (r: Vec<SegmentHit>)
        ensures
            hit_views(r@) == search_result(query@, transcript_views(transcripts@), limit as nat),
    {
        let terms = Self::terms(query);
        let ghost ftv = folded_query_terms(query@);
        let ghost tv = transcript_views(transcripts@);
        if terms.len() == 0 || limit == 0 {
            return Vec::new();
        }
        let mut ft: Vec<String> = Vec::new();
        let mut k: usize = 0;
        while k < terms.len()
            invariant
                k <= terms@.len(),
                views(terms@) == query_terms(query@),
                ftv == folded_query_terms(query@),
                views(ft@) == ftv.take(k as int),
            decreases terms@.len() - k,
        {
            let f = fold(terms[k].as_str());
            let ghost old_ft = ft@;
            ft.push(f);
            assert(views(ft@) =~= views(old_ft).push(f@));
            assert(ftv.take(k + 1) =~= ftv.take(k as int).push(ftv[k as int]));
            assert(views(terms@)[k as int] == terms@[k as int]@);
            assert(ftv[k as int] == folded(query_terms(query@)[k as int]));
            assert(views(ft@) =~= ftv.take(k + 1));
            k = k + 1;
        }
        assert(views(ft@) =~= ftv);
        let mut hits: Vec<SegmentHit> = Vec::new();
        let n = transcripts.len();
        let mut a: usize = 0;
        while a < n
            invariant
                n == transcripts@.len(),
                tv == transcript_views(transcripts@),
                views(ft@) == ftv,
                ftv == folded_query_terms(query@),
                ftv.len() > 0,
                limit > 0,
                a <= n,
                hit_views(hits@) == all_hits(tv.take(a as int), ftv),
                hits@.len() < limit,
            decreases n - a,
        {
            let ghost before = hits@;
            assert(tv.take(a + 1).drop_last() =~= tv.take(a as int));
            match &transcripts[a] {
                None => {
                    assert(tv[a as int] is None);
                    assert(hit_views(hits@) =~= all_hits(tv.take(a + 1), ftv));
                },
                Some(segs) => {
                    let ghost sv = views(segs@);
                    assert(tv[a as int] == Some(sv));
                    let m = segs.len();
                    let mut s: usize = 0;
                    while s < m
                        invariant
                            m == segs@.len(),
                            sv == views(segs@),
                            tv == transcript_views(transcripts@),
                            tv[a as int] == Some(sv),
                            ftv == folded_query_terms(query@),
                            ftv.len() > 0,
                            views(ft@) == ftv,
                            limit > 0,
                            a < n,
                            n == transcripts@.len(),
                            s <= m,
                            hit_views(hits@) == all_hits(tv.take(a as int), ftv) + asset_hits(
                                a as int,
                                sv.take(s as int),
                                ftv,
                            ),
                            hits@.len() < limit,
                        decreases m - s,
                    {
                        assert(sv.take(s + 1).drop_last() =~= sv.take(s as int));
                        assert(sv[s as int] == segs@[s as int]@);
                        if contains_all_terms(segs[s].as_str(), &ft) {
                            let ghost old_hits = hits@;
                            hits.push(SegmentHit { asset: a, segment: s });
                            assert(hit_views(hits@) =~= hit_views(old_hits).push((a as int, s as int)));
                            assert(segment_matches(sv.take(s + 1).last(), ftv));
                            assert(asset_hits(a as int, sv.take(s + 1), ftv) =~= asset_hits(a as int, sv.take(s as int), ftv) + seq![(a as int, s as int)]);
                            assert(hit_views(hits@) =~= all_hits(tv.take(a as int), ftv)
                                + asset_hits(a as int, sv.take(s + 1), ftv));
                            if hits.len() >= limit {
                                proof {
                                    let p = hit_views(hits@);
                                    lemma_asset_hits_prefix(a as int, sv, s + 1, ftv);
                                    assert(sv =~= sv.take(sv.len() as int));
                                    lemma_prefix_append(all_hits(tv.take(a as int), ftv), asset_hits(a as int, sv, ftv));
                                    assert(prefix_of(p, all_hits(tv.take(a as int), ftv) + asset_hits(a as int, sv, ftv))) by {
                                        let q = asset_hits(a as int, sv, ftv);
                                        let pre = all_hits(tv.take(a as int), ftv);
                                        let small = asset_hits(a as int, sv.take(s + 1), ftv);
                                        assert((pre + q).take(p.len() as int) =~= pre + q.take(small.len() as int));
                                    }
                                    assert(tv.take(a + 1).last() == tv[a as int]);
                                    assert(tv.take(a + 1).drop_last() =~= tv.take(a as int));
                                    assert(all_hits(tv.take(a + 1), ftv) == all_hits(tv.take(a as int), ftv) + asset_hits(a as int, sv, ftv));
                                    lemma_all_hits_prefix(tv, a + 1, ftv);
                                    lemma_prefix_trans(p, all_hits(tv.take(a + 1), ftv), all_hits(tv, ftv));
                                    assert(tv.take(n as int) =~= tv);
                                }
                                return hits;
                            }
                        } else {
                            assert(hit_views(hits@) =~= all_hits(tv.take(a as int), ftv)
                                + asset_hits(a as int, sv.take(s + 1), ftv));
                        }
                        s = s + 1;
                    }
                    assert(sv.take(m as int) =~= sv);
                    assert(hit_views(hits@) =~= all_hits(tv.take(a + 1), ftv));
                },
            }
            a = a + 1;
        }
        assert(tv.take(n as int) =~= tv);
        hits
    }
}

} // verus!
