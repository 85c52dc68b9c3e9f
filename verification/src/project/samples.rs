use vstd::prelude::*;

use crate::path::{join, spec_join};
use crate::project::bundle::project::{CHAT_DIR, FILE_EXTENSION, THUMBNAIL_FILE};
use crate::sys::{config_dir, config_reply, io_error_text, lemma_config_reply, push_char};

verus! {

/// A sample project shown on the home carousel.
#[derive(Debug, Clone, PartialEq)]
pub struct SampleSummary {
    /// Stable slug used to resolve the sample.
    pub slug: String,
    /// Display title.
    pub title: String,
    /// Optional poster image URL.
    pub poster_url: Option<String>,
}

/// One media file to download into a sample bundle.
#[derive(Debug, Clone, PartialEq)]
pub struct SampleDownload {
    /// Opaque id.
    pub id: String,
    /// Path under the bundle (`media/<file>` for media).
    pub relative_path: String,
    /// Where to fetch the bytes.
    pub url: String,
}

/// One chat session file of a sample (written as `chat/<name>`).
#[derive(Debug, Clone, PartialEq)]
pub struct SampleChat {
    /// Session file name.
    pub name: String,
    /// Where to fetch the bytes.
    pub url: String,
}

/// An error of the sample service.
#[derive(Debug)]
pub enum SampleError {
    /// A transport or HTTP error.
    Network(String),
    /// A file-system error while materializing a bundle.
    Io(std::io::Error),
}

impl SampleError {
    /// The error's text: `sample network error: <message>`, or `sample io
    /// error: ` and the I/O error's own text.
    pub fn message(&self) -> (r: String)
        ensures
            match *self {
                SampleError::Network(m) => r@ == "sample network error: "@ + m@,
                SampleError::Io(_) => exists|t: Seq<char>| r@ == "sample io error: "@ + t,
            },
    {
        match self {
            SampleError::Network(m) => {
                let mut s = "sample network error: ".to_string();
                s.append(m.as_str());
                s
            },
            SampleError::Io(e) => {
                let mut s = "sample io error: ".to_string();
                let t = io_error_text(e);
                s.append(t.as_str());
                s
            },
        }
    }
}

/// The characters a safe file name may not hold.
pub open spec fn is_path_char(c: char) -> bool {
    c == '/' || c == ':' || c == '\\'
}

/// `s` without its `/`, `:` and `\` characters.
pub open spec fn spec_safe_name(s: Seq<char>) -> Seq<char> {
    s.filter(|c: char| !is_path_char(c))
}

/// Strip the path-unsafe characters `/`, `:` and `\` from a name.
pub fn safe_name(s: &str) -> (r: String)
    ensures
        r@ == spec_safe_name(s@),
{
    let n = s.unicode_len();
    let mut out = String::new();
    let mut i: usize = 0;
    while i < n
        invariant
            n == s@.len(),
            i <= n,
            out@ == spec_safe_name(s@.take(i as int)),
        decreases n - i,
    {
        let c = s.get_char(i);
        proof {
            assert(s@.take(i + 1).drop_last() =~= s@.take(i as int));
            reveal_with_fuel(Seq::filter, 1);
        }
        if !(c == '/' || c == ':' || c == '\\') {
            push_char(&mut out, c);
        }
        i = i + 1;
    }
    proof {
        assert(s@.take(n as int) =~= s@);
    }
    out
}

proof fn lemma_filter_keeps_all(s: Seq<char>)
    requires
        forall|i: int| 0 <= i < s.len() ==> !is_path_char(#[trigger] s[i]),
    ensures
        spec_safe_name(s) == s,
    decreases s.len(),
{
    reveal(Seq::filter);
    if s.len() > 0 {
        let init = s.drop_last();
        assert forall|i: int| 0 <= i < init.len() implies !is_path_char(#[trigger] init[i]) by {
            assert(init[i] == s[i]);
        }
        lemma_filter_keeps_all(init);
        assert(!is_path_char(s[s.len() - 1]));
        assert(init.push(s.last()) =~= s);
    }
}

/// A safe name holds none of `/`, `:`, `\`, and making it safe again
/// changes nothing.
pub proof fn law_safe_name_is_safe(s: Seq<char>)
    ensures
        forall|i: int| 0 <= i < spec_safe_name(s).len() ==> !is_path_char(#[trigger] spec_safe_name(s)[i]),
        spec_safe_name(spec_safe_name(s)) == spec_safe_name(s),
{
    let pred = |c: char| !is_path_char(c);
    assert forall|i: int| 0 <= i < spec_safe_name(s).len() implies !is_path_char(#[trigger] spec_safe_name(s)[i]) by {
        s.lemma_filter_pred(pred, i);
    }
    lemma_filter_keeps_all(spec_safe_name(s));
}

// ---------------------------------------------------------------------------
// Where samples are cached
// ---------------------------------------------------------------------------

/// The sample cache root under a configuration directory:
/// `<config>/palmier-pro/Samples`.
pub open spec fn samples_root(config: Seq<char>) -> Seq<char> {
    spec_join(spec_join(config, "palmier-pro"@), "Samples"@)
}

/// The sample cache root under the configuration directory `config`.
pub fn samples_root_under(config: &str) -> (r: String)
    ensures
        r@ == samples_root(config@),
{
    let dir = join(config, "palmier-pro");
    join(dir.as_str(), "Samples")
}

/// The default sample cache root, next to the registry; `None` only when the
/// operating system exposes no configuration directory.
pub fn default_cache_root() -> (r: Option<String>)
    ensures
        r matches Some(p) ==> exists|c: Seq<char>| p@ == samples_root(c),        exists|c: Option<Seq<char>>| #[trigger] config_reply(c) && match c {
            Some(d) => r matches Some(p) && p@ == samples_root(d),
            None => r is None,
        },

{
    let dir = config_dir();
    proof {
        lemma_config_reply(dir);
    }
    match dir {
        Some(c) => Some(samples_root_under(c.as_str())),
        None => None,
    }
}

/// The directory of one sample: `<cache root>/<safe slug>`.
pub open spec fn spec_slug_dir(cache_root: Seq<char>, slug: Seq<char>) -> Seq<char> {
    spec_join(cache_root, spec_safe_name(slug))
}

/// The directory of one sample under `cache_root`.
pub fn slug_dir(cache_root: &str, slug: &str) -> (r: String)
    ensures
        r@ == spec_slug_dir(cache_root@, slug@),
{
    let safe = safe_name(slug);
    join(cache_root, safe.as_str())
}

/// The bundle a sample is materialized to: `<slug dir>/<safe title>.palmier`.
pub open spec fn spec_sample_bundle_path(cache_root: Seq<char>, slug: Seq<char>, title: Seq<char>) -> Seq<char> {
    spec_join(spec_slug_dir(cache_root, slug), spec_safe_name(title) + "."@ + FILE_EXTENSION@)
}

/// The bundle path of the sample `slug` titled `title` under `cache_root`.
pub fn sample_bundle_path(cache_root: &str, slug: &str, title: &str) -> (r: String)
    ensures
        r@ == spec_sample_bundle_path(cache_root@, slug@, title@),
{
    let dir = slug_dir(cache_root, slug);
    let mut name = safe_name(title);
    name.append(".");
    name.append(FILE_EXTENSION);
    join(dir.as_str(), name.as_str())
}

// ---------------------------------------------------------------------------
// What a sample downloads
// ---------------------------------------------------------------------------

/// Pairs of text as values.
pub open spec fn pair_views(s: Seq<(String, String)>) -> Seq<(Seq<char>, Seq<char>)> {
    s.map_values(|p: (String, String)| (p.0@, p.1@))
}

/// The `(path under the bundle, url)` downloads of a resolved sample: each
/// media download at its own relative path, each chat file at
/// `chat/<name>`, then the poster, if any, as `thumbnail.jpg`.
pub open spec fn spec_download_jobs(
    downloads: Seq<SampleDownload>,
    chat: Seq<SampleChat>,
    poster_url: Option<Seq<char>>,
) -> Seq<(Seq<char>, Seq<char>)> {
    downloads.map_values(|d: SampleDownload| (d.relative_path@, d.url@)) + chat.map_values(
        |c: SampleChat| (CHAT_DIR@ + seq!['/'] + c.name@, c.url@),
    ) + match poster_url {
        Some(p) => seq![(THUMBNAIL_FILE@, p)],
        None => Seq::empty(),
    }
}

/// The downloads of a resolved sample, in the order they are listed.
pub fn download_jobs(downloads: &Vec<SampleDownload>, chat: &Vec<SampleChat>, poster_url: Option<&str>) -> (r: Vec<(String, String)>)
    ensures
        pair_views(r@) == spec_download_jobs(
            downloads@,
            chat@,
            match poster_url {
                Some(p) => Some(p@),
                None => None,
            },
        ),
{
    let ghost ds = downloads@.map_values(|d: SampleDownload| (d.relative_path@, d.url@));
    let ghost cs = chat@.map_values(|c: SampleChat| (CHAT_DIR@ + seq!['/'] + c.name@, c.url@));
    let mut jobs: Vec<(String, String)> = Vec::new();
    let mut i: usize = 0;
    while i < downloads.len()
        invariant
            ds == downloads@.map_values(|d: SampleDownload| (d.relative_path@, d.url@)),
            i <= downloads@.len(),
            pair_views(jobs@) == ds.take(i as int),
        decreases downloads@.len() - i,
    {
        let ghost before = jobs@;
        jobs.push((downloads[i].relative_path.clone(), downloads[i].url.clone()));
        assert(pair_views(jobs@) =~= pair_views(before).push(ds[i as int]));
        assert(ds.take(i + 1) =~= ds.take(i as int).push(ds[i as int]));
        i = i + 1;
    }
    assert(ds.take(i as int) =~= ds);
    let mut k: usize = 0;
    while k < chat.len()
        invariant
            cs == chat@.map_values(|c: SampleChat| (CHAT_DIR@ + seq!['/'] + c.name@, c.url@)),
            k <= chat@.len(),
            pair_views(jobs@) == ds + cs.take(k as int),
        decreases chat@.len() - k,
    {
        let ghost before = jobs@;
        let mut path = CHAT_DIR.to_string();
        path.append("/");
        path.append(chat[k].name.as_str());
        proof {
            reveal_strlit("/");
            assert("/"@ =~= seq!['/']);
            assert(path@ =~= CHAT_DIR@ + seq!['/'] + chat@[k as int].name@);
        }
        jobs.push((path, chat[k].url.clone()));
        assert(pair_views(jobs@) =~= pair_views(before).push(cs[k as int]));
        assert(cs.take(k + 1) =~= cs.take(k as int).push(cs[k as int]));
        assert(ds + cs.take(k + 1) =~= (ds + cs.take(k as int)).push(cs[k as int]));
        k = k + 1;
    }
    assert(cs.take(k as int) =~= cs);
    match poster_url {
        Some(p) => {
            let ghost before = jobs@;
            jobs.push((THUMBNAIL_FILE.to_string(), p.to_string()));
            assert(pair_views(jobs@) =~= pair_views(before).push((THUMBNAIL_FILE@, p@)));
            assert(ds + cs + seq![(THUMBNAIL_FILE@, p@)] =~= (ds + cs).push((THUMBNAIL_FILE@, p@)));
        },
        None => {
            assert(ds + cs + Seq::<(Seq<char>, Seq<char>)>::empty() =~= ds + cs);
        },
    }
    jobs
}

// ---------------------------------------------------------------------------
// Service URLs
// ---------------------------------------------------------------------------

/// Whether a byte passes through percent-encoding unchanged: an ASCII letter
/// or digit, or one of `-`, `_`, `.`, `~`.
pub open spec fn is_unreserved(b: u8) -> bool {
    (65 <= b <= 90) || (97 <= b <= 122) || (48 <= b <= 57) || b == 45 || b == 95 || b == 46 || b == 126
}

/// An uppercase hexadecimal digit.
pub open spec fn upper_hex_digit(n: u8) -> char {
    if n < 10 {
        (48 + n) as char
    } else {
        (55 + n) as char
    }
}

/// One byte percent-encoded: itself when unreserved, else `%` and two
/// uppercase hex digits.
pub open spec fn encode_byte(b: u8) -> Seq<char> {
    if is_unreserved(b) {
        seq![b as char]
    } else {
        seq!['%', upper_hex_digit(b / 16), upper_hex_digit(b % 16)]
    }
}

/// Bytes percent-encoded one by one.
pub open spec fn spec_urlencode(bytes: Seq<u8>) -> Seq<char>
    decreases bytes.len(),
{
    if bytes.len() == 0 {
        Seq::empty()
    } else {
        spec_urlencode(bytes.drop_last()) + encode_byte(bytes.last())
    }
}

fn upper_hex_char(n: u8) -> (c: char)
    requires
        n < 16,
    ensures
        c == upper_hex_digit(n),
{
    if n < 10 {
        (48u8 + n) as char
    } else {
        (55u8 + n) as char
    }
}

/// Percent-encodes the UTF-8 bytes of `s` for a query parameter.
pub fn urlencode(s: &str) -> (r: String)
    ensures
        r@ == spec_urlencode(vstd::utf8::encode_utf8(s@)),
{
    let bytes = s.as_bytes_vec();
    let ghost bs = vstd::utf8::encode_utf8(s@);
    assert(bytes@ =~= bs);
    let mut out = String::new();
    let mut i: usize = 0;
    while i < bytes.len()
        invariant
            bytes@ == bs,
            i <= bytes@.len(),
            out@ == spec_urlencode(bs.take(i as int)),
        decreases bytes@.len() - i,
    {
        let b = bytes[i];
        assert(bs.take(i + 1).drop_last() =~= bs.take(i as int));
        if (65 <= b && b <= 90) || (97 <= b && b <= 122) || (48 <= b && b <= 57) || b == 45 || b == 95
            || b == 46 || b == 126 {
            push_char(&mut out, b as char);
        } else {
            push_char(&mut out, '%');
            push_char(&mut out, upper_hex_char(b / 16));
            push_char(&mut out, upper_hex_char(b % 16));
        }
        assert(out@ =~= spec_urlencode(bs.take(i as int)) + encode_byte(b));
        i = i + 1;
    }
    assert(bs.take(i as int) =~= bs);
    out
}

/// `s` without its trailing slashes.
pub open spec fn trim_end_slashes(s: Seq<char>) -> Seq<char>
    decreases s.len(),
{
    if s.len() > 0 && s.last() == '/' {
        trim_end_slashes(s.drop_last())
    } else {
        s
    }
}

/// `s` without its leading slashes.
pub open spec fn trim_start_slashes(s: Seq<char>) -> Seq<char>
    decreases s.len(),
{
    if s.len() > 0 && s[0] == '/' {
        trim_start_slashes(s.drop_first())
    } else {
        s
    }
}

/// A service endpoint: the base without trailing slashes, one slash, then
/// the path without leading slashes.
pub open spec fn spec_endpoint_url(http_base: Seq<char>, path: Seq<char>) -> Seq<char> {
    trim_end_slashes(http_base) + seq!['/'] + trim_start_slashes(path)
}

/// The URL of `path` on the sample service at `http_base`.
pub fn endpoint_url(http_base: &str, path: &str) -> (r: String)
    ensures
        r@ == spec_endpoint_url(http_base@, path@),
{
    let bn = http_base.unicode_len();
    let mut end: usize = bn;
    assert(http_base@.take(bn as int) =~= http_base@);
    while end > 0 && http_base.get_char(end - 1) == '/'
        invariant
            end <= bn,
            bn == http_base@.len(),
            trim_end_slashes(http_base@) == trim_end_slashes(http_base@.take(end as int)),
        decreases end,
    {
        assert(http_base@.take(end as int).drop_last() =~= http_base@.take(end - 1));
        end = end - 1;
    }
    let pn = path.unicode_len();
    let mut start: usize = 0;
    assert(path@.skip(0) =~= path@);
    while start < pn && path.get_char(start) == '/'
        invariant
            start <= pn,
            pn == path@.len(),
            trim_start_slashes(path@) == trim_start_slashes(path@.skip(start as int)),
        decreases pn - start,
    {
        assert(path@.skip(start as int).drop_first() =~= path@.skip(start + 1));
        start = start + 1;
    }
    let mut out = String::new();
    let mut i: usize = 0;
    while i < end
        invariant
            end <= bn,
            bn == http_base@.len(),
            i <= end,
            out@ == http_base@.take(i as int),
        decreases end - i,
    {
        push_char(&mut out, http_base.get_char(i));
        assert(http_base@.take(i + 1) =~= http_base@.take(i as int).push(http_base@[i as int]));
        i = i + 1;
    }
    proof {
        if end > 0 {
            assert(http_base@.take(end as int).last() == http_base@[end - 1]);
        }
    }
    push_char(&mut out, '/');
    let ghost head = out@;
    let mut j: usize = start;
    while j < pn
        invariant
            start <= j <= pn,
            pn == path@.len(),
            out@ == head + path@.subrange(start as int, j as int),
        decreases pn - j,
    {
        push_char(&mut out, path.get_char(j));
        assert(path@.subrange(start as int, j + 1) =~= path@.subrange(start as int, j as int).push(path@[j as int]));
        j = j + 1;
    }
    proof {
        if start < pn {
            assert(path@.skip(start as int)[0] == path@[start as int]);
        }
        assert(path@.subrange(start as int, pn as int) =~= path@.skip(start as int));
    }
    out
}

/// The URL that resolves a sample: the resolve endpoint with the slug
/// percent-encoded as its `slug` parameter.
pub fn resolve_url(http_base: &str, slug: &str) -> (r: String)
    ensures
        r@ == spec_endpoint_url(http_base@, "v1/samples/resolve"@) + "?slug="@ + spec_urlencode(
            vstd::utf8::encode_utf8(slug@),
        ),
{
    let mut url = endpoint_url(http_base, "v1/samples/resolve");
    url.append("?slug=");
    let q = urlencode(slug);
    url.append(q.as_str());
    url
}

} // verus!
