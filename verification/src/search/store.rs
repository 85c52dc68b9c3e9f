use vstd::prelude::*;

use sha2::{Digest, Sha256};

use crate::path::{join, spec_join};
use crate::sys::{config_dir, config_reply, lemma_config_reply, push_char};
use crate::text::str_eq;

verus! {

/// `.embed` header: which model and sampler produced the rows, the vector
/// dimension and the number of rows.
#[derive(Debug, Clone, PartialEq, Eq)]
pub struct Header {
    pub model: String,
    pub model_version: i64,
    pub sampler_version: i64,
    pub dim: usize,
    pub count: usize,
}

/// One row's scalar metadata, each `f64` held as its IEEE-754 bit pattern
/// (`f64::to_bits`), so the byte layout is handled without floating point.
#[derive(Debug, Clone, Copy, PartialEq, Eq)]
pub struct Row {
    pub time: u64,
    pub shot_start: u64,
    pub shot_end: u64,
}

/// A decoded asset index: the header, one `Row` per kept frame and the
/// `count * dim` half-precision vector entries, each as its binary16 bit pattern.
#[derive(Debug, Clone, PartialEq, Eq)]
pub struct AssetIndex {
    pub header: Header,
    pub rows: Vec<Row>,
    pub vectors: Vec<u16>,
}

/// Why an `.embed` byte stream could not be written or read.
#[derive(Debug, Clone, Copy, PartialEq, Eq)]
pub enum StoreError {
    /// Shorter than the fixed prefix, or the magic is not `PALMEMB1`.
    NotEmbedFile,
    /// The stream ends inside the JSON header.
    TruncatedHeader,
    /// The stream length disagrees with the header's `count` and `dim`.
    SizeMismatch,
    /// `rows` / `vectors` do not have the shape the header announces.
    ShapeMismatch,
    /// The operating system exposes no configuration directory.
    NoConfigDirectory,
}

// ---------------------------------------------------------------------------
// The byte format
// ---------------------------------------------------------------------------

/// The eight magic bytes `PALMEMB1`.
pub open spec fn magic() -> Seq<u8> {
    seq![0x50u8, 0x41u8, 0x4cu8, 0x4du8, 0x45u8, 0x4du8, 0x42u8, 0x31u8]
}

/// Little-endian bytes of a `u16`.
pub open spec fn le_u16(x: u16) -> Seq<u8> {
    seq![x as u8, (x >> 8u16) as u8]
}

/// Little-endian bytes of a `u32`.
pub open spec fn le_u32(x: u32) -> Seq<u8> {
    seq![x as u8, (x >> 8u32) as u8, (x >> 16u32) as u8, (x >> 24u32) as u8]
}

/// Little-endian bytes of a `u64`.
pub open spec fn le_u64(x: u64) -> Seq<u8> {
    seq![
        x as u8,
        (x >> 8u64) as u8,
        (x >> 16u64) as u8,
        (x >> 24u64) as u8,
        (x >> 32u64) as u8,
        (x >> 40u64) as u8,
        (x >> 48u64) as u8,
        (x >> 56u64) as u8,
    ]
}

/// The `u16` stored little-endian at `at`.
pub open spec fn u16_at(b: Seq<u8>, at: int) -> u16 {
    (b[at] as u16) | ((b[at + 1] as u16) << 8u16)
}

/// The `u32` stored little-endian at `at`.
pub open spec fn u32_at(b: Seq<u8>, at: int) -> u32 {
    (b[at] as u32) | ((b[at + 1] as u32) << 8u32) | ((b[at + 2] as u32) << 16u32) | ((b[at
        + 3] as u32) << 24u32)
}

/// The `u64` stored little-endian at `at`.
pub open spec fn u64_at(b: Seq<u8>, at: int) -> u64 {
    (b[at] as u64) | ((b[at + 1] as u64) << 8u64) | ((b[at + 2] as u64) << 16u64) | ((b[at
        + 3] as u64) << 24u64) | ((b[at + 4] as u64) << 32u64) | ((b[at + 5] as u64) << 40u64)
        | ((b[at + 6] as u64) << 48u64) | ((b[at + 7] as u64) << 56u64)
}

/// Bytes one row takes: three `f64` (8 bytes each), then `dim` binary16 values.
pub open spec fn row_len(dim: nat) -> nat {
    24 + 2 * dim
}

/// A vector's entries, little-endian, one after the other.
pub open spec fn vector_bytes(v: Seq<u16>) -> Seq<u8>
    decreases v.len(),
{
    if v.len() == 0 {
        Seq::empty()
    } else {
        vector_bytes(v.drop_last()) + le_u16(v.last())
    }
}

/// The vector entries that belong to row `i`.
pub open spec fn row_vector(vectors: Seq<u16>, i: int, dim: nat) -> Seq<u16> {
    vectors.subrange(i * dim, i * dim + dim)
}

/// One row on disk: time, shot start, shot end, then its vector.
pub open spec fn row_bytes(r: Row, v: Seq<u16>) -> Seq<u8> {
    le_u64(r.time) + le_u64(r.shot_start) + le_u64(r.shot_end) + vector_bytes(v)
}

/// All rows on disk, in order.
pub open spec fn body_bytes(rows: Seq<Row>, vectors: Seq<u16>, dim: nat) -> Seq<u8>
    decreases rows.len(),
{
    if rows.len() == 0 {
        Seq::empty()
    } else {
        body_bytes(rows.drop_last(), vectors, dim) + row_bytes(
            rows.last(),
            row_vector(vectors, rows.len() - 1, dim),
        )
    }
}

/// The whole `.embed` stream: magic, JSON length (`u32`, little-endian), the
/// header JSON, then the rows.
pub open spec fn encoded(json: Seq<u8>, h: Header, rows: Seq<Row>, vectors: Seq<u16>) -> Seq<
    u8,
> {
    magic() + le_u32(json.len() as u32) + json + body_bytes(rows, vectors, h.dim as nat)
}

/// Whether `rows` and `vectors` have the shape `h` announces.
pub open spec fn shape_matches(h: Header, rows: Seq<Row>, vectors: Seq<u16>) -> bool {
    rows.len() == h.count && vectors.len() == h.count * h.dim
}

/// Where the header JSON ends (it starts at byte 12), or why the prefix is bad.
pub open spec fn header_end(data: Seq<u8>) -> Result<nat, StoreError> {
    if data.len() < 12 || data.subrange(0, 8) != magic() {
        Err(StoreError::NotEmbedFile)
    } else if data.len() < 12 + u32_at(data, 8) {
        Err(StoreError::TruncatedHeader)
    } else {
        Ok((12 + u32_at(data, 8)) as nat)
    }
}

/// The row whose bytes start at `at`.
pub open spec fn row_at(data: Seq<u8>, at: int) -> Row {
    Row { time: u64_at(data, at), shot_start: u64_at(data, at + 8), shot_end: u64_at(data, at + 16) }
}

/// The rows read from a body that starts at `start`.
pub open spec fn decoded_rows(data: Seq<u8>, start: int, h: Header) -> Seq<Row> {
    Seq::new(h.count as nat, |i: int| row_at(data, start + i * row_len(h.dim as nat)))
}

/// The vector entries read from a body that starts at `start`: entry `k` is
/// component `k % dim` of row `k / dim`.
pub open spec fn decoded_vectors(data: Seq<u8>, start: int, h: Header) -> Seq<u16> {
    Seq::new(
        (h.count * h.dim) as nat,
        |k: int|
            u16_at(
                data,
                start + (k / h.dim as int) * row_len(h.dim as nat) + 24 + 2 * (k % h.dim as int),
            ),
    )
}

/// What reading `data` under header `h` gives.
pub open spec fn decode_result(data: Seq<u8>, h: Header) -> Result<(Seq<Row>, Seq<u16>), StoreError> {
    match header_end(data) {
        Err(e) => Err(e),
        Ok(end) => if data.len() != end + h.count * row_len(h.dim as nat) {
            Err(StoreError::SizeMismatch)
        } else {
            Ok((decoded_rows(data, end as int, h), decoded_vectors(data, end as int, h)))
        },
    }
}

// ---------------------------------------------------------------------------
// Byte-level helpers
// ---------------------------------------------------------------------------

fn push_u16(out: &mut Vec<u8>, x: u16)
    ensures
        final(out)@ == old(out)@ + le_u16(x),
{
    out.push(x as u8);
    out.push((x >> 8u16) as u8);
    assert(final(out)@ =~= old(out)@ + le_u16(x));
}

fn push_u32(out: &mut Vec<u8>, x: u32)
    ensures
        final(out)@ == old(out)@ + le_u32(x),
{
    out.push(x as u8);
    out.push((x >> 8u32) as u8);
    out.push((x >> 16u32) as u8);
    out.push((x >> 24u32) as u8);
    assert(final(out)@ =~= old(out)@ + le_u32(x));
}

fn push_u64(out: &mut Vec<u8>, x: u64)
    ensures
        final(out)@ == old(out)@ + le_u64(x),
{
    out.push(x as u8);
    out.push((x >> 8u64) as u8);
    out.push((x >> 16u64) as u8);
    out.push((x >> 24u64) as u8);
    out.push((x >> 32u64) as u8);
    out.push((x >> 40u64) as u8);
    out.push((x >> 48u64) as u8);
    out.push((x >> 56u64) as u8);
    assert(final(out)@ =~= old(out)@ + le_u64(x));
}

fn read_u16(data: &[u8], at: usize) -> (r: u16)
    requires
        at + 2 <= data@.len(),
    ensures
        r == u16_at(data@, at as int),
{
    (data[at] as u16) | ((data[at + 1] as u16) << 8u16)
}

fn read_u32(data: &[u8], at: usize) -> (r: u32)
    requires
        at + 4 <= data@.len(),
    ensures
        r == u32_at(data@, at as int),
{
    (data[at] as u32) | ((data[at + 1] as u32) << 8u32) | ((data[at + 2] as u32) << 16u32) | ((
    data[at + 3] as u32) << 24u32)
}

fn read_u64(data: &[u8], at: usize) -> (r: u64)
    requires
        at + 8 <= data@.len(),
    ensures
        r == u64_at(data@, at as int),
{
    (data[at] as u64) | ((data[at + 1] as u64) << 8u64) | ((data[at + 2] as u64) << 16u64) | ((
    data[at + 3] as u64) << 24u64) | ((data[at + 4] as u64) << 32u64) | ((data[at + 5] as u64)
        << 40u64) | ((data[at + 6] as u64) << 48u64) | ((data[at + 7] as u64) << 56u64)
}

fn has_magic(data: &[u8]) -> (r: bool)
    requires
        data@.len() >= 8,
    ensures
        r == (data@.subrange(0, 8) == magic()),
{
    let r = data[0] == 0x50u8 && data[1] == 0x41u8 && data[2] == 0x4cu8 && data[3] == 0x4du8
        && data[4] == 0x45u8 && data[5] == 0x4du8 && data[6] == 0x42u8 && data[7] == 0x31u8;
    if r {
        assert(data@.subrange(0, 8) =~= magic());
    } else {
        assert(data@.subrange(0, 8) != magic()) by {
            if data@.subrange(0, 8) == magic() {
                assert(data@.subrange(0, 8)[0] == data@[0]);
                assert(data@.subrange(0, 8)[1] == data@[1]);
                assert(data@.subrange(0, 8)[2] == data@[2]);
                assert(data@.subrange(0, 8)[3] == data@[3]);
                assert(data@.subrange(0, 8)[4] == data@[4]);
                assert(data@.subrange(0, 8)[5] == data@[5]);
                assert(data@.subrange(0, 8)[6] == data@[6]);
                assert(data@.subrange(0, 8)[7] == data@[7]);
            }
        }
    }
    r
}

// ---------------------------------------------------------------------------
// Encoding and decoding
// ---------------------------------------------------------------------------

/// Writes an asset index as a `.embed` byte stream: magic, the JSON length,
/// `header_json` (the serialized header), then each row's three `f64` bit
/// patterns and its `dim` binary16 entries, all little-endian. Fails with
/// `ShapeMismatch` exactly when `rows` and `vectors` do not have the shape the
/// header announces.
pub fn encode(header_json: &[u8], header: &Header, rows: &[Row], vectors: &[u16]) -> (r: Result<
    Vec<u8>,
    StoreError,
>)
    ensures
        shape_matches(*header, rows@, vectors@) ==> (r matches Ok(b) && b@ == encoded(
            header_json@,
            *header,
            rows@,
            vectors@,
        )),
        !shape_matches(*header, rows@, vectors@) ==> r == Err::<Vec<u8>, StoreError>(
            StoreError::ShapeMismatch,
        ),
{
    if rows.len() != header.count {
        return Err(StoreError::ShapeMismatch);
    }
    let vlen = vectors.len();
    let total = match header.count.checked_mul(header.dim) {
        Some(t) => t,
        None => {
            assert(vlen != header.count * header.dim);
            return Err(StoreError::ShapeMismatch);
        },
    };
    if vlen != total {
        return Err(StoreError::ShapeMismatch);
    }
    let mut out: Vec<u8> = Vec::new();
    out.push(0x50u8);
    out.push(0x41u8);
    out.push(0x4cu8);
    out.push(0x4du8);
    out.push(0x45u8);
    out.push(0x4du8);
    out.push(0x42u8);
    out.push(0x31u8);
    assert(out@ =~= magic());
    push_u32(&mut out, #[verifier::truncate] (header_json.len() as u32));
    let ghost prefix = out@;
    let mut j: usize = 0;
    while j < header_json.len()
        invariant
            j <= header_json@.len(),
            out@ == prefix + header_json@.take(j as int),
        decreases header_json@.len() - j,
    {
        out.push(header_json[j]);
        assert(header_json@.take(j + 1) =~= header_json@.take(j as int).push(header_json@[j as int]));
        j = j + 1;
    }
    assert(header_json@.take(j as int) =~= header_json@);
    let ghost head = out@;
    let dim = header.dim;
    let n = rows.len();
    let mut i: usize = 0;
    let mut base: usize = 0;
    while i < n
        invariant
            n == rows@.len(),
            vectors@.len() == n * dim,
            i <= n,
            base == i * dim,
            vectors.len() == n * dim,
            out@ == head + body_bytes(rows@.take(i as int), vectors@, dim as nat),
        decreases n - i,
    {
        assert(base + dim <= n * dim) by (nonlinear_arith)
            requires
                base == i * dim,
                i < n,
        ;
        let row = rows[i];
        let ghost before = out@;
        push_u64(&mut out, row.time);
        push_u64(&mut out, row.shot_start);
        push_u64(&mut out, row.shot_end);
        let ghost mid = out@;
        let mut d: usize = 0;
        while d < dim
            invariant
                d <= dim,
                base + dim <= vectors.len(),
                out@ == mid + vector_bytes(vectors@.subrange(base as int, base + d)),
            decreases dim - d,
        {
            push_u16(&mut out, vectors[base + d]);
            assert(vectors@.subrange(base as int, base + d + 1).drop_last() =~= vectors@.subrange(
                base as int,
                base + d,
            ));
            d = d + 1;
        }
        proof {
            let t = rows@.take(i + 1);
            assert(t.drop_last() =~= rows@.take(i as int));
            assert(t.last() == rows@[i as int]);
            assert(row_vector(vectors@, i as int, dim as nat) =~= vectors@.subrange(
                base as int,
                base + dim,
            ));
            assert(mid =~= before + le_u64(row.time) + le_u64(row.shot_start) + le_u64(
                row.shot_end,
            ));
            assert(out@ =~= head + body_bytes(t, vectors@, dim as nat));
        }
        assert((i + 1) * dim == i * dim + dim) by (nonlinear_arith);
        base = base + dim;
        i = i + 1;
    }
    assert(rows@.take(n as int) =~= rows@);
    Ok(out)
}

/// Reads the fixed prefix of a `.embed` stream and returns where the header
/// JSON ends (it starts at byte 12): `NotEmbedFile` when the stream is shorter
/// than 12 bytes or the magic is wrong, `TruncatedHeader` when the stream ends
/// inside the JSON.
pub fn header_span(data: &[u8]) -> (r: Result<usize, StoreError>)
    ensures
        match header_end(data@) {
            Ok(n) => r == Ok::<usize, StoreError>(n as usize),
            Err(e) => r == Err::<usize, StoreError>(e),
        },
{
    if data.len() < 12 {
        return Err(StoreError::NotEmbedFile);
    }
    if !has_magic(data) {
        return Err(StoreError::NotEmbedFile);
    }
    let json_len = read_u32(data, 8) as usize;
    if data.len() - 12 < json_len {
        return Err(StoreError::TruncatedHeader);
    }
    Ok(12 + json_len)
}

/// Reads a `.embed` stream whose header JSON has been parsed into `header`:
/// checks the prefix (as `header_span` does), then that the stream is exactly
/// `12 + jsonLen + count * (24 + 2 * dim)` bytes long (`SizeMismatch`
/// otherwise), then reads every row and vector entry.
pub fn decode(data: &[u8], header: Header) -> (r: Result<AssetIndex, StoreError>)
    ensures
        match decode_result(data@, header) {
            Err(e) => r == Err::<AssetIndex, StoreError>(e),
            Ok((rows, vectors)) => (r matches Ok(ix) && ix.header == header && ix.rows@ == rows
                && ix.vectors@ == vectors),
        },
{
    let end = match header_span(data) {
        Ok(e) => e,
        Err(e) => {
            return Err(e);
        },
    };
    let dim = header.dim;
    let count = header.count;
    let dlen = data.len();
    let ghost rl: nat = row_len(dim as nat);
    let mut row_bytes_len: usize = 0;
    let mut body_len: usize = 0;
    if count > 0 {
        let rlen = match dim.checked_mul(2) {
            Some(x) => x.checked_add(24),
            None => None,
        };
        match rlen {
            Some(y) => {
                row_bytes_len = y;
            },
            None => {
                assert(count * rl >= rl) by (nonlinear_arith)
                    requires
                        count > 0,
                ;
                return Err(StoreError::SizeMismatch);
            },
        }
        match count.checked_mul(row_bytes_len) {
            Some(x) => {
                body_len = x;
            },
            None => {
                return Err(StoreError::SizeMismatch);
            },
        }
    }
    assert(body_len == count * rl);
    if dlen - end != body_len {
        assert(data@.len() != end + header.count * row_len(header.dim as nat));
        return Err(StoreError::SizeMismatch);
    }
    let ghost h = header;
    assert(count * dim <= body_len) by (nonlinear_arith)
        requires
            body_len == count * (24 + 2 * dim),
    ;
    let mut rows: Vec<Row> = Vec::new();
    let mut vectors: Vec<u16> = Vec::new();
    let mut i: usize = 0;
    let mut off: usize = end;
    while i < count
        invariant
            count == h.count,
            dim == h.dim,
            rl == row_len(dim as nat),
            count > 0 ==> row_bytes_len == rl,
            dlen == data@.len(),
            data@.len() == end + count * rl,
            i <= count,
            off == end + i * rl,
            rows@ == decoded_rows(data@, end as int, h).take(i as int),
            vectors@ == decoded_vectors(data@, end as int, h).take(i * dim),
        decreases count - i,
    {
        assert(off + rl <= data@.len()) by (nonlinear_arith)
            requires
                off == end + i * rl,
                i < count,
                data@.len() == end + count * rl,
        ;
        let time = read_u64(data, off);
        let shot_start = read_u64(data, off + 8);
        let shot_end = read_u64(data, off + 16);
        rows.push(Row { time, shot_start, shot_end });
        assert(rows@ =~= decoded_rows(data@, end as int, h).take(i + 1));
        let mut d: usize = 0;
        let mut p: usize = off + 24;
        while d < dim
            invariant
                count == h.count,
                dim == h.dim,
                rl == row_len(dim as nat),
                i < count,
                off == end + i * rl,
                off + rl <= data@.len(),
                dlen == data@.len(),
                d <= dim,
                p == off + 24 + 2 * d,
                vectors@ == decoded_vectors(data@, end as int, h).take(i * dim + d),
            decreases dim - d,
        {
            let x = read_u16(data, p);
            vectors.push(x);
            proof {
                let k = i * dim + d;
                assert(k < count * dim) by (nonlinear_arith)
                    requires
                        k == i * dim + d,
                        d < dim,
                        i < count,
                ;
                vstd::arithmetic::div_mod::lemma_fundamental_div_mod_converse(
                    k,
                    dim as int,
                    i as int,
                    d as int,
                );
                assert(decoded_vectors(data@, end as int, h)[k] == x);
                assert(vectors@ =~= decoded_vectors(data@, end as int, h).take(k + 1));
            }
            d = d + 1;
            p = p + 2;
        }
        assert((i + 1) * dim == i * dim + dim) by (nonlinear_arith);
        assert((i + 1) * rl == i * rl + rl) by (nonlinear_arith);
        i = i + 1;
        off = off + row_bytes_len;
    }
    assert(rows@ =~= decoded_rows(data@, end as int, h));
    assert(vectors@ =~= decoded_vectors(data@, end as int, h));
    Ok(AssetIndex { header, rows, vectors })
}

// ---------------------------------------------------------------------------
// Reading back what was written
// ---------------------------------------------------------------------------

proof fn lemma_read_u16(data: Seq<u8>, at: int, x: u16)
    requires
        0 <= at,
        at + 2 <= data.len(),
        data[at] == le_u16(x)[0],
        data[at + 1] == le_u16(x)[1],
    ensures
        u16_at(data, at) == x,
{
    let b0 = data[at];
    let b1 = data[at + 1];
    assert(b0 == x as u8 && b1 == (x >> 8u16) as u8 ==> ((b0 as u16) | ((b1 as u16) << 8u16))
        == x) by (bit_vector);
}

proof fn lemma_read_u32(data: Seq<u8>, at: int, x: u32)
    requires
        0 <= at,
        at + 4 <= data.len(),
        forall|k: int| 0 <= k < 4 ==> data[at + k] == #[trigger] le_u32(x)[k],
    ensures
        u32_at(data, at) == x,
{
    assert(data[at + 0] == le_u32(x)[0]);
    assert(data[at + 1] == le_u32(x)[1]);
    assert(data[at + 2] == le_u32(x)[2]);
    assert(data[at + 3] == le_u32(x)[3]);
    let b0 = data[at];
    let b1 = data[at + 1];
    let b2 = data[at + 2];
    let b3 = data[at + 3];
    assert(b0 == x as u8 && b1 == (x >> 8u32) as u8 && b2 == (x >> 16u32) as u8 && b3 == (x
        >> 24u32) as u8 ==> ((b0 as u32) | ((b1 as u32) << 8u32) | ((b2 as u32) << 16u32) | ((
    b3 as u32) << 24u32)) == x) by (bit_vector);
}

proof fn lemma_read_u64(data: Seq<u8>, at: int, x: u64)
    requires
        0 <= at,
        at + 8 <= data.len(),
        forall|k: int| 0 <= k < 8 ==> data[at + k] == #[trigger] le_u64(x)[k],
    ensures
        u64_at(data, at) == x,
{
    assert(data[at + 0] == le_u64(x)[0]);
    assert(data[at + 1] == le_u64(x)[1]);
    assert(data[at + 2] == le_u64(x)[2]);
    assert(data[at + 3] == le_u64(x)[3]);
    assert(data[at + 4] == le_u64(x)[4]);
    assert(data[at + 5] == le_u64(x)[5]);
    assert(data[at + 6] == le_u64(x)[6]);
    assert(data[at + 7] == le_u64(x)[7]);
    let b0 = data[at];
    let b1 = data[at + 1];
    let b2 = data[at + 2];
    let b3 = data[at + 3];
    let b4 = data[at + 4];
    let b5 = data[at + 5];
    let b6 = data[at + 6];
    let b7 = data[at + 7];
    assert(b0 == x as u8 && b1 == (x >> 8u64) as u8 && b2 == (x >> 16u64) as u8 && b3 == (x
        >> 24u64) as u8 && b4 == (x >> 32u64) as u8 && b5 == (x >> 40u64) as u8 && b6 == (x
        >> 48u64) as u8 && b7 == (x >> 56u64) as u8 ==> ((b0 as u64) | ((b1 as u64) << 8u64) | ((
    b2 as u64) << 16u64) | ((b3 as u64) << 24u64) | ((b4 as u64) << 32u64) | ((b5 as u64)
        << 40u64) | ((b6 as u64) << 48u64) | ((b7 as u64) << 56u64)) == x) by (bit_vector);
}

proof fn lemma_vector_bytes(v: Seq<u16>, d: int)
    requires
        0 <= d < v.len(),
    ensures
        vector_bytes(v).len() == 2 * v.len(),
        vector_bytes(v)[2 * d] == le_u16(v[d])[0],
        vector_bytes(v)[2 * d + 1] == le_u16(v[d])[1],
    decreases v.len(),
{
    lemma_vector_bytes_len(v);
    if d < v.len() - 1 {
        lemma_vector_bytes(v.drop_last(), d);
    }
}

proof fn lemma_vector_bytes_len(v: Seq<u16>)
    ensures
        vector_bytes(v).len() == 2 * v.len(),
    decreases v.len(),
{
    if v.len() > 0 {
        lemma_vector_bytes_len(v.drop_last());
    }
}

proof fn lemma_body_len(rows: Seq<Row>, vectors: Seq<u16>, dim: nat)
    requires
        vectors.len() >= rows.len() * dim,
    ensures
        body_bytes(rows, vectors, dim).len() == rows.len() * row_len(dim),
    decreases rows.len(),
{
    if rows.len() > 0 {
        let n = rows.len();
        assert(vectors.len() >= (n - 1) * dim) by (nonlinear_arith)
            requires
                vectors.len() >= n * dim,
                n > 0,
        ;
        lemma_body_len(rows.drop_last(), vectors, dim);
        assert((n - 1) * dim + dim == n * dim) by (nonlinear_arith);
        lemma_vector_bytes_len(row_vector(vectors, n - 1, dim));
        assert((n - 1) * row_len(dim) + row_len(dim) == n * row_len(dim)) by (nonlinear_arith);
    }
}

proof fn lemma_body_byte(rows: Seq<Row>, vectors: Seq<u16>, dim: nat, i: int, j: int)
    requires
        vectors.len() >= rows.len() * dim,
        0 <= i < rows.len(),
        0 <= j < row_len(dim),
    ensures
        body_bytes(rows, vectors, dim)[i * row_len(dim) + j] == row_bytes(
            rows[i],
            row_vector(vectors, i, dim),
        )[j],
    decreases rows.len(),
{
    let n = rows.len();
    let rl = row_len(dim);
    assert(vectors.len() >= (n - 1) * dim) by (nonlinear_arith)
        requires
            vectors.len() >= n * dim,
            n > 0,
    ;
    lemma_body_len(rows.drop_last(), vectors, dim);
    if i < n - 1 {
        assert(i * rl + j < (n - 1) * rl) by (nonlinear_arith)
            requires
                i < n - 1,
                j < rl,
                0 <= i,
        ;
        lemma_body_byte(rows.drop_last(), vectors, dim, i, j);
    } else {
        assert(i * rl == (n - 1) * rl);
        assert(i * dim + dim <= vectors.len()) by (nonlinear_arith)
            requires
                i == n - 1,
                vectors.len() >= n * dim,
        ;
        lemma_vector_bytes_len(row_vector(vectors, i, dim));
    }
}

proof fn lemma_rows_read_back(json: Seq<u8>, h: Header, rows: Seq<Row>, vectors: Seq<u16>)
    requires
        shape_matches(h, rows, vectors),
    ensures
        decoded_rows(encoded(json, h, rows, vectors), 12 + json.len() as int, h) == rows,
{
    let e = encoded(json, h, rows, vectors);
    let dim = h.dim as nat;
    let n = rows.len();
    let rl = row_len(dim);
    let start: int = 12 + json.len() as int;
    let head = magic() + le_u32(json.len() as u32) + json;
    assert(e == head + body_bytes(rows, vectors, dim));
    lemma_body_len(rows, vectors, dim);
    assert forall|i: int| 0 <= i < n implies #[trigger] decoded_rows(e, start, h)[i] == rows[i] by {
        let rv = row_vector(vectors, i, dim);
        assert(i * dim + dim <= n * dim) by (nonlinear_arith)
            requires
                0 <= i < n,
        ;
        assert(0 <= i * rl) by (nonlinear_arith)
            requires
                0 <= i,
        ;
        lemma_vector_bytes_len(rv);
        assert(i * rl + rl <= n * rl) by (nonlinear_arith)
            requires
                0 <= i < n,
        ;
        assert forall|k: int| 0 <= k < 8 implies e[start + i * rl + k] == #[trigger] le_u64(
            rows[i].time,
        )[k] by {
            lemma_body_byte(rows, vectors, dim, i, k);
        }
        assert forall|k: int| 0 <= k < 8 implies e[start + i * rl + 8 + k] == #[trigger] le_u64(
            rows[i].shot_start,
        )[k] by {
            lemma_body_byte(rows, vectors, dim, i, 8 + k);
        }
        assert forall|k: int| 0 <= k < 8 implies e[start + i * rl + 16 + k] == #[trigger] le_u64(
            rows[i].shot_end,
        )[k] by {
            lemma_body_byte(rows, vectors, dim, i, 16 + k);
        }
        lemma_read_u64(e, start + i * rl, rows[i].time);
        lemma_read_u64(e, start + i * rl + 8, rows[i].shot_start);
        lemma_read_u64(e, start + i * rl + 16, rows[i].shot_end);
    }
    assert(decoded_rows(e, start, h) =~= rows);
}

proof fn lemma_vector_read_back(
    json: Seq<u8>,
    h: Header,
    rows: Seq<Row>,
    vectors: Seq<u16>,
    k: int,
)
    requires
        shape_matches(h, rows, vectors),
        0 <= k < vectors.len(),
    ensures
        decoded_vectors(encoded(json, h, rows, vectors), 12 + json.len() as int, h)[k] == vectors[k],
{
    let e = encoded(json, h, rows, vectors);
    let dim = h.dim as nat;
    let n = rows.len();
    let rl = row_len(dim);
    let start: int = 12 + json.len() as int;
    let head = magic() + le_u32(json.len() as u32) + json;
    assert(e == head + body_bytes(rows, vectors, dim));
    lemma_body_len(rows, vectors, dim);
    let i = k / dim as int;
    let d = k % dim as int;
    vstd::arithmetic::div_mod::lemma_fundamental_div_mod(k, dim as int);
    assert(0 <= d < dim);
    assert(0 <= i < n) by (nonlinear_arith)
        requires
            k == dim * i + d,
            0 <= d < dim,
            0 <= k < n * dim,
    ;
    let rv = row_vector(vectors, i, dim);
    assert(i * dim + dim <= n * dim) by (nonlinear_arith)
        requires
            0 <= i < n,
    ;
    assert(0 <= i * rl) by (nonlinear_arith)
        requires
            0 <= i,
    ;
    assert(i * rl + rl <= n * rl) by (nonlinear_arith)
        requires
            0 <= i < n,
    ;
    assert(i * dim == dim * i) by (nonlinear_arith);
    assert(rv[d] == vectors[k]);
    lemma_vector_bytes(rv, d);
    lemma_body_byte(rows, vectors, dim, i, 24 + 2 * d);
    lemma_body_byte(rows, vectors, dim, i, 24 + 2 * d + 1);
    let at = start + i * rl + 24 + 2 * d;
    assert(e[at] == le_u16(vectors[k])[0]);
    assert(e[at + 1] == le_u16(vectors[k])[1]);
    lemma_read_u16(e, at, vectors[k]);
}

/// Reading back what `encode` wrote gives back what was written: for rows and
/// vectors of the shape the header announces and a header JSON shorter than
/// 4 GiB, the prefix ends where the JSON ends, the bytes in between are the
/// JSON, and decoding under the same header yields exactly the rows and the
/// vector entries that were written.
pub proof fn law_decode_undoes_encode(json: Seq<u8>, h: Header, rows: Seq<Row>, vectors: Seq<u16>)
    requires
        shape_matches(h, rows, vectors),
        json.len() <= u32::MAX,
    ensures
        header_end(encoded(json, h, rows, vectors)) == Ok::<nat, StoreError>(12 + json.len()),
        encoded(json, h, rows, vectors).subrange(12, 12 + json.len() as int) == json,
        decode_result(encoded(json, h, rows, vectors), h) == Ok::<
            (Seq<Row>, Seq<u16>),
            StoreError,
        >((rows, vectors)),
{
    let e = encoded(json, h, rows, vectors);
    let dim = h.dim as nat;
    let jl = json.len();
    let head = magic() + le_u32(jl as u32) + json;
    assert(e == head + body_bytes(rows, vectors, dim));
    assert(head.len() == 12 + jl);
    lemma_body_len(rows, vectors, dim);
    assert(e.subrange(0, 8) =~= magic());
    assert forall|k: int| 0 <= k < 4 implies e[8 + k] == #[trigger] le_u32(jl as u32)[k] by {}
    lemma_read_u32(e, 8, jl as u32);
    assert(header_end(e) == Ok::<nat, StoreError>(12 + jl));
    assert(e.subrange(12, 12 + jl as int) =~= json);
    let start: int = 12 + jl as int;
    lemma_rows_read_back(json, h, rows, vectors);
    assert forall|k: int| 0 <= k < vectors.len() implies #[trigger] decoded_vectors(e, start, h)[k]
        == vectors[k] by {
        lemma_vector_read_back(json, h, rows, vectors, k);
    }
    assert(decoded_vectors(e, start, h) =~= vectors);
}

// ---------------------------------------------------------------------------
// Cache keys
// ---------------------------------------------------------------------------

/// What SHA-256 gives for a byte string.
pub uninterp spec fn sha256_of(data: Seq<u8>) -> Seq<u8>;

/// Calls `sha2::Sha256::digest`. The digest is a function of the input bytes
/// alone and is 32 bytes long (the hash's output size); nothing more is
/// stated of it.
#[verifier::external_body]
fn sha256(data: &[u8]) -> (r: Vec<u8>)
    ensures
        r@ == sha256_of(data@),
        r@.len() == 32,
{
    Sha256::digest(data).to_vec()
}

/// The lowercase hexadecimal digit for a nibble.
pub open spec fn hex_digit(n: u8) -> char {
    if n < 10 {
        (48 + n) as char
    } else {
        (87 + n) as char
    }
}

/// Lowercase hexadecimal text of a byte string, two digits per byte.
pub open spec fn hex_of(bytes: Seq<u8>) -> Seq<char>
    decreases bytes.len(),
{
    if bytes.len() == 0 {
        Seq::empty()
    } else {
        hex_of(bytes.drop_last()) + seq![hex_digit(bytes.last() / 16), hex_digit(bytes.last() % 16)]
    }
}

fn hex_char(n: u8) -> (c: char)
    requires
        n < 16,
    ensures
        c == hex_digit(n),
{
    if n < 10 {
        (48u8 + n) as char
    } else {
        (87u8 + n) as char
    }
}

/// Lowercase hexadecimal text of `bytes`.
pub fn lower_hex(bytes: &[u8]) -> (r: String)
    ensures
        r@ == hex_of(bytes@),
{
    let mut out = String::new();
    let mut i: usize = 0;
    while i < bytes.len()
        invariant
            i <= bytes@.len(),
            out@ == hex_of(bytes@.take(i as int)),
        decreases bytes@.len() - i,
    {
        let b = bytes[i];
        push_char(&mut out, hex_char(b / 16));
        push_char(&mut out, hex_char(b % 16));
        assert(bytes@.take(i + 1).drop_last() =~= bytes@.take(i as int));
        i = i + 1;
    }
    assert(bytes@.take(i as int) =~= bytes@);
    out
}

/// The cache key of a file identity (`"<path>|<mtime>|<size>"`): the first 32
/// lowercase hex digits of the SHA-256 of its UTF-8 bytes, i.e. the hex of the
/// first 16 digest bytes.
pub fn cache_key_for_identity(identity: &str) -> (r: String)
    ensures
        r@ == hex_of(sha256_of(vstd::utf8::encode_utf8(identity@)).take(16)),
{
    let bytes = identity.as_bytes_vec();
    let digest = sha256(bytes.as_slice());
    let first = vstd::slice::slice_subrange(digest.as_slice(), 0, 16);
    assert(first@ =~= sha256_of(vstd::utf8::encode_utf8(identity@)).take(16));
    lower_hex(first)
}

// ---------------------------------------------------------------------------
// The store
// ---------------------------------------------------------------------------

/// The embeddings cache directory under a configuration directory:
/// `<config>/palmier-pro/Cache/embeddings`.
pub open spec fn embeddings_dir(config: Seq<char>) -> Seq<char> {
    spec_join(spec_join(spec_join(config, "palmier-pro"@), "Cache"@), "embeddings"@)
}

/// The on-disk file of a key: `<directory>/<key>.embed`.
pub open spec fn key_path(directory: Seq<char>, key: Seq<char>) -> Seq<char> {
    spec_join(directory, key + ".embed"@)
}

/// Whether a stored header (if any) was written by the given model and sampler.
pub open spec fn header_is_current(
    stored: Option<Header>,
    model: Seq<char>,
    model_version: i64,
    sampler_version: i64,
) -> bool {
    match stored {
        Some(h) => h.model@ == model && h.model_version == model_version && h.sampler_version
            == sampler_version,
        None => false,
    }
}

/// Disk cache for per-asset frame embeddings, keyed by file identity; this
/// handle carries the directory it reads and writes.
#[derive(Debug, Clone)]
pub struct EmbeddingStore {
    directory: String,
}

impl EmbeddingStore {
    /// The directory's text.
    pub closed spec fn spec_directory(&self) -> Seq<char> {
        self.directory@
    }

    /// `<config>/palmier-pro/Cache/embeddings` for a given configuration directory.
    pub fn directory_under(config: &str) -> (r: String)
        ensures
            r@ == embeddings_dir(config@),
    {
        let a = join(config, "palmier-pro");
        let b = join(a.as_str(), "Cache");
        join(b.as_str(), "embeddings")
    }

    /// The default embeddings cache directory, under the operating system's
    /// configuration directory; `None` only when it exposes none.
    pub fn default_directory() -> (r: Option<String>)
        ensures
            r matches Some(d) ==> exists|c: Seq<char>| d@ == embeddings_dir(c),
            exists|c: Option<Seq<char>>| #[trigger] config_reply(c) && match c {
                Some(d) => r matches Some(p) && p@ == embeddings_dir(d),
                None => r is None,
            },
    {
        let dir = config_dir();
        proof {
            lemma_config_reply(dir);
        }
        match dir {
            Some(c) => Some(Self::directory_under(c.as_str())),
            None => None,
        }
    }

    /// Opens the store at the default cache directory; fails only when the
    /// operating system exposes no configuration directory.
    pub fn open() -> (r: Result<Self, StoreError>)
        ensures
            r matches Ok(s) ==> exists|c: Seq<char>| s.spec_directory() == embeddings_dir(c),
            r matches Err(e) ==> e == StoreError::NoConfigDirectory,
    {
        match Self::default_directory() {
            Some(directory) => Ok(EmbeddingStore { directory }),
            None => Err(StoreError::NoConfigDirectory),
        }
    }

    /// Opens the store at an explicit directory.
    pub fn with_directory(directory: &str) -> (r: Self)
        ensures
            r.spec_directory() == directory@,
    {
        EmbeddingStore { directory: directory.to_string() }
    }

    /// The directory this store reads and writes.
    pub fn directory(&self) -> (r: &str)
        ensures
            r@ == self.spec_directory(),
    {
        self.directory.as_str()
    }

    /// The on-disk path of `key`: `<directory>/<key>.embed`.
    pub fn disk_path(&self, key: &str) -> (r: String)
        ensures
            r@ == key_path(self.spec_directory(), key@),
    {
        let mut name = key.to_string();
        name.append(".embed");
        join(self.directory.as_str(), name.as_str())
    }

    /// Whether the index stored for a key, read as `stored` (`None` when it is
    /// missing or unreadable), was written by `(model, model_version,
    /// sampler_version)`. A stale or missing index needs re-indexing.
    pub fn is_current(
        stored: &Option<Header>,
        model: &str,
        model_version: i64,
        sampler_version: i64,
    ) -> (r: bool)
        ensures
            r == header_is_current(*stored, model@, model_version, sampler_version),
    {
        match stored {
            Some(h) => str_eq(h.model.as_str(), model) && h.model_version == model_version
                && h.sampler_version == sampler_version,
            None => false,
        }
    }
}

} // verus!
