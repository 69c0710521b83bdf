//! Splitting a document's canonical text into chunks with stable ids.
use vstd::prelude::*;
use crate::app_error::{AppError, AppResult};
use crate::hashing::{blake3_hex_prefixed, blake3_prefixed};
use crate::json::{JsonValue, JAtom, flat_obj, lemma_flat_obj, ifield, field, jint};
use crate::text::{chars_of, push_str, u64_decimal, i64_decimal, nat_decimal, int_decimal, bytes_of, str_eq};
use crate::types::{ChunkId, ConfigHash, DocId};
use vstd::utf8::encode_utf8;

verus! {

/// Version 1 of the chunking configuration.
#[derive(Debug, Clone)]
pub struct ChunkingConfigV1 {
    pub v: i64,
    pub md_html: MdHtmlChunkCfg,
    pub pdf: PdfChunkCfg,
}

/// Markdown and HTML: chunks of at most `max_chars`, a short tail merged.
#[derive(Debug, Clone, Copy)]
pub struct MdHtmlChunkCfg {
    pub max_chars: usize,
    pub min_chars: usize,
}

/// PDF: fixed windows that overlap by `overlap_chars`.
#[derive(Debug, Clone, Copy)]
pub struct PdfChunkCfg {
    pub window_chars: usize,
    pub overlap_chars: usize,
    pub respect_markers: bool,
}

/// One chunk: a character range of the canonical text.
#[derive(Debug, Clone)]
pub struct ChunkRecord {
    pub chunk_id: ChunkId,
    pub doc_id: DocId,
    pub ordinal: i64,
    pub start_char: i64,
    pub end_char: i64,
    pub chunking_config_hash: ConfigHash,
}

pub open spec fn bool_text(b: bool) -> Seq<char> {
    if b {
        "true"@
    } else {
        "false"@
    }
}

/// The canonical JSON text of a chunking configuration.
pub open spec fn config_text(cfg: ChunkingConfigV1) -> Seq<char> {
    "{\"md_html\":{\"max_chars\":"@ + nat_decimal(cfg.md_html.max_chars as nat)
        + ",\"min_chars\":"@ + nat_decimal(cfg.md_html.min_chars as nat)
        + "},\"pdf\":{\"overlap_chars\":"@ + nat_decimal(cfg.pdf.overlap_chars as nat)
        + ",\"respect_markers\":"@ + bool_text(cfg.pdf.respect_markers)
        + ",\"window_chars\":"@ + nat_decimal(cfg.pdf.window_chars as nat)
        + "},\"v\":"@ + int_decimal(cfg.v as int) + "}"@
}

/// The configuration hash: the prefixed hash of its canonical JSON.
pub open spec fn config_hash_text(cfg: ChunkingConfigV1) -> Seq<char> {
    blake3_prefixed(encode_utf8(config_text(cfg)))
}

/// Hashes a chunking configuration.
pub fn hash_chunking_config(cfg: &ChunkingConfigV1) -> (r: AppResult<ConfigHash>)
    ensures
        r is Ok,
        r->Ok_0.0@ == config_hash_text(*cfg),
{
    let mut s = String::new();
    push_str(&mut s, "{\"md_html\":{\"max_chars\":");
    push_str(&mut s, u64_decimal(cfg.md_html.max_chars as u64).as_str());
    push_str(&mut s, ",\"min_chars\":");
    push_str(&mut s, u64_decimal(cfg.md_html.min_chars as u64).as_str());
    push_str(&mut s, "},\"pdf\":{\"overlap_chars\":");
    push_str(&mut s, u64_decimal(cfg.pdf.overlap_chars as u64).as_str());
    push_str(&mut s, ",\"respect_markers\":");
    if cfg.pdf.respect_markers {
        push_str(&mut s, "true");
    } else {
        push_str(&mut s, "false");
    }
    push_str(&mut s, ",\"window_chars\":");
    push_str(&mut s, u64_decimal(cfg.pdf.window_chars as u64).as_str());
    push_str(&mut s, "},\"v\":");
    push_str(&mut s, i64_decimal(cfg.v).as_str());
    push_str(&mut s, "}");
    assert(s@ =~= config_text(*cfg));
    let bytes = bytes_of(s.as_str());
    Ok(ConfigHash(blake3_hex_prefixed(bytes.as_slice())))
}

/// The text whose hash is a chunk's id.
pub open spec fn chunk_id_text(doc: Seq<char>, cfg_hash: Seq<char>, ordinal: int, start: int, end: int) -> Seq<char> {
    "kc.chunk.v1\n"@ + doc + "\n"@ + cfg_hash + "\n"@ + int_decimal(ordinal) + "\n"@ + int_decimal(start)
        + ":"@ + int_decimal(end)
}

fn build_chunk_id(doc_id: &DocId, cfg_hash: &ConfigHash, ordinal: i64, start: i64, end: i64) -> (r:
    ChunkId)
    ensures
        r.0@ == blake3_prefixed(encode_utf8(chunk_id_text(doc_id.0@, cfg_hash.0@, ordinal as int, start as int, end as int))),
{
    let mut raw = String::new();
    push_str(&mut raw, "kc.chunk.v1\n");
    push_str(&mut raw, doc_id.0.as_str());
    push_str(&mut raw, "\n");
    push_str(&mut raw, cfg_hash.0.as_str());
    push_str(&mut raw, "\n");
    push_str(&mut raw, i64_decimal(ordinal).as_str());
    push_str(&mut raw, "\n");
    push_str(&mut raw, i64_decimal(start).as_str());
    push_str(&mut raw, ":");
    push_str(&mut raw, i64_decimal(end).as_str());
    assert(raw@ =~= chunk_id_text(doc_id.0@, cfg_hash.0@, ordinal as int, start as int, end as int));
    let bytes = bytes_of(raw.as_str());
    ChunkId(blake3_hex_prefixed(bytes.as_slice()))
}

/// Largest text, and largest size setting, the chunker accepts.
pub open spec fn size_limit() -> int {
    0x4000_0000_0000_0000
}

pub open spec fn max_int(a: int, b: int) -> int {
    if a >= b {
        a
    } else {
        b
    }
}

pub open spec fn min_int(a: int, b: int) -> int {
    if a <= b {
        a
    } else {
        b
    }
}

/// Markdown/HTML chunk size bound.
pub open spec fn md_max(cfg: ChunkingConfigV1) -> int {
    max_int(cfg.md_html.max_chars as int, 1)
}

/// Markdown/HTML smallest tail kept on its own.
pub open spec fn md_min(cfg: ChunkingConfigV1) -> int {
    max_int(min_int(cfg.md_html.min_chars as int, cfg.md_html.max_chars as int), 1)
}

/// Where a Markdown/HTML chunk that starts at `start` ends.
pub open spec fn md_end(start: int, total: int, max: int, min: int) -> int {
    let e = min_int(start + max, total);
    if total - e < min && e != total {
        total
    } else {
        e
    }
}

/// PDF window length.
pub open spec fn pdf_window(cfg: ChunkingConfigV1) -> int {
    max_int(cfg.pdf.window_chars as int, 1)
}

/// PDF window overlap.
pub open spec fn pdf_overlap(cfg: ChunkingConfigV1) -> int {
    min_int(cfg.pdf.overlap_chars as int, max_int(cfg.pdf.window_chars - 1, 0))
}

/// Distance between the starts of consecutive PDF windows.
pub open spec fn pdf_step(cfg: ChunkingConfigV1) -> int {
    max_int(pdf_window(cfg) - pdf_overlap(cfg), 1)
}

/// Every chunk carries its ordinal, the document, the configuration hash and
/// the id derived from them.
pub open spec fn chunk_ids_ok(cs: Seq<ChunkRecord>, doc: Seq<char>, cfg_hash: Seq<char>) -> bool {
    forall|k: int|
        0 <= k < cs.len() ==> {
            let c = #[trigger] cs[k];
            &&& c.ordinal == k
            &&& c.doc_id.0@ == doc
            &&& c.chunking_config_hash.0@ == cfg_hash
            &&& c.chunk_id.0@ == blake3_prefixed(
                encode_utf8(chunk_id_text(doc, cfg_hash, k, c.start_char as int, c.end_char as int)),
            )
        }
}

/// Markdown/HTML chunks: from 0, each starting where the previous ended and
/// ending as `md_end` says, the last one at `total`.
pub open spec fn md_chunks_ok(cs: Seq<ChunkRecord>, total: int, max: int, min: int) -> bool {
    &&& cs.len() > 0
    &&& cs[0].start_char == 0
    &&& cs.last().end_char == total
    &&& forall|k: int| 0 <= k < cs.len() ==> (#[trigger] cs[k]).end_char == md_end(cs[k].start_char as int, total, max, min)
    &&& forall|k: int| 0 <= k < cs.len() - 1 ==> (#[trigger] cs[k]).end_char < total
    &&& forall|j: int, k: int| 0 <= j && k == j + 1 && k < cs.len() ==> #[trigger] cs[k].start_char == #[trigger] cs[j].end_char
}

/// PDF chunks: window `k` starts at `k * step` and ends `window` later or at
/// `total`; the last one is the first to reach `total`.
pub open spec fn pdf_chunks_ok(cs: Seq<ChunkRecord>, total: int, window: int, step: int) -> bool {
    &&& cs.len() > 0
    &&& cs.last().end_char == total
    &&& forall|k: int| 0 <= k < cs.len() ==> (#[trigger] cs[k]).start_char == k * step && cs[k].end_char == min_int(cs[k].start_char + window, total)
    &&& forall|k: int| 0 <= k < cs.len() - 1 ==> (#[trigger] cs[k]).end_char < total
}

fn push_chunk(
    chunks: &mut Vec<ChunkRecord>,
    doc_id: &DocId,
    cfg_hash: &ConfigHash,
    ordinal: i64,
    start: i64,
    end: i64,
)
    requires
        ordinal == old(chunks)@.len(),
        chunk_ids_ok(old(chunks)@, doc_id.0@, cfg_hash.0@),
    ensures
        final(chunks)@.len() == old(chunks)@.len() + 1,
        forall|k: int| 0 <= k < old(chunks)@.len() ==> final(chunks)@[k] == old(chunks)@[k],
        final(chunks)@.last().start_char == start,
        final(chunks)@.last().end_char == end,
        chunk_ids_ok(final(chunks)@, doc_id.0@, cfg_hash.0@),
{
    chunks.push(ChunkRecord {
        chunk_id: build_chunk_id(doc_id, cfg_hash, ordinal, start, end),
        doc_id: doc_id.clone(),
        ordinal,
        start_char: start,
        end_char: end,
        chunking_config_hash: cfg_hash.clone(),
    });
    assert forall|k: int| 0 <= k < chunks@.len() implies {
        let c = #[trigger] chunks@[k];
        &&& c.ordinal == k
        &&& c.doc_id.0@ == doc_id.0@
        &&& c.chunking_config_hash.0@ == cfg_hash.0@
        &&& c.chunk_id.0@ == blake3_prefixed(
            encode_utf8(chunk_id_text(doc_id.0@, cfg_hash.0@, k, c.start_char as int, c.end_char as int)),
        )
    } by {
        if k < chunks@.len() - 1 {
            assert(chunks@[k] == old(chunks)@[k]);
        }
    }
}

fn chunk_config_error(details: JsonValue) -> (e: AppError)
    ensures
        e.code@ == "KC_CHUNK_CONFIG_INVALID"@,
        e.category@ == "chunking"@,
        e.details == details,
{
    AppError::new(
        "KC_CHUNK_CONFIG_INVALID",
        "chunking",
        "unsupported chunking config version",
        false,
        details,
    )
}

#[verifier::rlimit(80)]
/// Splits `canonical_text` into chunks: fixed overlapping windows for PDF,
/// size-bounded consecutive chunks otherwise.
pub fn chunk_document(doc_id: &DocId, canonical_text: &str, mime: &str, cfg: &ChunkingConfigV1) -> (r:
    AppResult<Vec<ChunkRecord>>)
    requires
        canonical_text@.len() <= size_limit(),
        cfg.md_html.max_chars <= i64::MAX,
        cfg.pdf.window_chars <= i64::MAX,
    ensures
        cfg.v != 1 <==> r is Err,
        r is Err ==> r->Err_0.code@ == "KC_CHUNK_CONFIG_INVALID"@ && flat_obj(r->Err_0.details) == Some(
            seq![("expected"@, JAtom::Int(1)), ("actual"@, JAtom::Int(cfg.v as int))],
        ),
        r is Ok ==> {
            let cs = r->Ok_0@;
            let total = canonical_text@.len() as int;
            &&& chunk_ids_ok(cs, doc_id.0@, config_hash_text(*cfg))
            &&& (total == 0 ==> cs.len() == 0)
            &&& (total > 0 && mime@ == "application/pdf"@ ==> pdf_chunks_ok(cs, total, pdf_window(*cfg), pdf_step(*cfg)))
            &&& (total > 0 && mime@ != "application/pdf"@ ==> md_chunks_ok(cs, total, md_max(*cfg), md_min(*cfg)))
        },
{
    if cfg.v != 1 {
        let es = vec![ifield("expected", 1), ifield("actual", cfg.v)];
        proof {
            lemma_flat_obj(es, seq![("expected"@, JAtom::Int(1)), ("actual"@, JAtom::Int(cfg.v as int))]);
        }
        return Err(chunk_config_error(JsonValue::Object(es)));
    }
    let cfg_hash = match hash_chunking_config(cfg) {
        Ok(h) => h,
        Err(e) => return Err(e),
    };
    let cs = chars_of(canonical_text);
    let total = cs.len() as i64;
    let mut chunks: Vec<ChunkRecord> = Vec::new();
    if total == 0 {
        return Ok(chunks);
    }
    if str_eq(mime, "application/pdf") {
        let window: i64 = if cfg.pdf.window_chars >= 1 { cfg.pdf.window_chars as i64 } else { 1 };
        let sub: usize = if cfg.pdf.window_chars >= 1 { cfg.pdf.window_chars - 1 } else { 0 };
        let overlap: i64 = if cfg.pdf.overlap_chars <= sub { cfg.pdf.overlap_chars as i64 } else { sub as i64 };
        let step: i64 = if window - overlap >= 1 { window - overlap } else { 1 };
        assert(window == pdf_window(*cfg) && overlap == pdf_overlap(*cfg) && step == pdf_step(*cfg));
        let mut start: i64 = 0;
        let mut ordinal: i64 = 0;
        loop
            invariant_except_break
                0 <= start < total,
                total == canonical_text@.len(),
                total <= size_limit(),
                1 <= window <= i64::MAX,
                1 <= step <= window,
                ordinal == chunks@.len(),
                start == ordinal * step,
                chunk_ids_ok(chunks@, doc_id.0@, cfg_hash.0@),
                forall|k: int| 0 <= k < chunks@.len() ==> (#[trigger] chunks@[k]).start_char == k * step && chunks@[k].end_char == min_int(chunks@[k].start_char + window, total as int),
                forall|k: int| 0 <= k < chunks@.len() ==> (#[trigger] chunks@[k]).end_char < total,
            ensures
                chunks@.len() > 0,
                pdf_chunks_ok(chunks@, total as int, window as int, step as int),
                chunk_ids_ok(chunks@, doc_id.0@, cfg_hash.0@),
            decreases total - start,
        {
            let end = if window < total - start { start + window } else { total };
            push_chunk(&mut chunks, doc_id, &cfg_hash, ordinal, start, end);
            if end == total {
                break;
            }
            assert(ordinal <= start) by (nonlinear_arith)
                requires
                    start == ordinal * step,
                    step >= 1,
                    ordinal >= 0,
            ;
            start = start + step;
            ordinal = ordinal + 1;
            assert(start == ordinal * step) by (nonlinear_arith)
                requires
                    start == (ordinal - 1) * step + step,
            ;
        }
    } else {
        let max: i64 = if cfg.md_html.max_chars >= 1 { cfg.md_html.max_chars as i64 } else { 1 };
        let lo: usize = if cfg.md_html.min_chars <= cfg.md_html.max_chars { cfg.md_html.min_chars } else { cfg.md_html.max_chars };
        let min: i64 = if lo >= 1 { lo as i64 } else { 1 };
        assert(max == md_max(*cfg) && min == md_min(*cfg));
        let mut start: i64 = 0;
        let mut ordinal: i64 = 0;
        loop
            invariant_except_break
                0 <= start < total,
                total == canonical_text@.len(),
                total <= size_limit(),
                1 <= max <= i64::MAX,
                1 <= min,
                ordinal == chunks@.len(),
                ordinal <= start,
                chunks@.len() == 0 ==> start == 0,
                chunks@.len() > 0 ==> start == chunks@.last().end_char,
                chunks@.len() > 0 ==> chunks@[0].start_char == 0,
                chunk_ids_ok(chunks@, doc_id.0@, cfg_hash.0@),
                forall|k: int| 0 <= k < chunks@.len() ==> (#[trigger] chunks@[k]).end_char == md_end(chunks@[k].start_char as int, total as int, max as int, min as int),
                forall|k: int| 0 <= k < chunks@.len() ==> (#[trigger] chunks@[k]).end_char < total,
                forall|j: int, k: int| 0 <= j && k == j + 1 && k < chunks@.len() ==> #[trigger] chunks@[k].start_char == #[trigger] chunks@[j].end_char,
            ensures
                md_chunks_ok(chunks@, total as int, max as int, min as int),
                chunk_ids_ok(chunks@, doc_id.0@, cfg_hash.0@),
            decreases total - start,
        {
            let mut end = if max < total - start { start + max } else { total };
            if total - end < min && end != total {
                end = total;
            }
            push_chunk(&mut chunks, doc_id, &cfg_hash, ordinal, start, end);
            if end == total {
                break;
            }
            start = end;
            ordinal = ordinal + 1;
        }
    }
    Ok(chunks)
}

/// Markdown and HTML chunks of a non-empty text are non-empty spans of it:
/// each ends after it starts, within the text.
pub proof fn law_md_chunks_non_empty(cs: Seq<ChunkRecord>, total: int, cfg: ChunkingConfigV1, k: int)
    requires
        md_chunks_ok(cs, total, md_max(cfg), md_min(cfg)),
        total > 0,
        0 <= k < cs.len(),
    ensures
        0 <= cs[k].start_char < cs[k].end_char <= total,
    decreases k,
{
    if k > 0 {
        law_md_chunks_non_empty(cs, total, cfg, k - 1);
        assert(cs[k].start_char == cs[k - 1].end_char);
        assert(cs[k - 1].end_char < total);
    }
    assert(cs[k].end_char == md_end(cs[k].start_char as int, total, md_max(cfg), md_min(cfg)));
}

/// PDF windows of a non-empty text are non-empty spans of it: each ends
/// after it starts, within the text.
pub proof fn law_pdf_chunks_non_empty(cs: Seq<ChunkRecord>, total: int, cfg: ChunkingConfigV1, k: int)
    requires
        pdf_chunks_ok(cs, total, pdf_window(cfg), pdf_step(cfg)),
        total > 0,
        0 <= k < cs.len(),
    ensures
        0 <= cs[k].start_char < cs[k].end_char <= total,
{
    let w = pdf_window(cfg);
    let st = pdf_step(cfg);
    assert(1 <= st <= w);
    assert(cs[k].start_char == k * st);
    assert(k * st >= 0) by (nonlinear_arith)
        requires
            k >= 0,
            st >= 1,
    ;
    if k < cs.len() - 1 {
        assert(cs[k].end_char < total);
    } else if k > 0 {
        assert(cs[k - 1].end_char < total);
        assert(cs[k - 1].start_char == (k - 1) * st);
        assert(k * st == (k - 1) * st + st) by (nonlinear_arith);
    }
}

/// Markdown and HTML chunks are `max_chars` long (at least 1), except the
/// last: it is at most `max_chars + min_chars - 1` long, and it is longer
/// than `max_chars` only where what would follow a full chunk is shorter
/// than `min_chars` and so is merged into it.
pub proof fn law_md_chunk_lengths(cs: Seq<ChunkRecord>, total: int, cfg: ChunkingConfigV1, k: int)
    requires
        md_chunks_ok(cs, total, md_max(cfg), md_min(cfg)),
        total > 0,
        0 <= k < cs.len(),
    ensures
        k < cs.len() - 1 ==> cs[k].end_char - cs[k].start_char == md_max(cfg),
        k == cs.len() - 1 ==> cs[k].end_char - cs[k].start_char <= md_max(cfg) + md_min(cfg) - 1,
        cs[k].end_char - cs[k].start_char > md_max(cfg) ==> k == cs.len() - 1 && total - (cs[k].start_char
            + md_max(cfg)) < md_min(cfg),
{
    let mx = md_max(cfg);
    let mn = md_min(cfg);
    assert(mx >= 1 && mn >= 1 && mn <= mx);
    let st = cs[k].start_char as int;
    assert(cs[k].end_char == md_end(st, total, mx, mn));
    if k < cs.len() - 1 {
        assert(cs[k].end_char < total);
    } else {
        assert(cs[k].end_char == total);
    }
}

} // verus!
