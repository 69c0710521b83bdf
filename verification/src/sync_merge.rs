//! Conservative merge preview: two change sets merge automatically only
//! when they touch no object and no lineage overlay in common.
use vstd::prelude::*;
use crate::app_error::{AppError, AppResult};
use crate::hashing::{validate_blake3_prefixed, is_prefixed_hash};
use crate::json::{JsonValue, field, jstr, jint, jstr_list, chars_less, chars_equal, chars_lt, strictly_sorted, lemma_chars_lt_total, lemma_chars_lt_trans, lemma_chars_lt_irreflexive};
use crate::text::{chars_of, owned};

verus! {

/// Object hashes and lineage overlay ids touched on one side.
#[derive(Debug, Clone, Default)]
pub struct SyncMergeChangeSetV1 {
    pub object_hashes: Vec<String>,
    pub lineage_overlay_ids: Vec<String>,
}

/// The outcome of a conservative merge preview.
#[derive(Debug, Clone)]
pub struct SyncMergePreviewReportV1 {
    pub schema_version: i64,
    pub merge_policy: String,
    pub safe: bool,
    pub generated_at_ms: i64,
    pub local: SyncMergeChangeSetV1,
    pub remote: SyncMergeChangeSetV1,
    pub overlap: SyncMergeChangeSetV1,
    pub reasons: Vec<String>,
}

/// The characters of each string.
pub open spec fn views(v: Seq<String>) -> Seq<Seq<char>> {
    v.map_values(|s: String| s@)
}

/// The strictly increasing sequence holding exactly the strings in `xs`.
pub open spec fn sorted_set(xs: Seq<Seq<char>>) -> Seq<Seq<char>> {
    choose|r: Seq<Seq<char>>| strictly_sorted(r) && (forall|k: Seq<char>| r.contains(k) <==> xs.contains(k))
}

/// `r` holds the strings of `xs` once each, in increasing order.
pub open spec fn is_sorted_set_of(r: Seq<Seq<char>>, xs: Seq<Seq<char>>) -> bool {
    strictly_sorted(r) && (forall|k: Seq<char>| r.contains(k) <==> xs.contains(k))
}

/// The strings present in both sequences.
pub open spec fn common(a: Seq<Seq<char>>, b: Seq<Seq<char>>) -> Seq<Seq<char>> {
    a.filter(|k: Seq<char>| b.contains(k))
}

pub proof fn lemma_sorted_set(r: Seq<Seq<char>>, xs: Seq<Seq<char>>)
    requires
        is_sorted_set_of(r, xs),
    ensures
        sorted_set(xs) == r,
{
    let c = sorted_set(xs);
    assert(is_sorted_set_of(c, xs));
    crate::json::lemma_strictly_sorted_unique(c, r);
}

/// The normalised form of a change set: each list sorted, duplicates dropped.
pub open spec fn is_normalized_of(n: SyncMergeChangeSetV1, input: SyncMergeChangeSetV1) -> bool {
    &&& is_sorted_set_of(views(n.object_hashes@), views(input.object_hashes@))
    &&& is_sorted_set_of(views(n.lineage_overlay_ids@), views(input.lineage_overlay_ids@))
}

/// A change set's entries are well formed: prefixed hashes and non-empty ids.
pub open spec fn change_set_valid(c: SyncMergeChangeSetV1) -> bool {
    &&& forall|i: int| 0 <= i < c.object_hashes@.len() ==> is_prefixed_hash(#[trigger] c.object_hashes@[i]@)
    &&& forall|i: int| 0 <= i < c.lineage_overlay_ids@.len() ==> (#[trigger] c.lineage_overlay_ids@[i])@.len() > 0
}

/// The strings of `xs`, once each, in increasing order.
pub fn sorted_unique(xs: &Vec<String>) -> (r: Vec<String>)
    ensures
        is_sorted_set_of(views(r@), views(xs@)),
{
    let mut out: Vec<String> = Vec::new();
    let mut keys: Vec<Vec<char>> = Vec::new();
    let mut i: usize = 0;
    while i < xs.len()
        invariant
            i <= xs@.len(),
            keys@.len() == out@.len(),
            forall|p: int| 0 <= p < out@.len() ==> (#[trigger] keys@[p])@ == out@[p]@,
            strictly_sorted(views(out@)),
            forall|k: Seq<char>| views(out@).contains(k) <==> views(xs@.subrange(0, i as int)).contains(k),
        decreases xs.len() - i,
    {
        let key = chars_of(xs[i].as_str());
        let ghost k = xs@[i as int]@;
        let mut p: usize = 0;
        while p < out.len() && chars_less(&keys[p], &key)
            invariant
                keys@.len() == out@.len(),
                forall|q: int| 0 <= q < out@.len() ==> (#[trigger] keys@[q])@ == out@[q]@,
                key@ == k,
                p <= out@.len(),
                forall|q: int| 0 <= q < p ==> chars_lt(#[trigger] views(out@)[q], k),
            decreases out.len() - p,
        {
            p = p + 1;
        }
        let ghost old_v = views(out@);
        let ghost pre = views(xs@.subrange(0, i as int));
        assert(views(xs@.subrange(0, i + 1)) =~= pre.push(k));
        if p < out.len() && chars_equal(&keys[p], &key) {
            assert forall|m: Seq<char>| views(out@).contains(m) <==> pre.push(k).contains(m) by {
                if m == k {
                    assert(old_v[p as int] == k);
                    assert(pre.push(k)[pre.len() as int] == k);
                } else {
                    if pre.push(k).contains(m) {
                        let a = choose|a: int| 0 <= a < pre.push(k).len() && pre.push(k)[a] == m;
                        assert(pre[a] == m);
                        assert(pre.contains(m));
                    }
                    if old_v.contains(m) {
                        assert(pre.contains(m));
                        let b = choose|b: int| 0 <= b < pre.len() && pre[b] == m;
                        assert(pre.push(k)[b] == m);
                    }
                }
            }
        } else {
            proof {
                assert forall|q: int| p <= q < old_v.len() implies chars_lt(k, #[trigger] old_v[q]) by {
                    lemma_chars_lt_total(old_v[p as int], k);
                    if q > p {
                        assert(chars_lt(old_v[p as int], old_v[q]));
                        lemma_chars_lt_trans(k, old_v[p as int], old_v[q]);
                    }
                }
            }
            let ghost old_keys = keys@;
            out.insert(p, xs[i].clone());
            keys.insert(p, key);
            proof {
                let nv = views(out@);
                assert(nv =~= old_v.insert(p as int, k));
                assert forall|q1: int, q2: int| 0 <= q1 < q2 < nv.len() implies chars_lt(
                    #[trigger] nv[q1],
                    #[trigger] nv[q2],
                ) by {
                    let a = if q1 < p { q1 } else { q1 - 1 };
                    let b = if q2 < p { q2 } else { q2 - 1 };
                    if q1 == p {
                        assert(nv[q2] == old_v[b]);
                    } else if q2 == p {
                        assert(nv[q1] == old_v[a]);
                    } else {
                        assert(nv[q1] == old_v[a]);
                        assert(nv[q2] == old_v[b]);
                    }
                }
                assert forall|m: Seq<char>| nv.contains(m) <==> pre.push(k).contains(m) by {
                    if nv.contains(m) {
                        let a = choose|a: int| 0 <= a < nv.len() && nv[a] == m;
                        if a < p {
                            assert(old_v[a] == m);
                        } else if a > p {
                            assert(old_v[a - 1] == m);
                        }
                        if m != k {
                            assert(old_v.contains(m));
                            let b = choose|b: int| 0 <= b < pre.len() && pre[b] == m;
                            assert(pre.push(k)[b] == m);
                        } else {
                            assert(pre.push(k)[pre.len() as int] == m);
                        }
                    }
                    if pre.push(k).contains(m) {
                        if m == k {
                            assert(nv[p as int] == m);
                        } else {
                            let a = choose|a: int| 0 <= a < pre.push(k).len() && pre.push(k)[a] == m;
                            assert(pre[a] == m);
                            assert(old_v.contains(m));
                            let b = choose|b: int| 0 <= b < old_v.len() && old_v[b] == m;
                            if b < p {
                                assert(nv[b] == m);
                            } else {
                                assert(nv[b + 1] == m);
                            }
                        }
                    }
                }
                assert forall|q: int| 0 <= q < out@.len() implies (#[trigger] keys@[q])@ == out@[q]@ by {
                    if q < p {
                        assert(keys@[q] == old_keys[q]);
                    } else if q > p {
                        assert(keys@[q] == old_keys[q - 1]);
                    }
                }
            }
        }
        i = i + 1;
    }
    assert(xs@.subrange(0, xs@.len() as int) =~= xs@);
    out
}

/// Whether `b` holds a string equal to `x`.
pub fn contains_string(b: &Vec<String>, x: &String) -> (r: bool)
    ensures
        r == views(b@).contains(x@),
{
    let key = chars_of(x.as_str());
    let mut i: usize = 0;
    while i < b.len()
        invariant
            key@ == x@,
            i <= b@.len(),
            forall|j: int| 0 <= j < i ==> (#[trigger] b@[j])@ != x@,
        decreases b.len() - i,
    {
        let other = chars_of(b[i].as_str());
        if chars_equal(&other, &key) {
            assert(views(b@)[i as int] == x@);
            return true;
        }
        i = i + 1;
    }
    assert forall|j: int| 0 <= j < views(b@).len() implies views(b@)[j] != x@ by {
        assert(views(b@)[j] == b@[j]@);
    }
    false
}

/// The strings of the strictly increasing `a` that also occur in `b`, in order.
pub fn intersect_sorted(a: &Vec<String>, b: &Vec<String>) -> (r: Vec<String>)
    requires
        strictly_sorted(views(a@)),
    ensures
        is_sorted_set_of(views(r@), common(views(a@), views(b@))),
{
    let ghost va = views(a@);
    let ghost vb = views(b@);
    let mut out: Vec<String> = Vec::new();
    let mut i: usize = 0;
    while i < a.len()
        invariant
            va == views(a@),
            vb == views(b@),
            strictly_sorted(va),
            i <= a@.len(),
            views(out@) == common(va.subrange(0, i as int), vb),
        decreases a.len() - i,
    {
        let keep = contains_string(b, &a[i]);
        proof {
            reveal(Seq::filter);
            assert(va.subrange(0, i + 1) =~= va.subrange(0, i as int).push(va[i as int]));
            assert(va.subrange(0, i as int).push(va[i as int]).drop_last() =~= va.subrange(0, i as int));
        }
        if keep {
            out.push(a[i].clone());
            assert(views(out@) =~= common(va.subrange(0, i as int), vb).push(va[i as int]));
        } else {
            assert(views(out@) =~= common(va.subrange(0, i as int), vb));
        }
        i = i + 1;
    }
    assert(va.subrange(0, a@.len() as int) =~= va);
    proof {
        lemma_filter_sorted(va, |k: Seq<char>| vb.contains(k));
    }
    out
}

proof fn lemma_filter_sorted(s: Seq<Seq<char>>, f: spec_fn(Seq<char>) -> bool)
    requires
        strictly_sorted(s),
    ensures
        strictly_sorted(s.filter(f)),
    decreases s.len(),
{
    broadcast use vstd::seq_lib::group_filter_ensures;
    reveal(Seq::filter);
    if s.len() > 0 {
        let t = s.drop_last();
        assert(strictly_sorted(t));
        lemma_filter_sorted(t, f);
        let ft = t.filter(f);
        if f(s.last()) {
            let fs = ft.push(s.last());
            assert forall|p: int, q: int| 0 <= p < q < fs.len() implies chars_lt(#[trigger] fs[p], #[trigger] fs[q]) by {
                if q == fs.len() - 1 {
                    assert(ft.contains(fs[p]));
                    t.lemma_filter_contains_rev(f, fs[p]);
                    let j = choose|j: int| 0 <= j < t.len() && t[j] == fs[p];
                    assert(chars_lt(s[j], s[s.len() - 1]));
                }
            }
        }
    }
}

fn precondition_error(message: &str, details: JsonValue) -> (e: AppError)
    ensures
        e.code@ == "KC_SYNC_MERGE_PRECONDITION_FAILED"@,
        e.category@ == "sync"@,
        !e.retryable,
{
    AppError::new("KC_SYNC_MERGE_PRECONDITION_FAILED", "sync", message, false, details)
}

/// Checks a change set and returns it sorted, each list without duplicates.
pub fn normalize_change_set(input: &SyncMergeChangeSetV1, side: &str) -> (r: AppResult<SyncMergeChangeSetV1>)
    ensures
        r is Ok <==> change_set_valid(*input),
        r is Ok ==> is_normalized_of(r->Ok_0, *input),
        r is Err ==> r->Err_0.code@ == "KC_SYNC_MERGE_PRECONDITION_FAILED"@,
{
    let mut i: usize = 0;
    while i < input.object_hashes.len()
        invariant
            i <= input.object_hashes@.len(),
            forall|j: int| 0 <= j < i ==> is_prefixed_hash(#[trigger] input.object_hashes@[j]@),
        decreases input.object_hashes.len() - i,
    {
        let hash = &input.object_hashes[i];
        match validate_blake3_prefixed(hash.as_str()) {
            Ok(()) => {},
            Err(e) => {
                return Err(
                    precondition_error(
                        "sync merge preview input has invalid object hash",
                        JsonValue::Object(
                            vec![
                                field("side", jstr(side)),
                                field("hash", jstr(hash.as_str())),
                                field("source_code", jstr(e.code.as_str())),
                            ],
                        ),
                    ),
                );
            },
        }
        i = i + 1;
    }
    let mut i: usize = 0;
    while i < input.lineage_overlay_ids.len()
        invariant
            i <= input.lineage_overlay_ids@.len(),
            forall|j: int| 0 <= j < input.object_hashes@.len() ==> is_prefixed_hash(#[trigger] input.object_hashes@[j]@),
            forall|j: int| 0 <= j < i ==> (#[trigger] input.lineage_overlay_ids@[j])@.len() > 0,
        decreases input.lineage_overlay_ids.len() - i,
    {
        if input.lineage_overlay_ids[i].as_str().is_empty() {
            return Err(
                precondition_error(
                    "sync merge preview input has empty lineage overlay id",
                    JsonValue::Object(vec![field("side", jstr(side))]),
                ),
            );
        }
        i = i + 1;
    }
    let object_hashes = sorted_unique(&input.object_hashes);
    let lineage_overlay_ids = sorted_unique(&input.lineage_overlay_ids);
    Ok(SyncMergeChangeSetV1 { object_hashes, lineage_overlay_ids })
}

/// The reasons a merge is unsafe, in sorted order.
pub open spec fn merge_reasons(objects_overlap: bool, overlays_overlap: bool) -> Seq<Seq<char>> {
    (if overlays_overlap {
        seq!["lineage_overlay_overlap"@]
    } else {
        Seq::empty()
    }) + (if objects_overlap {
        seq!["object_hash_overlap"@]
    } else {
        Seq::empty()
    })
}

/// The report says what the conservative policy decides for `local` and
/// `remote`: their normalised sets, what they share, and why a merge is unsafe.
pub open spec fn report_ok(
    rep: SyncMergePreviewReportV1,
    local: SyncMergeChangeSetV1,
    remote: SyncMergeChangeSetV1,
    now_ms: i64,
) -> bool {
    let objs = views(rep.overlap.object_hashes@);
    let ovs = views(rep.overlap.lineage_overlay_ids@);
    &&& rep.schema_version == 1
    &&& rep.merge_policy@ == "conservative_v1"@
    &&& rep.generated_at_ms == now_ms
    &&& is_normalized_of(rep.local, local)
    &&& is_normalized_of(rep.remote, remote)
    &&& objs == sorted_set(common(views(rep.local.object_hashes@), views(rep.remote.object_hashes@)))
    &&& ovs == sorted_set(common(views(rep.local.lineage_overlay_ids@), views(rep.remote.lineage_overlay_ids@)))
    &&& views(rep.reasons@) == merge_reasons(objs.len() > 0, ovs.len() > 0)
    &&& rep.safe == (objs.len() == 0 && ovs.len() == 0)
}

/// Compares two change sets under the conservative merge policy.
pub fn merge_preview_conservative(
    local: &SyncMergeChangeSetV1,
    remote: &SyncMergeChangeSetV1,
    now_ms: i64,
) -> (r: AppResult<SyncMergePreviewReportV1>)
    ensures
        r is Ok <==> change_set_valid(*local) && change_set_valid(*remote),
        r is Ok ==> report_ok(r->Ok_0, *local, *remote, now_ms),
        r is Err ==> r->Err_0.code@ == "KC_SYNC_MERGE_PRECONDITION_FAILED"@,
{
    let local_norm = normalize_change_set(local, "local")?;
    let remote_norm = normalize_change_set(remote, "remote")?;
    let overlap_objects = intersect_sorted(&local_norm.object_hashes, &remote_norm.object_hashes);
    let overlap_overlays = intersect_sorted(
        &local_norm.lineage_overlay_ids,
        &remote_norm.lineage_overlay_ids,
    );
    proof {
        lemma_sorted_set(
            views(overlap_objects@),
            common(views(local_norm.object_hashes@), views(remote_norm.object_hashes@)),
        );
        lemma_sorted_set(
            views(overlap_overlays@),
            common(views(local_norm.lineage_overlay_ids@), views(remote_norm.lineage_overlay_ids@)),
        );
    }
    let mut reasons: Vec<String> = Vec::new();
    if overlap_overlays.len() > 0 {
        reasons.push(owned("lineage_overlay_overlap"));
    }
    if overlap_objects.len() > 0 {
        reasons.push(owned("object_hash_overlap"));
    }
    assert(views(reasons@) =~= merge_reasons(overlap_objects@.len() > 0, overlap_overlays@.len() > 0));
    let safe = reasons.len() == 0;
    Ok(SyncMergePreviewReportV1 {
        schema_version: 1,
        merge_policy: owned("conservative_v1"),
        safe,
        generated_at_ms: now_ms,
        local: local_norm,
        remote: remote_norm,
        overlap: SyncMergeChangeSetV1 {
            object_hashes: overlap_objects,
            lineage_overlay_ids: overlap_overlays,
        },
        reasons,
    })
}

/// Refuses an automatic merge that the report marks unsafe.
pub fn ensure_conservative_merge_safe(report: &SyncMergePreviewReportV1) -> (r: AppResult<()>)
    ensures
        r is Ok <==> report.safe,
        r is Err ==> r->Err_0.code@ == "KC_SYNC_MERGE_NOT_SAFE"@ && r->Err_0.category@ == "sync"@,
{
    if report.safe {
        return Ok(());
    }
    Err(
        AppError::new(
            "KC_SYNC_MERGE_NOT_SAFE",
            "sync",
            "conservative auto-merge rejected due to overlapping change sets",
            false,
            JsonValue::Object(
                vec![
                    field("schema_version", jint(report.schema_version)),
                    field("merge_policy", jstr(report.merge_policy.as_str())),
                    field("reasons", jstr_list(&report.reasons)),
                    field(
                        "overlap",
                        JsonValue::Object(
                            vec![
                                field("object_hashes", jstr_list(&report.overlap.object_hashes)),
                                field(
                                    "lineage_overlay_ids",
                                    jstr_list(&report.overlap.lineage_overlay_ids),
                                ),
                            ],
                        ),
                    ),
                ],
            ),
        ),
    )
}

/// Every finite collection of strings has a sorted set.
pub proof fn lemma_sorted_set_exists(xs: Seq<Seq<char>>)
    ensures
        is_sorted_set_of(sorted_set(xs), xs),
    decreases xs.len(),
{
    broadcast use vstd::seq_lib::group_filter_ensures;
    if xs.len() == 0 {
        let r = Seq::<Seq<char>>::empty();
        assert(is_sorted_set_of(r, xs));
    } else {
        let t = xs.drop_last();
        let k = xs.last();
        lemma_sorted_set_exists(t);
        let r0 = sorted_set(t);
        assert(xs =~= t.push(k));
        if r0.contains(k) {
            assert forall|m: Seq<char>| r0.contains(m) <==> xs.contains(m) by {
                if xs.contains(m) && m != k {
                    let a = choose|a: int| 0 <= a < xs.len() && xs[a] == m;
                    assert(t[a] == m);
                }
                if r0.contains(m) && m != k {
                    assert(t.contains(m));
                    let a = choose|a: int| 0 <= a < t.len() && t[a] == m;
                    assert(xs[a] == m);
                }
                if m == k {
                    assert(xs[xs.len() - 1] == m);
                }
            }
            assert(is_sorted_set_of(r0, xs));
        } else {
            let lo = r0.filter(|m: Seq<char>| chars_lt(m, k));
            let hi = r0.filter(|m: Seq<char>| chars_lt(k, m));
            let r = lo + seq![k] + hi;
            lemma_filter_sorted(r0, |m: Seq<char>| chars_lt(m, k));
            lemma_filter_sorted(r0, |m: Seq<char>| chars_lt(k, m));
            assert forall|p: int, q: int| 0 <= p < q < r.len() implies chars_lt(#[trigger] r[p], #[trigger] r[q]) by {
                let a = lo.len() as int;
                if p < a && q < a {
                    assert(r[p] == lo[p] && r[q] == lo[q]);
                } else if p > a && q > a {
                    assert(r[p] == hi[p - a - 1] && r[q] == hi[q - a - 1]);
                } else if p < a && q == a {
                    assert(r[p] == lo[p]);
                } else if p == a && q > a {
                    assert(r[q] == hi[q - a - 1]);
                } else {
                    assert(r[p] == lo[p] && r[q] == hi[q - a - 1]);
                    lemma_chars_lt_trans(lo[p], k, hi[q - a - 1]);
                }
            }
            assert forall|m: Seq<char>| r.contains(m) <==> xs.contains(m) by {
                if r.contains(m) {
                    let a = choose|a: int| 0 <= a < r.len() && r[a] == m;
                    if m != k {
                        if a < lo.len() {
                            assert(lo.contains(m));
                            r0.lemma_filter_contains_rev(|m: Seq<char>| chars_lt(m, k), m);
                        } else {
                            assert(hi[a - lo.len() - 1] == m);
                            assert(hi.contains(m));
                            r0.lemma_filter_contains_rev(|m: Seq<char>| chars_lt(k, m), m);
                        }
                        assert(t.contains(m));
                        let b = choose|b: int| 0 <= b < t.len() && t[b] == m;
                        assert(xs[b] == m);
                    } else {
                        assert(xs[xs.len() - 1] == m);
                    }
                }
                if xs.contains(m) {
                    if m == k {
                        assert(r[lo.len() as int] == m);
                    } else {
                        let a = choose|a: int| 0 <= a < xs.len() && xs[a] == m;
                        assert(t[a] == m);
                        assert(r0.contains(m));
                        let b = choose|b: int| 0 <= b < r0.len() && r0[b] == m;
                        lemma_chars_lt_total(m, k);
                        if chars_lt(m, k) {
                            assert(lo.contains(m));
                            let c = choose|c: int| 0 <= c < lo.len() && lo[c] == m;
                            assert(r[c] == m);
                        } else {
                            assert(hi.contains(m));
                            let c = choose|c: int| 0 <= c < hi.len() && hi[c] == m;
                            assert(r[lo.len() + 1 + c] == m);
                        }
                    }
                }
            }
            assert(is_sorted_set_of(r, xs));
        }
    }
}

/// Normalizing is idempotent: a normalized change set is still valid, and
/// normalizing it again gives it back unchanged.
pub proof fn law_normalize_idempotent(input: SyncMergeChangeSetV1, n: SyncMergeChangeSetV1, n2: SyncMergeChangeSetV1)
    requires
        change_set_valid(input),
        is_normalized_of(n, input),
        is_normalized_of(n2, n),
    ensures
        change_set_valid(n),
        views(n2.object_hashes@) == views(n.object_hashes@),
        views(n2.lineage_overlay_ids@) == views(n.lineage_overlay_ids@),
{
    let no = views(n.object_hashes@);
    let io = views(input.object_hashes@);
    let nv = views(n.lineage_overlay_ids@);
    let iv = views(input.lineage_overlay_ids@);
    assert forall|i: int| 0 <= i < n.object_hashes@.len() implies is_prefixed_hash(#[trigger] n.object_hashes@[i]@) by {
        assert(no[i] == n.object_hashes@[i]@);
        assert(no.contains(no[i]));
        assert(io.contains(no[i]));
        let j = choose|j: int| 0 <= j < io.len() && io[j] == no[i];
        assert(io[j] == input.object_hashes@[j]@);
    }
    assert forall|i: int| 0 <= i < n.lineage_overlay_ids@.len() implies (#[trigger] n.lineage_overlay_ids@[i])@.len() > 0 by {
        assert(nv[i] == n.lineage_overlay_ids@[i]@);
        assert(nv.contains(nv[i]));
        assert(iv.contains(nv[i]));
        let j = choose|j: int| 0 <= j < iv.len() && iv[j] == nv[i];
        assert(iv[j] == input.lineage_overlay_ids@[j]@);
    }
    assert(is_sorted_set_of(no, no));
    assert(is_sorted_set_of(nv, nv));
    lemma_sorted_set(no, no);
    lemma_sorted_set(views(n2.object_hashes@), no);
    lemma_sorted_set(nv, nv);
    lemma_sorted_set(views(n2.lineage_overlay_ids@), nv);
}

/// What two change sets share does not depend on which side is local.
pub proof fn law_overlap_symmetric(a: Seq<Seq<char>>, b: Seq<Seq<char>>)
    ensures
        sorted_set(common(a, b)) == sorted_set(common(b, a)),
{
    broadcast use vstd::seq_lib::group_filter_ensures;
    let x = common(a, b);
    let y = common(b, a);
    lemma_sorted_set_exists(x);
    let r = sorted_set(x);
    assert forall|k: Seq<char>| x.contains(k) <==> y.contains(k) by {
        if x.contains(k) {
            a.lemma_filter_contains_rev(|m: Seq<char>| b.contains(m), k);
            let i = choose|i: int| 0 <= i < b.len() && b[i] == k;
            assert(b.filter(|m: Seq<char>| a.contains(m)).contains(b[i]));
        }
        if y.contains(k) {
            b.lemma_filter_contains_rev(|m: Seq<char>| a.contains(m), k);
            let i = choose|i: int| 0 <= i < a.len() && a[i] == k;
            assert(a.filter(|m: Seq<char>| b.contains(m)).contains(a[i]));
        }
    }
    assert(is_sorted_set_of(r, y));
    lemma_sorted_set(r, y);
}

/// A preview is safe exactly when the two sides share no object hash and no
/// lineage overlay id.
pub proof fn law_safe_iff_disjoint(
    rep: SyncMergePreviewReportV1,
    local: SyncMergeChangeSetV1,
    remote: SyncMergeChangeSetV1,
    now_ms: i64,
)
    requires
        report_ok(rep, local, remote, now_ms),
    ensures
        rep.safe <==> (forall|k: Seq<char>|
            !(views(local.object_hashes@).contains(k) && views(remote.object_hashes@).contains(k)))
            && (forall|k: Seq<char>|
            !(views(local.lineage_overlay_ids@).contains(k) && views(
                remote.lineage_overlay_ids@,
            ).contains(k))),
{
    broadcast use vstd::seq_lib::group_filter_ensures;
    let lo = views(rep.local.object_hashes@);
    let ro = views(rep.remote.object_hashes@);
    let lv = views(rep.local.lineage_overlay_ids@);
    let rv = views(rep.remote.lineage_overlay_ids@);
    lemma_sorted_set_exists(common(lo, ro));
    lemma_sorted_set_exists(common(lv, rv));
    let objs = sorted_set(common(lo, ro));
    let ovs = sorted_set(common(lv, rv));
    if !rep.safe {
        if objs.len() > 0 {
            let k = objs[0];
            assert(objs.contains(k));
            lo.lemma_filter_contains_rev(|m: Seq<char>| ro.contains(m), k);
            assert(views(local.object_hashes@).contains(k) && views(remote.object_hashes@).contains(k));
        } else {
            let k = ovs[0];
            assert(ovs.contains(k));
            lv.lemma_filter_contains_rev(|m: Seq<char>| rv.contains(m), k);
            assert(views(local.lineage_overlay_ids@).contains(k) && views(remote.lineage_overlay_ids@).contains(k));
        }
    } else {
        assert forall|k: Seq<char>|
            !(views(local.object_hashes@).contains(k) && views(remote.object_hashes@).contains(k)) by {
            if views(local.object_hashes@).contains(k) && views(remote.object_hashes@).contains(k) {
                assert(lo.contains(k) && ro.contains(k));
                let i = choose|i: int| 0 <= i < lo.len() && lo[i] == k;
                assert(common(lo, ro).contains(lo[i]));
                assert(objs.contains(k));
            }
        }
        assert forall|k: Seq<char>|
            !(views(local.lineage_overlay_ids@).contains(k) && views(remote.lineage_overlay_ids@).contains(k)) by {
            if views(local.lineage_overlay_ids@).contains(k) && views(remote.lineage_overlay_ids@).contains(k) {
                assert(lv.contains(k) && rv.contains(k));
                let i = choose|i: int| 0 <= i < lv.len() && lv[i] == k;
                assert(common(lv, rv).contains(lv[i]));
                assert(ovs.contains(k));
            }
        }
    }
}

} // verus!
