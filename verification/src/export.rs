//! Export bundles: which escrow descriptors a bundle records, where each
//! object and vector file of the vault goes in it, and the manifest that
//! lists them.
use vstd::prelude::*;
use crate::app_error::{AppError, AppResult};
use crate::json::{JsonValue, JsonNumber, JAtom, find_key, lemma_find_key, entry_value, obj_entries, arr_items, chars_lt, str_order, sfield, ifield, jstr, atom_of, flat_obj,
    lemma_flat_obj, lemma_chars_lt_trans, lemma_chars_lt_total, lemma_chars_lt_irreflexive, lemma_chars_lt_asym};
use crate::recovery_escrow::{RecoveryEscrowDescriptorV2, DescriptorView, descriptor_view, descriptor_views,
    descriptors_sorted, normalize_escrow_descriptors, priority_of, provider_priority};
use crate::sorting::stable_perm;
use crate::text::{owned, str_eq};
use crate::vault::VaultJsonV2;
use crate::rpc_service::VaultDbEncryptionConfig;

verus! {

/// What an export includes and how it is packaged.
#[derive(Debug, Clone, Copy)]
pub struct ExportOptions {
    pub include_vectors: bool,
    pub as_zip: bool,
}

// ---------------------------------------------------------------------------
// Recovery escrow block
// ---------------------------------------------------------------------------

/// One row of the escrow configurations, in provider order, with its
/// descriptor as read from its JSON text, or the reason it could not be read.
#[derive(Debug)]
pub struct EscrowExportRow {
    pub provider_id: String,
    pub enabled: bool,
    pub descriptor: Result<JsonValue, String>,
    pub updated_at_ms: i64,
}

/// The text of a string value.
pub open spec fn str_of(v: Option<JsonValue>) -> Option<Seq<char>> {
    match v {
        Some(JsonValue::Str(s)) => Some(s@),
        _ => None,
    }
}

/// A number that fits an `i64`.
pub open spec fn i64_of(v: Option<JsonValue>) -> Option<i64> {
    match v {
        Some(JsonValue::Number(JsonNumber::PosInt(u))) => if u <= i64::MAX {
            Some(u as i64)
        } else {
            None
        },
        Some(JsonValue::Number(JsonNumber::NegInt(i))) => Some(i),
        _ => None,
    }
}

/// An object that names all four fields of a descriptor, whatever they hold.
pub open spec fn has_descriptor_shape(es: Seq<(String, JsonValue)>) -> bool {
    &&& entry_value(es, "provider"@) is Some
    &&& entry_value(es, "provider_ref"@) is Some
    &&& entry_value(es, "key_id"@) is Some
    &&& entry_value(es, "wrapped_at_ms"@) is Some
}

/// What a row contributes to the escrow block.
pub enum EscrowRowStep {
    /// Disabled, or no descriptor written yet.
    Skip,
    /// The export fails with this message.
    Fail(Seq<char>),
    /// A descriptor: provider, reference, key and wrap time.
    Take(Seq<char>, Seq<char>, Seq<char>, i64),
}

pub open spec fn row_step(row: EscrowExportRow) -> EscrowRowStep {
    if !row.enabled {
        EscrowRowStep::Skip
    } else {
        match row.descriptor {
            Err(_) => EscrowRowStep::Fail("failed parsing recovery escrow descriptor json"@),
            Ok(JsonValue::Object(es)) => if !has_descriptor_shape(es@) {
                EscrowRowStep::Skip
            } else {
                let p = str_of(entry_value(es@, "provider"@));
                let r = str_of(entry_value(es@, "provider_ref"@));
                let k = str_of(entry_value(es@, "key_id"@));
                let w = i64_of(entry_value(es@, "wrapped_at_ms"@));
                if p is None || r is None || k is None || w is None {
                    EscrowRowStep::Fail("failed decoding recovery escrow descriptor json"@)
                } else if p->Some_0 != row.provider_id@ {
                    EscrowRowStep::Fail("recovery escrow descriptor provider does not match provider id"@)
                } else {
                    EscrowRowStep::Take(p->Some_0, r->Some_0, k->Some_0, w->Some_0)
                }
            },
            Ok(_) => EscrowRowStep::Skip,
        }
    }
}

/// A taken descriptor with the time its row was updated.
pub type TakenDescriptor = (Seq<char>, Seq<char>, Seq<char>, i64, i64);

/// Reads the rows in order: the descriptors taken, or the message of the
/// first row that fails.
pub open spec fn escrow_scan(rows: Seq<EscrowExportRow>) -> Result<Seq<TakenDescriptor>, Seq<char>>
    decreases rows.len(),
{
    if rows.len() == 0 {
        Ok(Seq::empty())
    } else {
        match escrow_scan(rows.drop_last()) {
            Err(m) => Err(m),
            Ok(acc) => match row_step(rows.last()) {
                EscrowRowStep::Skip => Ok(acc),
                EscrowRowStep::Fail(m) => Err(m),
                EscrowRowStep::Take(p, r, k, w) => Ok(acc.push((p, r, k, w, rows.last().updated_at_ms))),
            },
        }
    }
}

pub open spec fn taken_view(t: TakenDescriptor) -> DescriptorView {
    (priority_of(t.0), t.0, t.1, t.2, t.3)
}

pub open spec fn taken_provider(t: TakenDescriptor) -> Seq<char> {
    t.0
}

/// The latest update time among the taken rows.
pub open spec fn latest_update(t: Seq<TakenDescriptor>) -> Option<i64>
    decreases t.len(),
{
    if t.len() == 0 {
        None
    } else {
        match latest_update(t.drop_last()) {
            None => Some(t.last().4),
            Some(m) => Some(if m >= t.last().4 {
                m
            } else {
                t.last().4
            }),
        }
    }
}

/// Providers are ordered by rank, then by name.
pub open spec fn provider_lt(a: Seq<char>, b: Seq<char>) -> bool {
    priority_of(a) < priority_of(b) || (priority_of(a) == priority_of(b) && chars_lt(a, b))
}

pub open spec fn providers_sorted(s: Seq<Seq<char>>) -> bool {
    forall|p: int, q: int| 0 <= p < q < s.len() ==> provider_lt(#[trigger] s[p], #[trigger] s[q])
}

pub open spec fn string_views(s: Seq<String>) -> Seq<Seq<char>> {
    s.map_values(|x: String| x@)
}

proof fn lemma_provider_lt(a: Seq<char>, b: Seq<char>, c: Seq<char>)
    ensures
        provider_lt(a, b) && provider_lt(b, c) ==> provider_lt(a, c),
        !provider_lt(a, a),
        a == b || provider_lt(a, b) || provider_lt(b, a),
        provider_lt(a, b) ==> !provider_lt(b, a),
{
    lemma_chars_lt_irreflexive(a);
    lemma_chars_lt_total(a, b);
    if chars_lt(a, b) && chars_lt(b, c) {
        lemma_chars_lt_trans(a, b, c);
    }
    if chars_lt(a, b) {
        lemma_chars_lt_asym(a, b);
    }
}

/// What the rows add up to: the providers that hold a descriptor, each once
/// in provider order; the descriptors in descriptor order; and the latest
/// update time.
pub open spec fn summary_matches(
    t: Seq<TakenDescriptor>,
    providers: Seq<Seq<char>>,
    descriptors: Seq<DescriptorView>,
    updated_at_ms: Option<i64>,
) -> bool {
    &&& providers_sorted(providers)
    &&& providers.to_set() == t.map_values(|x: TakenDescriptor| taken_provider(x)).to_set()
    &&& descriptors_sorted(descriptors)
    &&& descriptors.to_multiset() == t.map_values(|x: TakenDescriptor| taken_view(x)).to_multiset()
    &&& updated_at_ms == latest_update(t)
}

/// The escrow part of an export: providers, latest update, descriptors.
#[derive(Debug)]
pub struct EscrowExportSummary {
    pub providers: Vec<String>,
    pub updated_at_ms: Option<i64>,
    pub descriptors: Vec<RecoveryEscrowDescriptorV2>,
}

/// What a row decides, as computed.
enum RowDecision {
    Skip,
    Fail(&'static str),
    Take(RecoveryEscrowDescriptorV2),
}

fn key_position(es: &Vec<(String, JsonValue)>, k: &str) -> (r: usize)
    ensures
        r <= es@.len(),
        r == find_key(es@, k@),
{
    let mut i: usize = 0;
    while i < es.len()
        invariant
            i <= es@.len(),
            forall|j: int| 0 <= j < i ==> (#[trigger] es@[j]).0@ != k@,
        decreases es.len() - i,
    {
        if str_eq(es[i].0.as_str(), k) {
            proof {
                lemma_find_key(es@, k@, i as int);
            }
            return i;
        }
        i = i + 1;
    }
    proof {
        lemma_find_key(es@, k@, i as int);
    }
    i
}

fn string_at(es: &Vec<(String, JsonValue)>, i: usize) -> (r: Option<String>)
    requires
        i < es@.len(),
    ensures
        r is Some <==> es@[i as int].1 is Str,
        r is Some ==> r->Some_0@ == es@[i as int].1->Str_0@,
{
    match &es[i].1 {
        JsonValue::Str(s) => Some(owned(s.as_str())),
        _ => None,
    }
}

fn i64_at(es: &Vec<(String, JsonValue)>, i: usize) -> (r: Option<i64>)
    requires
        i < es@.len(),
    ensures
        r == i64_of(Some(es@[i as int].1)),
{
    match &es[i].1 {
        JsonValue::Number(JsonNumber::PosInt(u)) => if *u <= 9223372036854775807u64 {
            Some(*u as i64)
        } else {
            None
        },
        JsonValue::Number(JsonNumber::NegInt(n)) => Some(*n),
        _ => None,
    }
}

fn decide_row(row: &EscrowExportRow) -> (r: RowDecision)
    ensures
        row_step(*row) is Skip ==> r is Skip,
        row_step(*row) is Fail ==> (r matches RowDecision::Fail(m) && m@ == row_step(*row)->Fail_0),
        row_step(*row) is Take ==> (r matches RowDecision::Take(d) && d.provider@ == row_step(*row)->Take_0
            && d.provider_ref@ == row_step(*row)->Take_1 && d.key_id@ == row_step(*row)->Take_2 && d.wrapped_at_ms
            == row_step(*row)->Take_3),
{
    if !row.enabled {
        return RowDecision::Skip;
    }
    match &row.descriptor {
        Err(_) => RowDecision::Fail("failed parsing recovery escrow descriptor json"),
        Ok(JsonValue::Object(es)) => {
            let pi = key_position(es, "provider");
            let ri = key_position(es, "provider_ref");
            let ki = key_position(es, "key_id");
            let wi = key_position(es, "wrapped_at_ms");
            if pi >= es.len() || ri >= es.len() || ki >= es.len() || wi >= es.len() {
                return RowDecision::Skip;
            }
            let p = string_at(es, pi);
            let r = string_at(es, ri);
            let k = string_at(es, ki);
            let w = i64_at(es, wi);
            match (p, r, k, w) {
                (Some(p), Some(r), Some(k), Some(w)) => {
                    if !str_eq(p.as_str(), row.provider_id.as_str()) {
                        RowDecision::Fail("recovery escrow descriptor provider does not match provider id")
                    } else {
                        RowDecision::Take(
                            RecoveryEscrowDescriptorV2 { provider: p, provider_ref: r, key_id: k, wrapped_at_ms: w },
                        )
                    }
                },
                _ => RowDecision::Fail("failed decoding recovery escrow descriptor json"),
            }
        },
        Ok(_) => RowDecision::Skip,
    }
}

fn export_failed(message: &str, provider: &str) -> (e: AppError)
    ensures
        e.code@ == "KC_EXPORT_FAILED"@,
        e.message@ == message@,
{
    AppError::new("KC_EXPORT_FAILED", "export", message, false, JsonValue::Object(vec![sfield("provider", provider)]))
}

fn provider_before(a: &str, b: &str) -> (r: bool)
    ensures
        r == provider_lt(a@, b@),
{
    let pa = provider_priority(a);
    let pb = provider_priority(b);
    pa < pb || (pa == pb && str_order(a, b) == -1)
}

/// Once a prefix of the rows fails, the whole scan fails with its message.
proof fn lemma_scan_prefix_err(rows: Seq<EscrowExportRow>, n: int)
    requires
        0 <= n <= rows.len(),
        escrow_scan(rows.take(n)) is Err,
    ensures
        escrow_scan(rows) == escrow_scan(rows.take(n)),
    decreases rows.len() - n,
{
    if n == rows.len() {
        assert(rows.take(n) =~= rows);
    } else {
        assert(rows.take(n + 1).drop_last() =~= rows.take(n));
        lemma_scan_prefix_err(rows, n + 1);
    }
}

/// Adds `p` to a strictly ordered list of providers, unless it is there.
fn add_provider(providers: &mut Vec<String>, p: &str)
    requires
        providers_sorted(string_views(old(providers)@)),
    ensures
        providers_sorted(string_views(final(providers)@)),
        string_views(final(providers)@).to_set() == string_views(old(providers)@).to_set().insert(p@),
{
    let ghost s = string_views(providers@);
    let mut i: usize = 0;
    while i < providers.len() && provider_before(providers[i].as_str(), p)
        invariant
            s == string_views(providers@),
            i <= providers@.len(),
            forall|q: int| 0 <= q < i ==> provider_lt(#[trigger] s[q], p@),
        decreases providers.len() - i,
    {
        proof {
            assert(s[i as int] == providers@[i as int]@);
        }
        i = i + 1;
    }
    proof {
        if i < providers@.len() {
            assert(s[i as int] == providers@[i as int]@);
            assert(!provider_lt(s[i as int], p@));
        }
    }
    if i < providers.len() && str_eq(providers[i].as_str(), p) {
        proof {
            assert(s[i as int] == p@);
            assert(s.to_set().insert(p@) =~= s.to_set());
        }
        return;
    }
    proof {
        if i < s.len() {
            assert(s[i as int] != p@);
            lemma_provider_lt(s[i as int], p@, s[i as int]);
            assert(provider_lt(p@, s[i as int]));
        }
    }
    providers.insert(i, owned(p));
    proof {
        let t = string_views(providers@);
        assert(t =~= s.insert(i as int, p@));
        assert forall|a: int, b: int| 0 <= a < b < t.len() implies provider_lt(#[trigger] t[a], #[trigger] t[b]) by {
            if b < i {
                assert(t[a] == s[a] && t[b] == s[b]);
            } else if b == i {
                assert(t[a] == s[a]);
            } else if a < i {
                assert(t[a] == s[a] && t[b] == s[b - 1]);
                if b - 1 > i {
                    assert(provider_lt(s[i as int], s[b - 1]));
                    lemma_provider_lt(p@, s[i as int], s[b - 1]);
                }
                lemma_provider_lt(s[a], p@, s[b - 1]);
            } else if a == i {
                assert(t[b] == s[b - 1]);
                if b - 1 > i {
                    assert(provider_lt(s[i as int], s[b - 1]));
                    lemma_provider_lt(p@, s[i as int], s[b - 1]);
                }
            } else {
                assert(t[a] == s[a - 1] && t[b] == s[b - 1]);
            }
        }
        assert forall|x: Seq<char>| t.to_set().contains(x) <==> s.to_set().insert(p@).contains(x) by {
            if t.contains(x) {
                let j = choose|j: int| 0 <= j < t.len() && t[j] == x;
                if j != i {
                    let j0 = if j < i { j } else { j - 1 };
                    assert(t[j] == s[j0]);
                }
            }
            if s.contains(x) {
                let j = choose|j: int| 0 <= j < s.len() && s[j] == x;
                let j1 = if j < i { j } else { j + 1 };
                assert(t[j1] == s[j]);
            }
            if x == p@ {
                assert(t[i as int] == p@);
            }
        }
        assert(t.to_set() =~= s.to_set().insert(p@));
    }
}

/// Reads the escrow rows of a vault for its export: the enabled rows whose
/// descriptor is written, checked against their provider; fails on the
/// first descriptor that cannot be read or names another provider.
pub fn recovery_escrow_export_summary(rows: &Vec<EscrowExportRow>) -> (r: AppResult<EscrowExportSummary>)
    ensures
        r is Err <==> escrow_scan(rows@) is Err,
        r is Err ==> r->Err_0.code@ == "KC_EXPORT_FAILED"@ && r->Err_0.message@ == escrow_scan(rows@)->Err_0,
        r is Ok ==> summary_matches(
            escrow_scan(rows@)->Ok_0,
            string_views(r->Ok_0.providers@),
            descriptor_views(r->Ok_0.descriptors@),
            r->Ok_0.updated_at_ms,
        ),
{
    let mut providers: Vec<String> = Vec::new();
    let mut descriptors: Vec<RecoveryEscrowDescriptorV2> = Vec::new();
    let mut updated: Option<i64> = None;
    let mut i: usize = 0;
    proof {
        assert(rows@.take(0) =~= Seq::<EscrowExportRow>::empty());
        assert(string_views(providers@) =~= Seq::<Seq<char>>::empty());
        assert(descriptor_views(descriptors@) =~= Seq::<DescriptorView>::empty());
    }
    while i < rows.len()
        invariant
            i <= rows@.len(),
            escrow_scan(rows@.take(i as int)) is Ok,
            providers_sorted(string_views(providers@)),
            string_views(providers@).to_set() == escrow_scan(rows@.take(i as int))->Ok_0.map_values(
                |x: TakenDescriptor| taken_provider(x),
            ).to_set(),
            descriptor_views(descriptors@) == escrow_scan(rows@.take(i as int))->Ok_0.map_values(
                |x: TakenDescriptor| taken_view(x),
            ),
            updated == latest_update(escrow_scan(rows@.take(i as int))->Ok_0),
        decreases rows.len() - i,
    {
        let ghost pre = rows@.take(i as int);
        let ghost acc = escrow_scan(pre)->Ok_0;
        proof {
            assert(rows@.take(i + 1).drop_last() =~= pre);
            assert(rows@.take(i + 1).last() == rows@[i as int]);
        }
        let row = &rows[i];
        match decide_row(row) {
            RowDecision::Skip => {},
            RowDecision::Fail(m) => {
                proof {
                    lemma_scan_prefix_err(rows@, i + 1);
                }
                return Err(export_failed(m, row.provider_id.as_str()));
            },
            RowDecision::Take(d) => {
                let ghost tk: TakenDescriptor = (d.provider@, d.provider_ref@, d.key_id@, d.wrapped_at_ms, row.updated_at_ms);
                add_provider(&mut providers, d.provider.as_str());
                let u = row.updated_at_ms;
                updated = match updated {
                    None => Some(u),
                    Some(m) => Some(if m >= u { m } else { u }),
                };
                let ghost dold = descriptors@;
                descriptors.push(d);
                proof {
                    let nt = acc.push(tk);
                    assert(escrow_scan(rows@.take(i + 1)) == Ok::<Seq<TakenDescriptor>, Seq<char>>(nt));
                    assert(nt.drop_last() =~= acc);
                    assert(nt.map_values(|x: TakenDescriptor| taken_provider(x)) =~= acc.map_values(
                        |x: TakenDescriptor| taken_provider(x),
                    ).push(tk.0));
                    acc.map_values(|x: TakenDescriptor| taken_provider(x)).lemma_push_to_set_commute(tk.0);
                    assert(descriptors@ == dold.push(descriptors@.last()));
                    assert(descriptor_view(descriptors@.last()) == taken_view(tk));
                    assert(descriptor_views(descriptors@) =~= descriptor_views(dold).push(descriptor_view(descriptors@.last())));
                    assert(nt.map_values(|x: TakenDescriptor| taken_view(x)) =~= acc.map_values(|x: TakenDescriptor| taken_view(x)).push(taken_view(tk)));
                    assert(descriptor_views(descriptors@) =~= nt.map_values(|x: TakenDescriptor| taken_view(x)));
                }
            },
        }
        i = i + 1;
    }
    proof {
        assert(rows@.take(rows@.len() as int) =~= rows@);
    }
    normalize_escrow_descriptors(&mut descriptors);
    Ok(EscrowExportSummary { providers, updated_at_ms: updated, descriptors })
}

/// The JSON of a descriptor: its fields in key order.
pub open spec fn descriptor_atoms(d: DescriptorView) -> Seq<(Seq<char>, JAtom)> {
    seq![
        ("key_id"@, JAtom::Str(d.3)),
        ("provider"@, JAtom::Str(d.1)),
        ("provider_ref"@, JAtom::Str(d.2)),
        ("wrapped_at_ms"@, JAtom::Int(d.4 as int)),
    ]
}

/// The JSON object of a descriptor.
pub fn descriptor_json(d: &RecoveryEscrowDescriptorV2) -> (v: JsonValue)
    ensures
        v is Object,
        flat_obj(v) == Some(descriptor_atoms(descriptor_view(*d))),
{
    let es = vec![
        sfield("key_id", d.key_id.as_str()),
        sfield("provider", d.provider.as_str()),
        sfield("provider_ref", d.provider_ref.as_str()),
        ifield("wrapped_at_ms", d.wrapped_at_ms),
    ];
    proof {
        lemma_flat_obj(es, descriptor_atoms(descriptor_view(*d)));
    }
    JsonValue::Object(es)
}

/// The provider an export names: `none` without descriptors, the single
/// provider, or `multi`.
pub open spec fn primary_provider(providers: Seq<Seq<char>>, descriptor_count: int) -> Seq<char> {
    if descriptor_count == 0 {
        "none"@
    } else if providers.len() == 1 {
        providers[0]
    } else {
        "multi"@
    }
}

pub open spec fn opt_int_atom(u: Option<i64>) -> JAtom {
    match u {
        Some(n) => JAtom::Int(n as int),
        None => JAtom::Null,
    }
}

/// The escrow block of a manifest, for the given providers, descriptors and
/// update time, its keys in order.
pub open spec fn block_matches(
    v: JsonValue,
    providers: Seq<Seq<char>>,
    descriptors: Seq<DescriptorView>,
    updated_at_ms: Option<i64>,
) -> bool {
    let es = obj_entries(v);
    &&& v is Object
    &&& es.len() == 6
    &&& es[0].0@ == "descriptor"@
    &&& (descriptors.len() == 0 ==> es[0].1 is Null)
    &&& (descriptors.len() > 0 ==> flat_obj(es[0].1) == Some(descriptor_atoms(descriptors[0])))
    &&& es[1].0@ == "enabled"@
    &&& atom_of(es[1].1) == Some(JAtom::Bool(descriptors.len() > 0))
    &&& es[2].0@ == "escrow_descriptors"@
    &&& es[2].1 is Array
    &&& arr_items(es[2].1).len() == descriptors.len()
    &&& (forall|i: int| 0 <= i < descriptors.len() ==> flat_obj(#[trigger] arr_items(es[2].1)[i]) == Some(
        descriptor_atoms(descriptors[i]),
    ))
    &&& es[3].0@ == "provider"@
    &&& atom_of(es[3].1) == Some(JAtom::Str(primary_provider(providers, descriptors.len() as int)))
    &&& es[4].0@ == "providers"@
    &&& es[4].1 is Array
    &&& arr_items(es[4].1).len() == providers.len()
    &&& (forall|i: int| 0 <= i < providers.len() ==> atom_of(#[trigger] arr_items(es[4].1)[i]) == Some(JAtom::Str(providers[i])))
    &&& es[5].0@ == "updated_at_ms"@
    &&& atom_of(es[5].1) == Some(opt_int_atom(updated_at_ms))
}

/// An array of strings.
pub fn string_array(v: &Vec<String>) -> (r: JsonValue)
    ensures
        r is Array,
        arr_items(r).len() == v@.len(),
        forall|i: int| 0 <= i < v@.len() ==> atom_of(#[trigger] arr_items(r)[i]) == Some(JAtom::Str(v@[i]@)),
{
    let mut items: Vec<JsonValue> = Vec::new();
    let mut i: usize = 0;
    while i < v.len()
        invariant
            i <= v@.len(),
            items@.len() == i,
            forall|k: int| 0 <= k < i ==> atom_of(#[trigger] items@[k]) == Some(JAtom::Str(v@[k]@)),
        decreases v.len() - i,
    {
        items.push(jstr(v[i].as_str()));
        i = i + 1;
    }
    JsonValue::Array(items)
}

/// The escrow block of a manifest.
pub fn escrow_block_json(s: &EscrowExportSummary) -> (v: JsonValue)
    ensures
        block_matches(v, string_views(s.providers@), descriptor_views(s.descriptors@), s.updated_at_ms),
{
    let n = s.descriptors.len();
    let descriptor = if n == 0 {
        JsonValue::Null
    } else {
        descriptor_json(&s.descriptors[0])
    };
    let mut items: Vec<JsonValue> = Vec::new();
    let mut i: usize = 0;
    while i < n
        invariant
            n == s.descriptors@.len(),
            i <= n,
            items@.len() == i,
            forall|k: int| 0 <= k < i ==> flat_obj(#[trigger] items@[k]) == Some(
                descriptor_atoms(descriptor_view(s.descriptors@[k])),
            ),
        decreases n - i,
    {
        items.push(descriptor_json(&s.descriptors[i]));
        i = i + 1;
    }
    let ghost pv = string_views(s.providers@);
    let primary = if n == 0 {
        jstr("none")
    } else if s.providers.len() == 1 {
        jstr(s.providers[0].as_str())
    } else {
        jstr("multi")
    };
    let updated = match s.updated_at_ms {
        Some(u) => crate::json::jint(u),
        None => JsonValue::Null,
    };
    let providers = string_array(&s.providers);
    let es = vec![
        (owned("descriptor"), descriptor),
        (owned("enabled"), JsonValue::Bool(n > 0)),
        (owned("escrow_descriptors"), JsonValue::Array(items)),
        (owned("provider"), primary),
        (owned("providers"), providers),
        (owned("updated_at_ms"), updated),
    ];
    proof {
        if n > 0 && s.providers@.len() == 1 {
            assert(pv[0] == s.providers@[0]@);
        }
        assert forall|k: int| 0 <= k < pv.len() implies atom_of(#[trigger] arr_items(es@[4].1)[k]) == Some(JAtom::Str(pv[k])) by {
            assert(pv[k] == s.providers@[k]@);
        }
    }
    JsonValue::Object(es)
}

/// The escrow block a bundle's manifest records, from the escrow rows of
/// the vault in provider order.
pub fn recovery_escrow_export_block(rows: &Vec<EscrowExportRow>) -> (r: AppResult<JsonValue>)
    ensures
        r is Err <==> escrow_scan(rows@) is Err,
        r is Err ==> r->Err_0.code@ == "KC_EXPORT_FAILED"@ && r->Err_0.message@ == escrow_scan(rows@)->Err_0,
        r is Ok ==> exists|p: Seq<Seq<char>>, d: Seq<DescriptorView>, u: Option<i64>|
            #[trigger] summary_matches(escrow_scan(rows@)->Ok_0, p, d, u) && block_matches(r->Ok_0, p, d, u),
{
    let s = recovery_escrow_export_summary(rows)?;
    let v = escrow_block_json(&s);
    proof {
        let p = string_views(s.providers@);
        let d = descriptor_views(s.descriptors@);
        assert(summary_matches(escrow_scan(rows@)->Ok_0, p, d, s.updated_at_ms));
    }
    Ok(v)
}

// ---------------------------------------------------------------------------
// Objects and vector files
// ---------------------------------------------------------------------------

/// How many bytes UTF-8 takes for a character.
pub open spec fn utf8_width(c: char) -> int {
    let one = c < '\u{80}';
    let two = c < '\u{800}';
    let three = c < '\u{10000}';
    if one {
        1
    } else if two {
        2
    } else if three {
        3
    } else {
        4
    }
}

/// The text after `blake3:` starts with characters that make up exactly two
/// bytes: the directory an object is filed under.
pub open spec fn hash_head_ok(rest: Seq<char>) -> bool {
    &&& rest.len() >= 1
    &&& (utf8_width(rest[0]) == 2 || (utf8_width(rest[0]) == 1 && rest.len() >= 2 && utf8_width(rest[1]) == 1))
}

/// Those first two bytes, as characters.
pub open spec fn hash_head(rest: Seq<char>) -> Seq<char> {
    if utf8_width(rest[0]) == 2 {
        rest.take(1)
    } else {
        rest.take(2)
    }
}

/// Where an object goes in a bundle: `store/objects/<head>/<hash>`.
pub open spec fn object_export_path(hash: Seq<char>) -> Seq<char> {
    "store/objects/"@ + hash_head(hash.skip(7)) + "/"@ + hash
}

/// The path of an object in a bundle; a hash not written `blake3:` is
/// refused.
pub fn export_object_rel_path(hash: &str) -> (r: AppResult<String>)
    requires
        crate::text::has_prefix(hash@, "blake3:"@) ==> hash_head_ok(hash@.skip(7)),
    ensures
        r is Ok <==> crate::text::has_prefix(hash@, "blake3:"@),
        r is Ok ==> r->Ok_0@ == object_export_path(hash@),
        r is Err ==> r->Err_0.code@ == "KC_EXPORT_FAILED"@ && r->Err_0.message@ == "invalid object hash"@,
{
    if !crate::text::starts_with(hash, "blake3:") {
        return Err(AppError::new(
            "KC_EXPORT_FAILED",
            "export",
            "invalid object hash",
            false,
            JsonValue::Object(vec![sfield("hash", hash)]),
        ));
    }
    proof {
        reveal_strlit("blake3:");
    }
    let cs = crate::text::chars_of(hash);
    let first = cs[7];
    let wide = first >= '\u{80}';
    let below = first < '\u{800}';
    let end: usize = if wide && below {
        8
    } else {
        9
    };
    let head = crate::text::string_from_range(&cs, 7, end);
    let mut out = owned("store/objects/");
    crate::text::push_str(&mut out, head.as_str());
    crate::text::push_str(&mut out, "/");
    crate::text::push_str(&mut out, hash);
    proof {
        assert(hash@.skip(7)[0] == cs@[7]);
        assert(head@ =~= hash_head(hash@.skip(7)));
    }
    Ok(out)
}

/// An object as a bundle records it.
#[derive(Debug)]
pub struct ExportObjectEntry {
    pub relative_path: String,
    pub hash: String,
    pub storage_hash: String,
    pub encrypted: bool,
    pub bytes: i64,
}

/// Path, hash, hash of the stored bytes, whether they are encrypted, size.
pub type ObjectEntryView = (Seq<char>, Seq<char>, Seq<char>, bool, i64);

pub open spec fn object_entry_view(e: ExportObjectEntry) -> ObjectEntryView {
    (e.relative_path@, e.hash@, e.storage_hash@, e.encrypted, e.bytes)
}

pub open spec fn object_entry_views(s: Seq<ExportObjectEntry>) -> Seq<ObjectEntryView> {
    s.map_values(|e: ExportObjectEntry| object_entry_view(e))
}

/// The entry of an object with hash `hash`, `bytes` bytes long, stored as
/// `stored`.
pub fn export_object_entry(hash: &str, bytes: i64, stored: &[u8]) -> (r: AppResult<ExportObjectEntry>)
    requires
        crate::text::has_prefix(hash@, "blake3:"@) ==> hash_head_ok(hash@.skip(7)),
    ensures
        r is Ok <==> crate::text::has_prefix(hash@, "blake3:"@),
        r is Err ==> r->Err_0.code@ == "KC_EXPORT_FAILED"@,
        r is Ok ==> object_entry_view(r->Ok_0) == (
            object_export_path(hash@),
            hash@,
            crate::hashing::blake3_prefixed(stored@),
            stored@.len() >= 4 && stored@.subrange(0, 4) == crate::object_store::magic(),
            bytes,
        ),
{
    let relative_path = export_object_rel_path(hash)?;
    Ok(ExportObjectEntry {
        relative_path,
        hash: owned(hash),
        storage_hash: crate::hashing::blake3_hex_prefixed(stored),
        encrypted: crate::object_store::is_encrypted_payload(stored),
        bytes,
    })
}

/// Object entries are ordered by hash, then by path.
pub open spec fn object_entry_lt(a: ObjectEntryView, b: ObjectEntryView) -> bool {
    chars_lt(a.1, b.1) || (a.1 == b.1 && chars_lt(a.0, b.0))
}

pub open spec fn object_entries_sorted(s: Seq<ObjectEntryView>) -> bool {
    forall|p: int, q: int| 0 <= p < q < s.len() ==> !object_entry_lt(#[trigger] s[q], #[trigger] s[p])
}

proof fn lemma_object_entry_lt(a: ObjectEntryView, b: ObjectEntryView, c: ObjectEntryView)
    ensures
        object_entry_lt(a, b) && object_entry_lt(b, c) ==> object_entry_lt(a, c),
        object_entry_lt(a, b) ==> !object_entry_lt(b, a),
        !object_entry_lt(a, a),
{
    lemma_chars_lt_irreflexive(a.0);
    lemma_chars_lt_irreflexive(a.1);
    if chars_lt(a.1, b.1) && chars_lt(b.1, c.1) {
        lemma_chars_lt_trans(a.1, b.1, c.1);
    }
    if chars_lt(a.0, b.0) && chars_lt(b.0, c.0) {
        lemma_chars_lt_trans(a.0, b.0, c.0);
    }
    if chars_lt(a.1, b.1) {
        lemma_chars_lt_asym(a.1, b.1);
    }
    if chars_lt(a.0, b.0) {
        lemma_chars_lt_asym(a.0, b.0);
    }
}

fn object_entry_less(a: &ExportObjectEntry, b: &ExportObjectEntry) -> (r: bool)
    ensures
        r == object_entry_lt(object_entry_view(*a), object_entry_view(*b)),
{
    let k = str_order(a.hash.as_str(), b.hash.as_str());
    if k != 0 {
        return k == -1;
    }
    str_order(a.relative_path.as_str(), b.relative_path.as_str()) == -1
}

/// Object entries tie when they have the same hash and path.
pub open spec fn object_entry_tie(a: ObjectEntryView, b: ObjectEntryView) -> bool {
    a.0 == b.0 && a.1 == b.1
}

/// `perm` takes each entry of `out` to where it came from in `inp`, and tied
/// entries keep their order.
pub open spec fn object_entries_stable(out: Seq<ObjectEntryView>, inp: Seq<ObjectEntryView>, perm: Seq<int>) -> bool {
    stable_perm(out, inp, perm, |a: ObjectEntryView, b: ObjectEntryView| object_entry_tie(a, b))
}

/// Orders object entries by hash, then path, keeping each one; tied
/// entries keep their order (a stable sort).
pub fn sort_object_entries(entries: &mut Vec<ExportObjectEntry>)
    ensures
        object_entries_sorted(object_entry_views(final(entries)@)),
        object_entry_views(final(entries)@).to_multiset() == object_entry_views(old(entries)@).to_multiset(),
        exists|perm: Seq<int>|
            object_entries_stable(object_entry_views(final(entries)@), object_entry_views(old(entries)@), perm),
{
    let ghost all = object_entry_views(entries@);
    let mut rest: Vec<ExportObjectEntry> = Vec::new();
    std::mem::swap(&mut rest, entries);
    let ghost mut i: int = 0;
    let ghost mut perm: Seq<int> = Seq::empty();
    proof {
        assert(all.take(0) =~= Seq::<ObjectEntryView>::empty());
        assert(object_entry_views(entries@) =~= Seq::<ObjectEntryView>::empty());
        broadcast use vstd::seq_lib::group_to_multiset_ensures;
    }
    while rest.len() > 0
        invariant
            0 <= i <= all.len(),
            object_entry_views(rest@) == all.skip(i),
            object_entries_sorted(object_entry_views(entries@)),
            object_entry_views(entries@).to_multiset() == all.take(i).to_multiset(),
            object_entries_stable(object_entry_views(entries@), all.take(i), perm),
        decreases rest.len(),
    {
        let ghost old_rest = rest@;
        let e = rest.remove(0);
        proof {
            assert(object_entry_views(old_rest) == all.skip(i));
            assert(object_entry_views(old_rest).len() == old_rest.len());
            assert(object_entry_views(old_rest)[0] == object_entry_view(e));
            assert(all[i] == all.skip(i)[0]);
            assert forall|k: int| 0 <= k < rest@.len() implies #[trigger] object_entry_views(rest@)[k] == all.skip(i + 1)[k] by {
                assert(rest@[k] == old_rest[k + 1]);
                assert(object_entry_views(old_rest)[k + 1] == all.skip(i)[k + 1]);
            }
            assert(object_entry_views(rest@) =~= all.skip(i + 1));
        }
        let ghost s = object_entry_views(entries@);
        let mut p: usize = 0;
        while p < entries.len() && !object_entry_less(&e, &entries[p])
            invariant
                s == object_entry_views(entries@),
                p <= entries@.len(),
                forall|q: int| 0 <= q < p ==> !object_entry_lt(object_entry_view(e), #[trigger] s[q]),
            decreases entries.len() - p,
        {
            p = p + 1;
        }
        proof {
            let x = object_entry_view(e);
            let t = s.insert(p as int, x);
            assert forall|a: int, b: int| 0 <= a < b < t.len() implies !object_entry_lt(#[trigger] t[b], #[trigger] t[a]) by {
                if b < p {
                    assert(t[a] == s[a] && t[b] == s[b]);
                } else if b == p {
                    assert(t[a] == s[a]);
                } else if a < p {
                    assert(t[a] == s[a] && t[b] == s[b - 1]);
                } else if a == p {
                    assert(t[b] == s[b - 1]);
                    lemma_object_entry_lt(s[b - 1], x, s[p as int]);
                    if b - 1 > p {
                        assert(!object_entry_lt(s[b - 1], s[p as int]));
                    }
                } else {
                    assert(t[a] == s[a - 1] && t[b] == s[b - 1]);
                }
            }
            vstd::seq_lib::to_multiset_insert(s, p as int, x);
            assert forall|a: ObjectEntryView| !#[trigger] object_entry_lt(a, a) by {
                lemma_object_entry_lt(a, a, a);
            }
            crate::sorting::lemma_insert_stable(
                s,
                all.take(i),
                perm,
                p as int,
                x,
                |a: ObjectEntryView, b: ObjectEntryView| object_entry_lt(a, b),
                |a: ObjectEntryView, b: ObjectEntryView| object_entry_tie(a, b),
            );
        }
        entries.insert(p, e);
        proof {
            assert(object_entry_views(entries@) =~= s.insert(p as int, all[i]));
            assert(all.take(i).push(all[i]) =~= all.take(i + 1));
            vstd::seq_lib::to_multiset_build(all.take(i), all[i]);
            perm = perm.insert(p as int, i);
            i = i + 1;
        }
    }
    proof {
        assert(all.take(i) =~= all);
    }
}

/// A vector index file as a bundle records it.
#[derive(Debug)]
pub struct ExportVectorEntry {
    pub relative_path: String,
    pub hash: String,
    pub bytes: u64,
}

/// Path, hash, size.
pub type VectorEntryView = (Seq<char>, Seq<char>, u64);

pub open spec fn vector_entry_view(e: ExportVectorEntry) -> VectorEntryView {
    (e.relative_path@, e.hash@, e.bytes)
}

pub open spec fn vector_entry_views(s: Seq<ExportVectorEntry>) -> Seq<VectorEntryView> {
    s.map_values(|e: ExportVectorEntry| vector_entry_view(e))
}

/// The entry of a vector index file at `relative_path` holding `bytes`.
pub fn export_vector_entry(relative_path: &str, bytes: &[u8]) -> (r: ExportVectorEntry)
    ensures
        vector_entry_view(r) == (relative_path@, crate::hashing::blake3_prefixed(bytes@), bytes@.len() as u64),
{
    ExportVectorEntry {
        relative_path: owned(relative_path),
        hash: crate::hashing::blake3_hex_prefixed(bytes),
        bytes: bytes.len() as u64,
    }
}

pub open spec fn vector_entries_sorted(s: Seq<VectorEntryView>) -> bool {
    forall|p: int, q: int| 0 <= p < q < s.len() ==> !chars_lt(#[trigger] s[q].0, #[trigger] s[p].0)
}

/// `perm` takes each entry of `out` to where it came from in `inp`, and
/// entries with the same path keep their order.
pub open spec fn vector_entries_stable(out: Seq<VectorEntryView>, inp: Seq<VectorEntryView>, perm: Seq<int>) -> bool {
    stable_perm(out, inp, perm, |a: VectorEntryView, b: VectorEntryView| a.0 == b.0)
}

/// Orders vector entries by path, keeping each one; entries with the same
/// path keep their order (a stable sort).
pub fn sort_vector_entries(entries: &mut Vec<ExportVectorEntry>)
    ensures
        vector_entries_sorted(vector_entry_views(final(entries)@)),
        vector_entry_views(final(entries)@).to_multiset() == vector_entry_views(old(entries)@).to_multiset(),
        exists|perm: Seq<int>|
            vector_entries_stable(vector_entry_views(final(entries)@), vector_entry_views(old(entries)@), perm),
{
    let ghost all = vector_entry_views(entries@);
    let mut rest: Vec<ExportVectorEntry> = Vec::new();
    std::mem::swap(&mut rest, entries);
    let ghost mut i: int = 0;
    let ghost mut perm: Seq<int> = Seq::empty();
    proof {
        assert(all.take(0) =~= Seq::<VectorEntryView>::empty());
        assert(vector_entry_views(entries@) =~= Seq::<VectorEntryView>::empty());
        broadcast use vstd::seq_lib::group_to_multiset_ensures;
    }
    while rest.len() > 0
        invariant
            0 <= i <= all.len(),
            vector_entry_views(rest@) == all.skip(i),
            vector_entries_sorted(vector_entry_views(entries@)),
            vector_entry_views(entries@).to_multiset() == all.take(i).to_multiset(),
            vector_entries_stable(vector_entry_views(entries@), all.take(i), perm),
        decreases rest.len(),
    {
        let ghost old_rest = rest@;
        let e = rest.remove(0);
        proof {
            assert(vector_entry_views(old_rest) == all.skip(i));
            assert(vector_entry_views(old_rest).len() == old_rest.len());
            assert(vector_entry_views(old_rest)[0] == vector_entry_view(e));
            assert(all[i] == all.skip(i)[0]);
            assert forall|k: int| 0 <= k < rest@.len() implies #[trigger] vector_entry_views(rest@)[k] == all.skip(i + 1)[k] by {
                assert(rest@[k] == old_rest[k + 1]);
                assert(vector_entry_views(old_rest)[k + 1] == all.skip(i)[k + 1]);
            }
            assert(vector_entry_views(rest@) =~= all.skip(i + 1));
        }
        let ghost s = vector_entry_views(entries@);
        let mut p: usize = 0;
        while p < entries.len() && str_order(e.relative_path.as_str(), entries[p].relative_path.as_str()) != -1
            invariant
                s == vector_entry_views(entries@),
                p <= entries@.len(),
                forall|q: int| 0 <= q < p ==> !chars_lt(e.relative_path@, #[trigger] s[q].0),
            decreases entries.len() - p,
        {
            proof {
                assert(s[p as int].0 == entries@[p as int].relative_path@);
            }
            p = p + 1;
        }
        proof {
            let x = vector_entry_view(e);
            if p < entries@.len() {
                assert(s[p as int].0 == entries@[p as int].relative_path@);
                assert(chars_lt(x.0, s[p as int].0));
            }
            let t = s.insert(p as int, x);
            assert forall|a: int, b: int| 0 <= a < b < t.len() implies !chars_lt(#[trigger] t[b].0, #[trigger] t[a].0) by {
                if b < p {
                    assert(t[a] == s[a] && t[b] == s[b]);
                } else if b == p {
                    assert(t[a] == s[a]);
                } else if a < p {
                    assert(t[a] == s[a] && t[b] == s[b - 1]);
                } else if a == p {
                    assert(t[b] == s[b - 1]);
                    if chars_lt(s[b - 1].0, x.0) {
                        lemma_chars_lt_trans(s[b - 1].0, x.0, s[p as int].0);
                        if b - 1 == p {
                            lemma_chars_lt_irreflexive(s[p as int].0);
                        } else {
                            assert(!chars_lt(s[b - 1].0, s[p as int].0));
                        }
                    }
                } else {
                    assert(t[a] == s[a - 1] && t[b] == s[b - 1]);
                }
            }
            vstd::seq_lib::to_multiset_insert(s, p as int, x);
            assert forall|a: VectorEntryView| !#[trigger] chars_lt(a.0, a.0) by {
                lemma_chars_lt_irreflexive(a.0);
            }
            crate::sorting::lemma_insert_stable(
                s,
                all.take(i),
                perm,
                p as int,
                x,
                |a: VectorEntryView, b: VectorEntryView| chars_lt(a.0, b.0),
                |a: VectorEntryView, b: VectorEntryView| a.0 == b.0,
            );
        }
        entries.insert(p, e);
        proof {
            assert(vector_entry_views(entries@) =~= s.insert(p as int, all[i]));
            assert(all.take(i).push(all[i]) =~= all.take(i + 1));
            vstd::seq_lib::to_multiset_build(all.take(i), all[i]);
            perm = perm.insert(p as int, i);
            i = i + 1;
        }
    }
    proof {
        assert(all.take(i) =~= all);
    }
}

// ---------------------------------------------------------------------------
// Manifest
// ---------------------------------------------------------------------------

/// The JSON of an object entry, its keys in order.
pub open spec fn object_entry_atoms(v: ObjectEntryView) -> Seq<(Seq<char>, JAtom)> {
    seq![
        ("bytes"@, JAtom::Int(v.4 as int)),
        ("encrypted"@, JAtom::Bool(v.3)),
        ("hash"@, JAtom::Str(v.1)),
        ("relative_path"@, JAtom::Str(v.0)),
        ("storage_hash"@, JAtom::Str(v.2)),
    ]
}

/// The JSON of a vector entry, its keys in order.
pub open spec fn vector_entry_atoms(v: VectorEntryView) -> Seq<(Seq<char>, JAtom)> {
    seq![("bytes"@, JAtom::Int(v.2 as int)), ("hash"@, JAtom::Str(v.1)), ("relative_path"@, JAtom::Str(v.0))]
}

fn nfield(k: &str, n: u64) -> (e: (String, JsonValue))
    ensures
        e.0@ == k@,
        atom_of(e.1) == Some(JAtom::Int(n as int)),
{
    (owned(k), crate::json::juint(n))
}

fn object_entry_json(e: &ExportObjectEntry) -> (v: JsonValue)
    ensures
        flat_obj(v) == Some(object_entry_atoms(object_entry_view(*e))),
{
    let es = vec![
        ifield("bytes", e.bytes),
        crate::json::bfield("encrypted", e.encrypted),
        sfield("hash", e.hash.as_str()),
        sfield("relative_path", e.relative_path.as_str()),
        sfield("storage_hash", e.storage_hash.as_str()),
    ];
    proof {
        lemma_flat_obj(es, object_entry_atoms(object_entry_view(*e)));
    }
    JsonValue::Object(es)
}

fn vector_entry_json(e: &ExportVectorEntry) -> (v: JsonValue)
    ensures
        flat_obj(v) == Some(vector_entry_atoms(vector_entry_view(*e))),
{
    let es = vec![
        nfield("bytes", e.bytes),
        sfield("hash", e.hash.as_str()),
        sfield("relative_path", e.relative_path.as_str()),
    ];
    proof {
        lemma_flat_obj(es, vector_entry_atoms(vector_entry_view(*e)));
    }
    JsonValue::Object(es)
}

fn object_entries_json(entries: &Vec<ExportObjectEntry>) -> (v: JsonValue)
    ensures
        v is Array,
        arr_items(v).len() == entries@.len(),
        forall|i: int| 0 <= i < entries@.len() ==> flat_obj(#[trigger] arr_items(v)[i]) == Some(
            object_entry_atoms(object_entry_view(entries@[i])),
        ),
{
    let mut items: Vec<JsonValue> = Vec::new();
    let mut i: usize = 0;
    while i < entries.len()
        invariant
            i <= entries@.len(),
            items@.len() == i,
            forall|k: int| 0 <= k < i ==> flat_obj(#[trigger] items@[k]) == Some(
                object_entry_atoms(object_entry_view(entries@[k])),
            ),
        decreases entries.len() - i,
    {
        items.push(object_entry_json(&entries[i]));
        i = i + 1;
    }
    JsonValue::Array(items)
}

fn vector_entries_json(entries: &Vec<ExportVectorEntry>) -> (v: JsonValue)
    ensures
        v is Array,
        arr_items(v).len() == entries@.len(),
        forall|i: int| 0 <= i < entries@.len() ==> flat_obj(#[trigger] arr_items(v)[i]) == Some(
            vector_entry_atoms(vector_entry_view(entries@[i])),
        ),
{
    let mut items: Vec<JsonValue> = Vec::new();
    let mut i: usize = 0;
    while i < entries.len()
        invariant
            i <= entries@.len(),
            items@.len() == i,
            forall|k: int| 0 <= k < i ==> flat_obj(#[trigger] items@[k]) == Some(
                vector_entry_atoms(vector_entry_view(entries@[k])),
            ),
        decreases entries.len() - i,
    {
        items.push(vector_entry_json(&entries[i]));
        i = i + 1;
    }
    JsonValue::Array(items)
}

/// The key derivation settings of the object encryption, in key order.
pub open spec fn kdf_atoms(vault: VaultJsonV2) -> Seq<(Seq<char>, JAtom)> {
    seq![
        ("algorithm"@, JAtom::Str(vault.encryption.kdf.algorithm@)),
        ("iterations"@, JAtom::Int(vault.encryption.kdf.iterations as int)),
        ("memory_kib"@, JAtom::Int(vault.encryption.kdf.memory_kib as int)),
        ("parallelism"@, JAtom::Int(vault.encryption.kdf.parallelism as int)),
        ("salt_id"@, JAtom::Str(vault.encryption.kdf.salt_id@)),
    ]
}

/// The manifest of a bundle: its fourteen keys in order, each with what
/// the vault, the copied database and the gathered entries give it.
pub open spec fn manifest_matches(
    m: JsonValue,
    vault: VaultJsonV2,
    db_encryption: VaultDbEncryptionConfig,
    recovery_escrow: JsonValue,
    chunking_config_hash: Seq<char>,
    opts: ExportOptions,
    db_hash: Seq<char>,
    objects: Seq<ObjectEntryView>,
    vectors: Seq<VectorEntryView>,
) -> bool {
    let es = obj_entries(m);
    let enc = obj_entries(es[5].1);
    let dbe = obj_entries(es[3].1);
    let pkg = obj_entries(es[9].1);
    let idx = obj_entries(es[6].1);
    &&& m is Object
    &&& es.len() == 14
    &&& es[0].0@ == "chunking_config_hash"@
    &&& atom_of(es[0].1) == Some(JAtom::Str(chunking_config_hash))
    &&& es[1].0@ == "chunking_config_id"@
    &&& atom_of(es[1].1) == Some(JAtom::Str(vault.defaults.chunking_config_id@))
    &&& es[2].0@ == "db"@
    &&& flat_obj(es[2].1) == Some(
        seq![("hash"@, JAtom::Str(db_hash)), ("relative_path"@, JAtom::Str(vault.db.relative_path@))],
    )
    &&& es[3].0@ == "db_encryption"@
    &&& es[3].1 is Object
    &&& dbe.len() == 4
    &&& dbe[0].0@ == "enabled"@
    &&& atom_of(dbe[0].1) == Some(JAtom::Bool(db_encryption.enabled))
    &&& dbe[1].0@ == "kdf"@
    &&& flat_obj(dbe[1].1) == Some(seq![("algorithm"@, JAtom::Str(db_encryption.kdf_algorithm@))])
    &&& dbe[2].0@ == "key_reference"@
    &&& atom_of(dbe[2].1) == Some(crate::json::opt_atom(db_encryption.key_reference))
    &&& dbe[3].0@ == "mode"@
    &&& atom_of(dbe[3].1) == Some(JAtom::Str(db_encryption.mode@))
    &&& es[4].0@ == "embedding"@
    &&& flat_obj(es[4].1) == Some(seq![("model_id"@, JAtom::Str(vault.defaults.embedding_model_id@))])
    &&& es[5].0@ == "encryption"@
    &&& es[5].1 is Object
    &&& enc.len() == 4
    &&& enc[0].0@ == "enabled"@
    &&& atom_of(enc[0].1) == Some(JAtom::Bool(vault.encryption.enabled))
    &&& enc[1].0@ == "kdf"@
    &&& flat_obj(enc[1].1) == Some(kdf_atoms(vault))
    &&& enc[2].0@ == "key_reference"@
    &&& atom_of(enc[2].1) == Some(crate::json::opt_atom(vault.encryption.key_reference))
    &&& enc[3].0@ == "mode"@
    &&& atom_of(enc[3].1) == Some(JAtom::Str(vault.encryption.mode@))
    &&& es[6].0@ == "indexes"@
    &&& es[6].1 is Object
    &&& idx.len() == 1
    &&& idx[0].0@ == "vectors"@
    &&& idx[0].1 is Array
    &&& arr_items(idx[0].1).len() == vectors.len()
    &&& (forall|i: int| 0 <= i < vectors.len() ==> flat_obj(#[trigger] arr_items(idx[0].1)[i]) == Some(
        vector_entry_atoms(vectors[i]),
    ))
    &&& es[7].0@ == "manifest_version"@
    &&& atom_of(es[7].1) == Some(JAtom::Int(1))
    &&& es[8].0@ == "objects"@
    &&& es[8].1 is Array
    &&& arr_items(es[8].1).len() == objects.len()
    &&& (forall|i: int| 0 <= i < objects.len() ==> flat_obj(#[trigger] arr_items(es[8].1)[i]) == Some(
        object_entry_atoms(objects[i]),
    ))
    &&& es[9].0@ == "packaging"@
    &&& es[9].1 is Object
    &&& pkg.len() == 2
    &&& pkg[0].0@ == "format"@
    &&& atom_of(pkg[0].1) == Some(JAtom::Str(if opts.as_zip { "zip"@ } else { "folder"@ }))
    &&& pkg[1].0@ == "zip_policy"@
    &&& flat_obj(pkg[1].1) == Some(
        seq![
            ("compression"@, JAtom::Str("stored"@)),
            ("file_mode"@, JAtom::Str("0644"@)),
            ("mtime"@, JAtom::Str("1980-01-01T00:00:00Z"@)),
        ],
    )
    &&& es[10].0@ == "recovery_escrow"@
    &&& es[10].1 == recovery_escrow
    &&& es[11].0@ == "schema_versions"@
    &&& flat_obj(es[11].1) == Some(
        seq![
            ("app_error"@, JAtom::Int(1)),
            ("locator"@, JAtom::Int(1)),
            ("rpc"@, JAtom::Int(1)),
            ("vault"@, JAtom::Int(3)),
        ],
    )
    &&& es[12].0@ == "toolchain_registry"@
    &&& flat_obj(es[12].1) == Some(
        seq![
            ("pdfium"@, JAtom::Str(vault.toolchain.pdfium.identity@)),
            ("tesseract"@, JAtom::Str(vault.toolchain.tesseract.identity@)),
        ],
    )
    &&& es[13].0@ == "vault_id"@
    &&& atom_of(es[13].1) == Some(JAtom::Str(vault.vault_id@))
}

/// The manifest of an export bundle, from the vault's settings, the hash of
/// the copied database, the escrow block and the object and vector entries
/// as given.
pub fn export_manifest(
    vault: &VaultJsonV2,
    db_encryption: &VaultDbEncryptionConfig,
    recovery_escrow: JsonValue,
    chunking_config_hash: &str,
    opts: &ExportOptions,
    db_hash: &str,
    objects: &Vec<ExportObjectEntry>,
    vectors: &Vec<ExportVectorEntry>,
) -> (m: JsonValue)
    ensures
        manifest_matches(
            m,
            *vault,
            *db_encryption,
            recovery_escrow,
            chunking_config_hash@,
            *opts,
            db_hash@,
            object_entry_views(objects@),
            vector_entry_views(vectors@),
        ),
{
    let db_es = vec![sfield("hash", db_hash), sfield("relative_path", vault.db.relative_path.as_str())];
    proof {
        lemma_flat_obj(db_es, seq![("hash"@, JAtom::Str(db_hash@)), ("relative_path"@, JAtom::Str(vault.db.relative_path@))]);
    }
    let dbe_kdf = vec![sfield("algorithm", db_encryption.kdf_algorithm.as_str())];
    proof {
        lemma_flat_obj(dbe_kdf, seq![("algorithm"@, JAtom::Str(db_encryption.kdf_algorithm@))]);
    }
    let dbe_es = vec![
        crate::json::bfield("enabled", db_encryption.enabled),
        (owned("kdf"), JsonValue::Object(dbe_kdf)),
        crate::json::ofield("key_reference", &db_encryption.key_reference),
        sfield("mode", db_encryption.mode.as_str()),
    ];
    let emb = vec![sfield("model_id", vault.defaults.embedding_model_id.as_str())];
    proof {
        lemma_flat_obj(emb, seq![("model_id"@, JAtom::Str(vault.defaults.embedding_model_id@))]);
    }
    let kdf = &vault.encryption.kdf;
    let kdf_es = vec![
        sfield("algorithm", kdf.algorithm.as_str()),
        nfield("iterations", kdf.iterations as u64),
        nfield("memory_kib", kdf.memory_kib as u64),
        nfield("parallelism", kdf.parallelism as u64),
        sfield("salt_id", kdf.salt_id.as_str()),
    ];
    proof {
        lemma_flat_obj(kdf_es, kdf_atoms(*vault));
    }
    let enc_es = vec![
        crate::json::bfield("enabled", vault.encryption.enabled),
        (owned("kdf"), JsonValue::Object(kdf_es)),
        crate::json::ofield("key_reference", &vault.encryption.key_reference),
        sfield("mode", vault.encryption.mode.as_str()),
    ];
    let idx_es = vec![(owned("vectors"), vector_entries_json(vectors))];
    let format = if opts.as_zip {
        "zip"
    } else {
        "folder"
    };
    let zip_es = vec![sfield("compression", "stored"), sfield("file_mode", "0644"), sfield("mtime", "1980-01-01T00:00:00Z")];
    proof {
        lemma_flat_obj(
            zip_es,
            seq![
                ("compression"@, JAtom::Str("stored"@)),
                ("file_mode"@, JAtom::Str("0644"@)),
                ("mtime"@, JAtom::Str("1980-01-01T00:00:00Z"@)),
            ],
        );
    }
    let pkg_es = vec![sfield("format", format), (owned("zip_policy"), JsonValue::Object(zip_es))];
    let sv = vec![nfield("app_error", 1), nfield("locator", 1), nfield("rpc", 1), nfield("vault", 3)];
    proof {
        lemma_flat_obj(
            sv,
            seq![
                ("app_error"@, JAtom::Int(1)),
                ("locator"@, JAtom::Int(1)),
                ("rpc"@, JAtom::Int(1)),
                ("vault"@, JAtom::Int(3)),
            ],
        );
    }
    let tools = vec![
        sfield("pdfium", vault.toolchain.pdfium.identity.as_str()),
        sfield("tesseract", vault.toolchain.tesseract.identity.as_str()),
    ];
    proof {
        lemma_flat_obj(
            tools,
            seq![
                ("pdfium"@, JAtom::Str(vault.toolchain.pdfium.identity@)),
                ("tesseract"@, JAtom::Str(vault.toolchain.tesseract.identity@)),
            ],
        );
    }
    let es = vec![
        sfield("chunking_config_hash", chunking_config_hash),
        sfield("chunking_config_id", vault.defaults.chunking_config_id.as_str()),
        (owned("db"), JsonValue::Object(db_es)),
        (owned("db_encryption"), JsonValue::Object(dbe_es)),
        (owned("embedding"), JsonValue::Object(emb)),
        (owned("encryption"), JsonValue::Object(enc_es)),
        (owned("indexes"), JsonValue::Object(idx_es)),
        nfield("manifest_version", 1),
        (owned("objects"), object_entries_json(objects)),
        (owned("packaging"), JsonValue::Object(pkg_es)),
        (owned("recovery_escrow"), recovery_escrow),
        (owned("schema_versions"), JsonValue::Object(sv)),
        (owned("toolchain_registry"), JsonValue::Object(tools)),
        sfield("vault_id", vault.vault_id.as_str()),
    ];
    JsonValue::Object(es)
}

/// The name of a bundle made at `now_ms`: `export_<now_ms>`.
pub fn export_bundle_name(now_ms: i64) -> (r: String)
    ensures
        r@ == "export_"@ + crate::text::int_decimal(now_ms as int),
{
    let mut s = owned("export_");
    let n = crate::text::i64_decimal(now_ms);
    crate::text::push_str(&mut s, n.as_str());
    s
}

/// The name of the zip of a bundle made at `now_ms`: `export_<now_ms>.zip`.
pub fn export_zip_name(now_ms: i64) -> (r: String)
    ensures
        r@ == "export_"@ + crate::text::int_decimal(now_ms as int) + ".zip"@,
{
    let mut s = export_bundle_name(now_ms);
    crate::text::push_str(&mut s, ".zip");
    s
}

/// `path` lies below the directory `root`.
pub open spec fn below(root: Seq<char>, path: Seq<char>) -> bool {
    let base = if root.len() > 0 && root.last() == '/' { root } else { root + "/"@ };
    root.len() > 0 && crate::text::has_prefix(path, base)
}

/// The path of a file of the vault as a bundle records it, relative to the
/// vault, with `/` as separator; a path outside the vault is refused.
pub fn export_rel_path(base: &str, path: &str) -> (r: AppResult<String>)
    ensures
        r is Ok <==> path@ == base@ || below(base@, path@),
        r is Ok ==> r->Ok_0@ == (if path@ == base@ {
            Seq::<char>::empty()
        } else {
            crate::recovery_escrow::relative_to(base@, path@)
        }),
        r is Err ==> r->Err_0.code@ == "KC_EXPORT_FAILED"@
            && r->Err_0.message@ == "failed deriving relative path for export entry"@,
{
    if str_eq(base, path) {
        return Ok(String::new());
    }
    let rs = crate::text::chars_of(base);
    let mut b = owned(base);
    if rs.len() == 0 || rs[rs.len() - 1] != '/' {
        crate::text::push_str(&mut b, "/");
    }
    if rs.len() == 0 || !crate::text::starts_with(path, b.as_str()) {
        return Err(AppError::new(
            "KC_EXPORT_FAILED",
            "export",
            "failed deriving relative path for export entry",
            false,
            JsonValue::Object(vec![sfield("base", base), sfield("path", path)]),
        ));
    }
    Ok(crate::recovery_escrow::relative_ref_of(base, path))
}

} // verus!
