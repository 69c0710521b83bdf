//! Recovery escrow: where the key material of a vault is kept for recovery,
//! the order providers are tried in, and the checks on what comes back.
use vstd::prelude::*;
use crate::app_error::{AppError, AppResult};
use crate::hashing::{blake3_hex_prefixed, blake3_prefixed};
use crate::json::{JsonValue, chars_lt, str_order, quote, push_quoted, sfield, lemma_chars_lt_trans, lemma_chars_lt_total,
    lemma_chars_lt_irreflexive, lemma_chars_lt_asym};
use crate::sorting::stable_perm;
use crate::text::{blank, is_blank, owned, push_str, push_char, str_eq, chars_of, int_decimal, i64_decimal, bytes_of,
    string_from_chars, has_prefix, starts_with};

verus! {

/// A recorded escrow copy: where it is and under which key it was wrapped.
#[derive(Debug)]
pub struct RecoveryEscrowDescriptorV2 {
    pub provider: String,
    pub provider_ref: String,
    pub key_id: String,
    pub wrapped_at_ms: i64,
}

/// The configuration of one escrow provider.
#[derive(Debug)]
pub struct RecoveryEscrowProviderConfigV3 {
    pub provider_id: String,
    pub config_ref: String,
    pub enabled: bool,
    pub updated_at_ms: i64,
}

/// Whether a provider is configured and reachable.
#[derive(Debug)]
pub struct RecoveryEscrowProviderStatus {
    pub provider: String,
    pub configured: bool,
    pub available: bool,
    pub details_json: String,
}

/// What to escrow: the key blob of a vault and the hash of its payload.
#[derive(Debug)]
pub struct RecoveryEscrowWriteRequest<'a> {
    pub vault_id: &'a str,
    pub payload_hash: &'a str,
    pub key_blob: &'a [u8],
    pub now_ms: i64,
}

/// What to restore: a descriptor and the payload hash it must match.
#[derive(Debug)]
pub struct RecoveryEscrowReadRequest<'a> {
    pub descriptor: &'a RecoveryEscrowDescriptorV2,
    pub expected_payload_hash: &'a str,
}

/// The providers in the order they are preferred.
pub open spec fn provider_order() -> Seq<Seq<char>> {
    seq!["aws"@, "gcp"@, "azure"@, "local"@]
}

/// The rank of a provider: its place in the order, or 9 for others.
pub open spec fn priority_of(id: Seq<char>) -> int {
    if id == "aws"@ {
        0
    } else if id == "gcp"@ {
        1
    } else if id == "azure"@ {
        2
    } else if id == "local"@ {
        3
    } else {
        9
    }
}

/// The rank of a provider.
pub fn provider_priority(provider_id: &str) -> (r: i64)
    ensures
        r == priority_of(provider_id@),
{
    if str_eq(provider_id, "aws") {
        0
    } else if str_eq(provider_id, "gcp") {
        1
    } else if str_eq(provider_id, "azure") {
        2
    } else if str_eq(provider_id, "local") {
        3
    } else {
        9
    }
}

/// The providers escrow supports, in the order they are preferred.
pub fn supported_provider_ids() -> (r: [&'static str; 4])
    ensures
        r@.len() == 4,
        forall|i: int| 0 <= i < 4 ==> #[trigger] r@[i]@ == provider_order()[i],
{
    let r: [&'static str; 4] = ["aws", "gcp", "azure", "local"];
    r
}

/// Each supported provider ranks by its place in the preference order.
pub proof fn law_priority_follows_provider_order()
    ensures
        forall|i: int| 0 <= i < 4 ==> priority_of(#[trigger] provider_order()[i]) == i,
{
    reveal_strlit("aws");
    reveal_strlit("gcp");
    reveal_strlit("azure");
    reveal_strlit("local");
    assert("gcp"@[0] == 'g' && "aws"@[0] == 'a' && "azure"@[1] == 'z' && "local"@[0] == 'l');
    assert("gcp"@ != "aws"@);
    assert("azure"@ != "aws"@ && "azure"@ != "gcp"@);
    assert("local"@ != "aws"@ && "local"@ != "gcp"@ && "local"@ != "azure"@);
    assert(priority_of(provider_order()[0]) == 0);
    assert(priority_of(provider_order()[1]) == 1);
    assert(priority_of(provider_order()[2]) == 2);
    assert(priority_of(provider_order()[3]) == 3);
}

// ---------------------------------------------------------------------------
// Ordering configurations and descriptors
// ---------------------------------------------------------------------------

/// What a configuration is: rank, provider, reference, enabled, time.
pub type ConfigView = (int, Seq<char>, Seq<char>, bool, i64);

pub open spec fn config_view(c: RecoveryEscrowProviderConfigV3) -> ConfigView {
    (priority_of(c.provider_id@), c.provider_id@, c.config_ref@, c.enabled, c.updated_at_ms)
}

pub open spec fn config_views(s: Seq<RecoveryEscrowProviderConfigV3>) -> Seq<ConfigView> {
    s.map_values(|c: RecoveryEscrowProviderConfigV3| config_view(c))
}

/// Configurations are ordered by rank, provider, then reference.
pub open spec fn config_lt(a: ConfigView, b: ConfigView) -> bool {
    ||| a.0 < b.0
    ||| a.0 == b.0 && chars_lt(a.1, b.1)
    ||| a.0 == b.0 && a.1 == b.1 && chars_lt(a.2, b.2)
}

pub open spec fn configs_sorted(s: Seq<ConfigView>) -> bool {
    forall|p: int, q: int| 0 <= p < q < s.len() ==> !config_lt(#[trigger] s[q], #[trigger] s[p])
}

proof fn lemma_config_lt(a: ConfigView, b: ConfigView, c: ConfigView)
    ensures
        config_lt(a, b) && config_lt(b, c) ==> config_lt(a, c),
        config_lt(a, b) ==> !config_lt(b, a),
        !config_lt(a, b) ==> config_lt(b, a) || (a.0 == b.0 && a.1 == b.1 && a.2 == b.2),
{
    lemma_chars_lt_irreflexive(a.1);
    lemma_chars_lt_irreflexive(a.2);
    lemma_chars_lt_total(a.1, b.1);
    lemma_chars_lt_total(a.2, b.2);
    if chars_lt(a.1, b.1) && chars_lt(b.1, c.1) {
        lemma_chars_lt_trans(a.1, b.1, c.1);
    }
    if chars_lt(a.2, b.2) && chars_lt(b.2, c.2) {
        lemma_chars_lt_trans(a.2, b.2, c.2);
    }
    if chars_lt(a.1, b.1) {
        lemma_chars_lt_asym(a.1, b.1);
    }
    if chars_lt(a.2, b.2) {
        lemma_chars_lt_asym(a.2, b.2);
    }
}

fn config_less(a: &RecoveryEscrowProviderConfigV3, b: &RecoveryEscrowProviderConfigV3) -> (r: bool)
    ensures
        r == config_lt(config_view(*a), config_view(*b)),
{
    let pa = provider_priority(a.provider_id.as_str());
    let pb = provider_priority(b.provider_id.as_str());
    if pa != pb {
        return pa < pb;
    }
    let k = str_order(a.provider_id.as_str(), b.provider_id.as_str());
    if k != 0 {
        return k < 0;
    }
    str_order(a.config_ref.as_str(), b.config_ref.as_str()) < 0
}

proof fn lemma_configs_insert_sorted(s: Seq<ConfigView>, p: int, x: ConfigView)
    requires
        configs_sorted(s),
        0 <= p <= s.len(),
        forall|q: int| 0 <= q < p ==> !config_lt(x, #[trigger] s[q]),
        p < s.len() ==> config_lt(x, s[p]),
    ensures
        configs_sorted(s.insert(p, x)),
{
    let t = s.insert(p, x);
    assert forall|a: int, b: int| 0 <= a < b < t.len() implies !config_lt(#[trigger] t[b], #[trigger] t[a]) by {
        if b < p {
            assert(t[a] == s[a] && t[b] == s[b]);
        } else if b == p {
            assert(t[a] == s[a]);
        } else if a < p {
            assert(t[a] == s[a] && t[b] == s[b - 1]);
        } else if a == p {
            assert(t[b] == s[b - 1]);
            lemma_config_lt(x, s[p], s[b - 1]);
            lemma_config_lt(s[p], s[b - 1], s[p]);
            lemma_config_lt(x, s[b - 1], x);
            lemma_config_lt(s[b - 1], s[p], x);
            if b - 1 > p {
                assert(!config_lt(s[b - 1], s[p]));
            }
        } else {
            assert(t[a] == s[a - 1] && t[b] == s[b - 1]);
        }
    }
}

/// Two configurations tie when they agree on rank, provider and reference.
pub open spec fn config_tie(a: ConfigView, b: ConfigView) -> bool {
    a.0 == b.0 && a.1 == b.1 && a.2 == b.2
}

/// `perm` takes each position of `out` to the position in `inp` its
/// configuration came from, one to one, and tied configurations keep the
/// order they had in `inp`.
pub open spec fn config_stable_perm(out: Seq<ConfigView>, inp: Seq<ConfigView>, perm: Seq<int>) -> bool {
    stable_perm(out, inp, perm, |a: ConfigView, b: ConfigView| config_tie(a, b))
}

/// Orders provider configurations by rank, provider, then reference,
/// keeping each one; tied configurations keep their order (a stable sort).
pub fn normalize_provider_configs(configs: &mut Vec<RecoveryEscrowProviderConfigV3>)
    ensures
        configs_sorted(config_views(final(configs)@)),
        config_views(final(configs)@).to_multiset() == config_views(old(configs)@).to_multiset(),
        exists|perm: Seq<int>| config_stable_perm(config_views(final(configs)@), config_views(old(configs)@), perm),
{
    let ghost all = config_views(configs@);
    let mut rest: Vec<RecoveryEscrowProviderConfigV3> = Vec::new();
    std::mem::swap(&mut rest, configs);
    let ghost mut i: int = 0;
    let ghost mut perm: Seq<int> = Seq::empty();
    proof {
        assert(all.take(0) =~= Seq::<ConfigView>::empty());
        assert(config_views(configs@) =~= Seq::<ConfigView>::empty());
        broadcast use vstd::seq_lib::group_to_multiset_ensures;
    }
    while rest.len() > 0
        invariant
            0 <= i <= all.len(),
            config_views(rest@) == all.skip(i),
            configs_sorted(config_views(configs@)),
            config_views(configs@).to_multiset() == all.take(i).to_multiset(),
            config_stable_perm(config_views(configs@), all.take(i), perm),
        decreases rest.len(),
    {
        let ghost old_rest = rest@;
        let c = rest.remove(0);
        proof {
            assert(config_views(old_rest) == all.skip(i));
            assert(config_views(old_rest).len() == old_rest.len());
            assert(config_views(old_rest)[0] == config_view(c));
            assert(all[i] == all.skip(i)[0]);
            assert forall|k: int| 0 <= k < rest@.len() implies #[trigger] config_views(rest@)[k] == all.skip(i + 1)[k] by {
                assert(rest@[k] == old_rest[k + 1]);
                assert(config_views(old_rest)[k + 1] == all.skip(i)[k + 1]);
            }
            assert(config_views(rest@) =~= all.skip(i + 1));
        }
        let ghost s = config_views(configs@);
        let mut p: usize = 0;
        while p < configs.len() && !config_less(&c, &configs[p])
            invariant
                s == config_views(configs@),
                p <= configs@.len(),
                forall|q: int| 0 <= q < p ==> !config_lt(config_view(c), #[trigger] s[q]),
            decreases configs.len() - p,
        {
            p = p + 1;
        }
        proof {
            lemma_configs_insert_sorted(s, p as int, config_view(c));
            vstd::seq_lib::to_multiset_insert(s, p as int, config_view(c));
            assert forall|a: ConfigView| !#[trigger] config_lt(a, a) by {
                lemma_config_lt(a, a, a);
            }
            crate::sorting::lemma_insert_stable(
                s,
                all.take(i),
                perm,
                p as int,
                config_view(c),
                |a: ConfigView, b: ConfigView| config_lt(a, b),
                |a: ConfigView, b: ConfigView| config_tie(a, b),
            );
        }
        configs.insert(p, c);
        proof {
            assert(config_views(configs@) =~= s.insert(p as int, all[i]));
            assert(all.take(i).push(all[i]) =~= all.take(i + 1));
            vstd::seq_lib::to_multiset_build(all.take(i), all[i]);
            perm = perm.insert(p as int, i);
            i = i + 1;
        }
    }
    proof {
        assert(all.take(i) =~= all);
        assert(config_stable_perm(config_views(configs@), all, perm));
    }
}

/// What a descriptor is: rank, provider, reference, key, time.
pub type DescriptorView = (int, Seq<char>, Seq<char>, Seq<char>, i64);

pub open spec fn descriptor_view(d: RecoveryEscrowDescriptorV2) -> DescriptorView {
    (priority_of(d.provider@), d.provider@, d.provider_ref@, d.key_id@, d.wrapped_at_ms)
}

pub open spec fn descriptor_views(s: Seq<RecoveryEscrowDescriptorV2>) -> Seq<DescriptorView> {
    s.map_values(|d: RecoveryEscrowDescriptorV2| descriptor_view(d))
}

/// Descriptors are ordered by rank, provider, reference, key, then time.
pub open spec fn descriptor_lt(a: DescriptorView, b: DescriptorView) -> bool {
    ||| a.0 < b.0
    ||| a.0 == b.0 && chars_lt(a.1, b.1)
    ||| a.0 == b.0 && a.1 == b.1 && chars_lt(a.2, b.2)
    ||| a.0 == b.0 && a.1 == b.1 && a.2 == b.2 && chars_lt(a.3, b.3)
    ||| a.0 == b.0 && a.1 == b.1 && a.2 == b.2 && a.3 == b.3 && a.4 < b.4
}

pub open spec fn descriptors_sorted(s: Seq<DescriptorView>) -> bool {
    forall|p: int, q: int| 0 <= p < q < s.len() ==> !descriptor_lt(#[trigger] s[q], #[trigger] s[p])
}

proof fn lemma_descriptor_lt(a: DescriptorView, b: DescriptorView, c: DescriptorView)
    ensures
        descriptor_lt(a, b) && descriptor_lt(b, c) ==> descriptor_lt(a, c),
        descriptor_lt(a, b) ==> !descriptor_lt(b, a),
        !descriptor_lt(a, b) ==> descriptor_lt(b, a) || a == b,
{
    lemma_chars_lt_irreflexive(a.1);
    lemma_chars_lt_irreflexive(a.2);
    lemma_chars_lt_irreflexive(a.3);
    lemma_chars_lt_total(a.1, b.1);
    lemma_chars_lt_total(a.2, b.2);
    lemma_chars_lt_total(a.3, b.3);
    if chars_lt(a.1, b.1) && chars_lt(b.1, c.1) {
        lemma_chars_lt_trans(a.1, b.1, c.1);
    }
    if chars_lt(a.2, b.2) && chars_lt(b.2, c.2) {
        lemma_chars_lt_trans(a.2, b.2, c.2);
    }
    if chars_lt(a.3, b.3) && chars_lt(b.3, c.3) {
        lemma_chars_lt_trans(a.3, b.3, c.3);
    }
    if chars_lt(a.1, b.1) {
        lemma_chars_lt_asym(a.1, b.1);
    }
    if chars_lt(a.2, b.2) {
        lemma_chars_lt_asym(a.2, b.2);
    }
    if chars_lt(a.3, b.3) {
        lemma_chars_lt_asym(a.3, b.3);
    }
}

fn descriptor_less(a: &RecoveryEscrowDescriptorV2, b: &RecoveryEscrowDescriptorV2) -> (r: bool)
    ensures
        r == descriptor_lt(descriptor_view(*a), descriptor_view(*b)),
{
    let pa = provider_priority(a.provider.as_str());
    let pb = provider_priority(b.provider.as_str());
    if pa != pb {
        return pa < pb;
    }
    let k = str_order(a.provider.as_str(), b.provider.as_str());
    if k != 0 {
        return k < 0;
    }
    let k = str_order(a.provider_ref.as_str(), b.provider_ref.as_str());
    if k != 0 {
        return k < 0;
    }
    let k = str_order(a.key_id.as_str(), b.key_id.as_str());
    if k != 0 {
        return k < 0;
    }
    a.wrapped_at_ms < b.wrapped_at_ms
}

proof fn lemma_descriptors_insert_sorted(s: Seq<DescriptorView>, p: int, x: DescriptorView)
    requires
        descriptors_sorted(s),
        0 <= p <= s.len(),
        forall|q: int| 0 <= q < p ==> !descriptor_lt(x, #[trigger] s[q]),
        p < s.len() ==> descriptor_lt(x, s[p]),
    ensures
        descriptors_sorted(s.insert(p, x)),
{
    let t = s.insert(p, x);
    assert forall|a: int, b: int| 0 <= a < b < t.len() implies !descriptor_lt(#[trigger] t[b], #[trigger] t[a]) by {
        if b < p {
            assert(t[a] == s[a] && t[b] == s[b]);
        } else if b == p {
            assert(t[a] == s[a]);
        } else if a < p {
            assert(t[a] == s[a] && t[b] == s[b - 1]);
        } else if a == p {
            assert(t[b] == s[b - 1]);
            lemma_descriptor_lt(x, s[p], s[b - 1]);
            lemma_descriptor_lt(s[p], s[b - 1], s[p]);
            lemma_descriptor_lt(x, s[b - 1], x);
            if b - 1 > p {
                assert(!descriptor_lt(s[b - 1], s[p]));
            }
        } else {
            assert(t[a] == s[a - 1] && t[b] == s[b - 1]);
        }
    }
}

/// Orders escrow descriptors by rank, provider, reference, key, then time,
/// keeping each one.
pub fn normalize_escrow_descriptors(descs: &mut Vec<RecoveryEscrowDescriptorV2>)
    ensures
        descriptors_sorted(descriptor_views(final(descs)@)),
        descriptor_views(final(descs)@).to_multiset() == descriptor_views(old(descs)@).to_multiset(),
{
    let ghost all = descriptor_views(descs@);
    let mut rest: Vec<RecoveryEscrowDescriptorV2> = Vec::new();
    std::mem::swap(&mut rest, descs);
    let ghost mut i: int = 0;
    proof {
        assert(all.take(0) =~= Seq::<DescriptorView>::empty());
        assert(descriptor_views(descs@) =~= Seq::<DescriptorView>::empty());
        broadcast use vstd::seq_lib::group_to_multiset_ensures;
    }
    while rest.len() > 0
        invariant
            0 <= i <= all.len(),
            descriptor_views(rest@) == all.skip(i),
            descriptors_sorted(descriptor_views(descs@)),
            descriptor_views(descs@).to_multiset() == all.take(i).to_multiset(),
        decreases rest.len(),
    {
        let ghost old_rest = rest@;
        let d = rest.remove(0);
        proof {
            assert(descriptor_views(old_rest) == all.skip(i));
            assert(descriptor_views(old_rest).len() == old_rest.len());
            assert(descriptor_views(old_rest)[0] == descriptor_view(d));
            assert(all[i] == all.skip(i)[0]);
            assert forall|k: int| 0 <= k < rest@.len() implies #[trigger] descriptor_views(rest@)[k] == all.skip(i + 1)[k] by {
                assert(rest@[k] == old_rest[k + 1]);
                assert(descriptor_views(old_rest)[k + 1] == all.skip(i)[k + 1]);
            }
            assert(descriptor_views(rest@) =~= all.skip(i + 1));
        }
        let ghost s = descriptor_views(descs@);
        let mut p: usize = 0;
        while p < descs.len() && !descriptor_less(&d, &descs[p])
            invariant
                s == descriptor_views(descs@),
                p <= descs@.len(),
                forall|q: int| 0 <= q < p ==> !descriptor_lt(descriptor_view(d), #[trigger] s[q]),
            decreases descs.len() - p,
        {
            p = p + 1;
        }
        proof {
            lemma_descriptors_insert_sorted(s, p as int, descriptor_view(d));
            vstd::seq_lib::to_multiset_insert(s, p as int, descriptor_view(d));
        }
        descs.insert(p, d);
        proof {
            assert(descriptor_views(descs@) =~= s.insert(p as int, all[i]));
            assert(all.take(i).push(all[i]) =~= all.take(i + 1));
            vstd::seq_lib::to_multiset_build(all.take(i), all[i]);
            i = i + 1;
        }
    }
    proof {
        assert(all.take(i) =~= all);
    }
}

// ---------------------------------------------------------------------------
// Descriptors and payloads
// ---------------------------------------------------------------------------

/// Two sorted descriptor sequences holding the same descriptors are the
/// same sequence: the order leaves no ties between different descriptors.
proof fn lemma_descriptors_sorted_unique(a: Seq<DescriptorView>, b: Seq<DescriptorView>)
    requires
        descriptors_sorted(a),
        descriptors_sorted(b),
        a.to_multiset() == b.to_multiset(),
    ensures
        a == b,
    decreases a.len(),
{
    broadcast use vstd::seq_lib::group_to_multiset_ensures;
    vstd::seq_lib::to_multiset_len(a);
    vstd::seq_lib::to_multiset_len(b);
    assert(a.len() == b.len());
    if a.len() == 0 {
        assert(a =~= b);
    } else {
        assert(a.contains(a[0]));
        assert(b.to_multiset().count(a[0]) > 0);
        assert(b.contains(a[0]));
        assert(b.contains(b[0]));
        assert(a.to_multiset().count(b[0]) > 0);
        assert(a.contains(b[0]));
        let j = choose|j: int| 0 <= j < b.len() && b[j] == a[0];
        let i = choose|i: int| 0 <= i < a.len() && a[i] == b[0];
        if i > 0 {
            assert(!descriptor_lt(a[i], a[0]));
        }
        if j > 0 {
            assert(!descriptor_lt(b[j], b[0]));
        }
        lemma_descriptor_lt(a[0], b[0], a[0]);
        lemma_descriptor_lt(b[0], a[0], b[0]);
        assert(a[0] == b[0]);
        let a1 = a.remove(0);
        let b1 = b.remove(0);
        assert(a1.to_multiset() == a.to_multiset().remove(a[0]));
        assert(b1.to_multiset() == b.to_multiset().remove(b[0]));
        assert forall|p: int, q: int| 0 <= p < q < a1.len() implies !descriptor_lt(#[trigger] a1[q], #[trigger] a1[p]) by {
            assert(a1[q] == a[q + 1] && a1[p] == a[p + 1]);
        }
        assert forall|p: int, q: int| 0 <= p < q < b1.len() implies !descriptor_lt(#[trigger] b1[q], #[trigger] b1[p]) by {
            assert(b1[q] == b[q + 1] && b1[p] == b[p + 1]);
        }
        lemma_descriptors_sorted_unique(a1, b1);
        assert forall|k: int| 0 <= k < a.len() implies a[k] == b[k] by {
            if k > 0 {
                assert(a[k] == a1[k - 1] && b[k] == b1[k - 1]);
            }
        }
        assert(a =~= b);
    }
}

/// Normalizing descriptors depends only on which descriptors there are: any
/// two orderings of the same descriptors normalize to the same sequence, and
/// normalizing an already normalized sequence leaves it as it is. Here
/// `out_a` and `out_b` are what normalizing `in_a` and `in_b` gives, as
/// `normalize_escrow_descriptors` states it.
pub proof fn law_normalize_descriptors_canonical(
    in_a: Seq<DescriptorView>,
    out_a: Seq<DescriptorView>,
    in_b: Seq<DescriptorView>,
    out_b: Seq<DescriptorView>,
)
    requires
        descriptors_sorted(out_a),
        out_a.to_multiset() == in_a.to_multiset(),
        descriptors_sorted(out_b),
        out_b.to_multiset() == in_b.to_multiset(),
    ensures
        in_a.to_multiset() == in_b.to_multiset() ==> out_a == out_b,
        descriptors_sorted(in_a) ==> out_a == in_a,
{
    if in_a.to_multiset() == in_b.to_multiset() {
        lemma_descriptors_sorted_unique(out_a, out_b);
    }
    if descriptors_sorted(in_a) {
        lemma_descriptors_sorted_unique(out_a, in_a);
    }
}

/// A descriptor names its provider, its place and its key.
pub open spec fn descriptor_complete(d: RecoveryEscrowDescriptorV2) -> bool {
    !is_blank(d.provider@) && !is_blank(d.provider_ref@) && !is_blank(d.key_id@)
}

/// Refuses a descriptor with a blank provider, reference or key.
pub fn validate_escrow_descriptor(desc: &RecoveryEscrowDescriptorV2) -> (r: AppResult<()>)
    ensures
        r is Ok <==> descriptor_complete(*desc),
        r is Err ==> r->Err_0.code@ == "KC_RECOVERY_ESCROW_WRITE_FAILED"@,
{
    if blank(desc.provider.as_str()) || blank(desc.provider_ref.as_str()) || blank(desc.key_id.as_str()) {
        return Err(AppError::new(
            "KC_RECOVERY_ESCROW_WRITE_FAILED",
            "recovery",
            "escrow descriptor contains empty required fields",
            false,
            JsonValue::Object(vec![
                sfield("provider", desc.provider.as_str()),
                sfield("provider_ref", desc.provider_ref.as_str()),
                sfield("key_id", desc.key_id.as_str()),
            ]),
        ));
    }
    Ok(())
}

/// The canonical JSON of a descriptor: its fields in key order.
pub open spec fn descriptor_canon_text(d: RecoveryEscrowDescriptorV2) -> Seq<char> {
    "{"@ + quote("key_id"@) + ":"@ + quote(d.key_id@) + ","@ + quote("provider"@) + ":"@ + quote(d.provider@) + ","@
        + quote("provider_ref"@) + ":"@ + quote(d.provider_ref@) + ","@ + quote("wrapped_at_ms"@) + ":"@ + int_decimal(
        d.wrapped_at_ms as int,
    ) + "}"@
}

/// The hash of a complete descriptor's canonical JSON.
pub fn canonical_descriptor_hash(desc: &RecoveryEscrowDescriptorV2) -> (r: AppResult<String>)
    ensures
        r is Ok <==> descriptor_complete(*desc),
        r is Ok ==> r->Ok_0@ == blake3_prefixed(vstd::utf8::encode_utf8(descriptor_canon_text(*desc))),
        r is Err ==> r->Err_0.code@ == "KC_RECOVERY_ESCROW_WRITE_FAILED"@,
{
    validate_escrow_descriptor(desc)?;
    let mut s = String::new();
    push_str(&mut s, "{");
    push_quoted(&mut s, "key_id");
    push_str(&mut s, ":");
    push_quoted(&mut s, desc.key_id.as_str());
    push_str(&mut s, ",");
    push_quoted(&mut s, "provider");
    push_str(&mut s, ":");
    push_quoted(&mut s, desc.provider.as_str());
    push_str(&mut s, ",");
    push_quoted(&mut s, "provider_ref");
    push_str(&mut s, ":");
    push_quoted(&mut s, desc.provider_ref.as_str());
    push_str(&mut s, ",");
    push_quoted(&mut s, "wrapped_at_ms");
    push_str(&mut s, ":");
    let n = i64_decimal(desc.wrapped_at_ms);
    push_str(&mut s, n.as_str());
    push_str(&mut s, "}");
    let b = bytes_of(s.as_str());
    Ok(blake3_hex_prefixed(b.as_slice()))
}

/// Checks that restored bytes hash to the expected payload hash.
pub fn validate_payload_hash(bytes: &[u8], expected_payload_hash: &str) -> (r: AppResult<()>)
    ensures
        r is Ok <==> blake3_prefixed(bytes@) == expected_payload_hash@,
        r is Err ==> r->Err_0.code@ == "KC_RECOVERY_ESCROW_RESTORE_FAILED"@,
{
    let actual = blake3_hex_prefixed(bytes);
    if !str_eq(actual.as_str(), expected_payload_hash) {
        return Err(AppError::new(
            "KC_RECOVERY_ESCROW_RESTORE_FAILED",
            "recovery",
            "escrow payload hash mismatch",
            false,
            JsonValue::Object(vec![sfield("expected", expected_payload_hash), sfield("actual", actual.as_str())]),
        ));
    }
    Ok(())
}

// ---------------------------------------------------------------------------
// Escrow paths
// ---------------------------------------------------------------------------

/// `a` joined with `b` as a Unix path: an absolute `b` replaces `a`, an
/// empty `a` gives `b`, and otherwise a `/` separates them unless `a`
/// already ends with one.
pub open spec fn path_join(a: Seq<char>, b: Seq<char>) -> Seq<char> {
    if b.len() > 0 && b[0] == '/' {
        b
    } else if a.len() == 0 {
        b
    } else if a.last() == '/' {
        a + b
    } else {
        a + "/"@ + b
    }
}

/// Joins two Unix paths.
pub fn join_path(a: &str, b: &str) -> (r: String)
    ensures
        r@ == path_join(a@, b@),
{
    let bs = chars_of(b);
    if bs.len() > 0 && bs[0] == '/' {
        return owned(b);
    }
    let cs = chars_of(a);
    if cs.len() == 0 {
        return owned(b);
    }
    let mut out = owned(a);
    if cs[cs.len() - 1] != '/' {
        push_str(&mut out, "/");
    }
    push_str(&mut out, b);
    out
}

/// `s` with each `:` replaced by `_`.
pub open spec fn colons_to_underscores(s: Seq<char>) -> Seq<char> {
    s.map_values(|c: char| if c == ':' { '_' } else { c })
}

fn replace_colons(s: &str) -> (r: String)
    ensures
        r@ == colons_to_underscores(s@),
{
    let cs = chars_of(s);
    let mut out: Vec<char> = Vec::new();
    let mut i: usize = 0;
    while i < cs.len()
        invariant
            cs@ == s@,
            i <= cs@.len(),
            out@ == colons_to_underscores(s@.subrange(0, i as int)),
        decreases cs.len() - i,
    {
        let c = cs[i];
        out.push(if c == ':' { '_' } else { c });
        proof {
            assert(colons_to_underscores(s@.subrange(0, i + 1)) =~= colons_to_underscores(s@.subrange(0, i as int)).push(
                if c == ':' { '_' } else { c },
            ));
        }
        i = i + 1;
    }
    proof {
        assert(s@.subrange(0, cs@.len() as int) =~= s@);
    }
    string_from_chars(&out)
}

/// Where an escrow copy of a payload is kept under `root`:
/// `<root>/<vault_id>/<payload hash, colons as underscores>.enc`.
pub open spec fn escrow_path(root: Seq<char>, vault_id: Seq<char>, payload_hash: Seq<char>) -> Seq<char> {
    path_join(path_join(root, vault_id), colons_to_underscores(payload_hash) + ".enc"@)
}

/// The escrow path of a payload.
pub fn escrow_blob_path(root: &str, vault_id: &str, payload_hash: &str) -> (r: String)
    ensures
        r@ == escrow_path(root@, vault_id@, payload_hash@),
{
    let dir = join_path(root, vault_id);
    let mut name = replace_colons(payload_hash);
    push_str(&mut name, ".enc");
    join_path(dir.as_str(), name.as_str())
}

/// A path below `root`, as written relative to it: the part after `root`
/// and a `/`; a path not below `root` is kept whole. Backslashes become `/`.
pub open spec fn relative_to(root: Seq<char>, path: Seq<char>) -> Seq<char> {
    let base = if root.len() > 0 && root.last() == '/' { root } else { root + "/"@ };
    let rel = if root.len() > 0 && has_prefix(path, base) {
        path.subrange(base.len() as int, path.len() as int)
    } else {
        path
    };
    rel.map_values(|c: char| if c == '\\' { '/' } else { c })
}

/// The reference of a path below `root`.
pub fn relative_ref_of(root: &str, path: &str) -> (r: String)
    ensures
        r@ == relative_to(root@, path@),
{
    let rs = chars_of(root);
    let mut base = owned(root);
    if rs.len() == 0 || rs[rs.len() - 1] != '/' {
        push_str(&mut base, "/");
    }
    let cs = chars_of(path);
    let bl = chars_of(base.as_str()).len();
    let lo: usize = if rs.len() > 0 && starts_with(path, base.as_str()) {
        bl
    } else {
        0
    };
    proof {
        if rs.len() > 0 && has_prefix(path@, base@) {
            assert(bl == base@.len());
        }
    }
    let mut out: Vec<char> = Vec::new();
    let mut i: usize = lo;
    let ghost rel = path@.subrange(lo as int, path@.len() as int);
    while i < cs.len()
        invariant
            cs@ == path@,
            lo <= i <= cs@.len(),
            rel == path@.subrange(lo as int, path@.len() as int),
            out@ == rel.subrange(0, i - lo).map_values(|c: char| if c == '\\' { '/' } else { c }),
        decreases cs.len() - i,
    {
        let c = cs[i];
        out.push(if c == '\\' { '/' } else { c });
        proof {
            assert(rel.subrange(0, i + 1 - lo) =~= rel.subrange(0, i - lo).push(c));
            assert(out@ =~= rel.subrange(0, i + 1 - lo).map_values(|c: char| if c == '\\' { '/' } else { c }));
        }
        i = i + 1;
    }
    proof {
        assert(rel.subrange(0, cs@.len() - lo) =~= rel);
        if !(rs.len() > 0 && has_prefix(path@, base@)) {
            assert(rel =~= path@);
        }
    }
    string_from_chars(&out)
}

fn recovery_error(code: &str, message: &str, details: JsonValue) -> (e: AppError)
    ensures
        e.code@ == code@,
        e.category@ == "recovery"@,
{
    AppError::new(code, "recovery", message, false, details)
}

/// Checks a descriptor before it is read back by the adapter of `provider`.
pub fn check_read(desc: &RecoveryEscrowDescriptorV2, provider: &str, message: &str) -> (r: AppResult<()>)
    ensures
        r is Ok <==> descriptor_complete(*desc) && desc.provider@ == provider@,
        !descriptor_complete(*desc) ==> r is Err && r->Err_0.code@ == "KC_RECOVERY_ESCROW_WRITE_FAILED"@,
        descriptor_complete(*desc) && desc.provider@ != provider@ ==> r is Err && r->Err_0.code@
            == "KC_RECOVERY_ESCROW_RESTORE_FAILED"@,
{
    validate_escrow_descriptor(desc)?;
    if !str_eq(desc.provider.as_str(), provider) {
        return Err(recovery_error(
            "KC_RECOVERY_ESCROW_RESTORE_FAILED",
            message,
            JsonValue::Object(vec![
                sfield("expected_provider", provider),
                sfield("actual_provider", desc.provider.as_str()),
            ]),
        ));
    }
    Ok(())
}

// ---------------------------------------------------------------------------
// Local provider
// ---------------------------------------------------------------------------

/// Escrow in a directory of the local file system.
#[derive(Debug)]
pub struct LocalRecoveryEscrowProvider {
    pub root: String,
}

impl LocalRecoveryEscrowProvider {
    pub fn new(root: String) -> (r: Self)
        ensures
            r.root == root,
    {
        LocalRecoveryEscrowProvider { root }
    }

    /// The name of this provider.
    pub fn provider_id(&self) -> (r: &'static str)
        ensures
            r@ == "local"@,
    {
        "local"
    }

    /// Where the payload of a vault is kept.
    pub fn blob_path(&self, vault_id: &str, payload_hash: &str) -> (r: String)
        ensures
            r@ == escrow_path(self.root@, vault_id@, payload_hash@),
    {
        escrow_blob_path(self.root.as_str(), vault_id, payload_hash)
    }

    /// The reference of a path below the root.
    pub fn relative_ref(&self, path: &str) -> (r: String)
        ensures
            r@ == relative_to(self.root@, path@),
    {
        relative_ref_of(self.root.as_str(), path)
    }

    /// The status of the provider: configured and available when it has a root.
    pub fn status(&self) -> (r: RecoveryEscrowProviderStatus)
        ensures
            r.provider@ == "local"@,
            r.configured == (self.root@.len() > 0),
            r.available == r.configured,
            r.details_json@ == "{"@ + quote("deterministic_path_template"@) + ":"@ + quote("<vault_id>/<payload_hash>.enc"@)
                + ","@ + quote("kind"@) + ":"@ + quote("filesystem"@) + ","@ + quote("root"@) + ":"@ + quote(self.root@) + "}"@,
    {
        let configured = !self.root.as_str().is_empty();
        let mut d = String::new();
        push_str(&mut d, "{");
        push_quoted(&mut d, "deterministic_path_template");
        push_str(&mut d, ":");
        push_quoted(&mut d, "<vault_id>/<payload_hash>.enc");
        push_str(&mut d, ",");
        push_quoted(&mut d, "kind");
        push_str(&mut d, ":");
        push_quoted(&mut d, "filesystem");
        push_str(&mut d, ",");
        push_quoted(&mut d, "root");
        push_str(&mut d, ":");
        push_quoted(&mut d, self.root.as_str());
        push_str(&mut d, "}");
        RecoveryEscrowProviderStatus { provider: owned("local"), configured, available: configured, details_json: d }
    }

    /// Plans a write: the path to write the key blob to, and the descriptor
    /// that records it once written.
    pub fn write_plan(&self, req: &RecoveryEscrowWriteRequest) -> (r: AppResult<(String, RecoveryEscrowDescriptorV2)>)
        ensures
            self.root@.len() == 0 ==> r is Err && r->Err_0.code@ == "KC_RECOVERY_ESCROW_UNAVAILABLE"@,
            self.root@.len() > 0 ==> (r is Ok <==> !is_blank(req.payload_hash@)),
            r is Ok ==> {
                let (path, d) = r->Ok_0;
                &&& path@ == escrow_path(self.root@, req.vault_id@, req.payload_hash@)
                &&& d.provider@ == "local"@
                &&& d.provider_ref@ == relative_to(self.root@, path@)
                &&& d.key_id@ == req.payload_hash@
                &&& d.wrapped_at_ms == req.now_ms
            },
            self.root@.len() > 0 && r is Err ==> r->Err_0.code@ == "KC_RECOVERY_ESCROW_WRITE_FAILED"@,
    {
        if self.root.as_str().is_empty() {
            return Err(recovery_error(
                "KC_RECOVERY_ESCROW_UNAVAILABLE",
                "local recovery escrow root is empty",
                JsonValue::Object(Vec::new()),
            ));
        }
        let path = self.blob_path(req.vault_id, req.payload_hash);
        let rel = self.relative_ref(path.as_str());
        let d = RecoveryEscrowDescriptorV2 {
            provider: owned("local"),
            provider_ref: rel,
            key_id: owned(req.payload_hash),
            wrapped_at_ms: req.now_ms,
        };
        proof {
            reveal_strlit("local");
            assert(!is_blank(d.provider@)) by {
                assert(!crate::text::is_ws(d.provider@[0]));
            }
            lemma_escrow_ref_not_blank(self.root@, req.vault_id@, req.payload_hash@);
        }
        validate_escrow_descriptor(&d)?;
        Ok((path, d))
    }

    /// Plans a read: the path the descriptor points to.
    pub fn read_plan(&self, desc: &RecoveryEscrowDescriptorV2) -> (r: AppResult<String>)
        ensures
            r is Ok <==> descriptor_complete(*desc) && desc.provider@ == "local"@,
            r is Ok ==> r->Ok_0@ == path_join(self.root@, desc.provider_ref@),
            !descriptor_complete(*desc) ==> r is Err && r->Err_0.code@ == "KC_RECOVERY_ESCROW_WRITE_FAILED"@,
            descriptor_complete(*desc) && desc.provider@ != "local"@ ==> r is Err && r->Err_0.code@
                == "KC_RECOVERY_ESCROW_RESTORE_FAILED"@,
    {
        check_read(desc, "local", "escrow descriptor provider does not match local adapter")?;
        Ok(join_path(self.root.as_str(), desc.provider_ref.as_str()))
    }
}

/// Whether a path component is plain: no `/` and no `\\` in it.
pub open spec fn plain_component(s: Seq<char>) -> bool {
    forall|i: int| 0 <= i < s.len() ==> #[trigger] s[i] != '/' && s[i] != '\\'
}

proof fn lemma_no_backslash_map(s: Seq<char>)
    requires
        forall|i: int| 0 <= i < s.len() ==> #[trigger] s[i] != '\\',
    ensures
        s.map_values(|c: char| if c == '\\' { '/' } else { c }) == s,
{
    assert(s.map_values(|c: char| if c == '\\' { '/' } else { c }) =~= s);
}

/// What an escrow write records is read back from where it was written:
/// the path a read plan gives for a written descriptor (`path_join` of the
/// root and the descriptor's reference) is the path the write plan wrote
/// to, under any root, for a non-empty vault id and a payload hash that are
/// plain path components.
pub proof fn law_escrow_read_finds_write(root: Seq<char>, vault_id: Seq<char>, payload_hash: Seq<char>)
    requires
        vault_id.len() > 0,
        plain_component(vault_id),
        plain_component(payload_hash),
    ensures
        path_join(root, relative_to(root, escrow_path(root, vault_id, payload_hash)))
            == escrow_path(root, vault_id, payload_hash),
{
    reveal_strlit(".enc");
    reveal_strlit("/");
    let name = colons_to_underscores(payload_hash) + ".enc"@;
    assert(name[0] != '/') by {
        if payload_hash.len() > 0 {
            assert(name[0] == colons_to_underscores(payload_hash)[0]);
            assert(payload_hash[0] != '/');
        } else {
            assert(name[0] == '.');
        }
    }
    assert forall|i: int| 0 <= i < name.len() implies #[trigger] name[i] != '\\' by {
        if i < payload_hash.len() {
            assert(name[i] == colons_to_underscores(payload_hash)[i]);
            assert(payload_hash[i] != '\\');
        } else {
            assert(name[i] == ".enc"@[i - payload_hash.len()]);
        }
    }
    let base = if root.len() > 0 && root.last() == '/' { root } else { root + "/"@ };
    let pre: Seq<char> = if root.len() == 0 { Seq::empty() } else { base };
    let d = path_join(root, vault_id);
    assert(vault_id[0] != '/');
    assert(d =~= pre + vault_id);
    assert(d.last() == vault_id.last());
    assert(vault_id.last() != '/');
    let p = escrow_path(root, vault_id, payload_hash);
    let rest = vault_id + "/"@ + name;
    assert(p =~= pre + rest);
    assert forall|i: int| 0 <= i < rest.len() implies #[trigger] rest[i] != '\\' by {
        if i < vault_id.len() {
            assert(rest[i] == vault_id[i]);
        } else if i == vault_id.len() {
            assert(rest[i] == '/');
        } else {
            assert(rest[i] == name[i - vault_id.len() - 1]);
        }
    }
    lemma_no_backslash_map(rest);
    assert(rest[0] == vault_id[0]);
    if root.len() == 0 {
        assert(p =~= rest);
        assert(relative_to(root, p) == rest);
    } else {
        assert(p.subrange(0, base.len() as int) =~= base);
        assert(has_prefix(p, base));
        assert(p.subrange(base.len() as int, p.len() as int) =~= rest);
        assert(relative_to(root, p) == rest);
        if root.last() == '/' {
            assert(path_join(root, rest) =~= p);
        } else {
            assert(path_join(root, rest) =~= p);
        }
    }
}

proof fn lemma_join_ends(a: Seq<char>, b: Seq<char>)
    requires
        b.len() > 0,
    ensures
        path_join(a, b).len() >= b.len(),
        path_join(a, b)[path_join(a, b).len() - 1] == b[b.len() - 1],
{
    reveal_strlit("/");
    let j = path_join(a, b);
    if !(b.len() > 0 && b[0] == '/') && a.len() > 0 {
        if a.last() == '/' {
            assert(j == a + b);
            assert(j[j.len() - 1] == b[b.len() - 1]);
        } else {
            assert(j == a + "/"@ + b);
            assert(j[j.len() - 1] == b[b.len() - 1]);
        }
    }
}

/// The reference of an escrow path is never blank: it ends in `.enc`.
pub proof fn lemma_escrow_ref_not_blank(root: Seq<char>, vault_id: Seq<char>, payload_hash: Seq<char>)
    ensures
        !is_blank(relative_to(root, escrow_path(root, vault_id, payload_hash))),
{
    reveal_strlit(".enc");
    reveal_strlit("/");
    let p = escrow_path(root, vault_id, payload_hash);
    let name = colons_to_underscores(payload_hash) + ".enc"@;
    assert(name.len() >= 4 && name[name.len() - 1] == 'c');
    lemma_join_ends(path_join(root, vault_id), name);
    assert(p.len() >= 4 && p[p.len() - 1] == 'c');
    let r = relative_to(root, p);
    let base = if root.len() > 0 && root.last() == '/' { root } else { root + "/"@ };
    let rel = if root.len() > 0 && crate::text::has_prefix(p, base) {
        p.subrange(base.len() as int, p.len() as int)
    } else {
        p
    };
    assert(base.len() > 0 ==> base[base.len() - 1] == '/');
    if root.len() > 0 && crate::text::has_prefix(p, base) {
        assert(base.len() > 0);
        if p.len() == base.len() {
            assert(p.subrange(0, base.len() as int) =~= p);
            assert(p[p.len() - 1] == base[base.len() - 1]);
        }
        assert(rel.len() > 0);
        assert(rel[rel.len() - 1] == p[p.len() - 1]);
    }
    assert(r.len() == rel.len());
    assert(rel[rel.len() - 1] == 'c');
    assert(r[r.len() - 1] == 'c');
    assert(!crate::text::is_ws(r[r.len() - 1]));
}

} // verus!
