//! Sync targets: a local directory or an S3 bucket and prefix.
use vstd::prelude::*;
use crate::app_error::{AppError, AppResult};
use crate::json::{JsonValue, JAtom, flat_obj, lemma_flat_obj, sfield};
use crate::text::{chars_of, string_from_range, push_str, is_blank, blank, trim, trimmed, has_prefix, contains_seq, contains, starts_with, owned};

verus! {

/// Where a vault syncs to.
#[derive(Debug, Clone)]
pub enum SyncTargetUri {
    FilePath { path: String },
    S3 { bucket: String, prefix: String },
}

/// What parsing a target text yields, over character sequences.
pub enum TargetView {
    Invalid,
    Unsupported,
    File(Seq<char>),
    S3(Seq<char>, Seq<char>),
}

pub open spec fn target_view(u: SyncTargetUri) -> TargetView {
    match u {
        SyncTargetUri::FilePath { path } => TargetView::File(path@),
        SyncTargetUri::S3 { bucket, prefix } => TargetView::S3(bucket@, prefix@),
    }
}

/// Index of the first `c` in `s`, or `s.len()` when there is none.
pub open spec fn index_of(s: Seq<char>, c: char) -> int
    decreases s.len(),
{
    if s.len() == 0 {
        0
    } else if s[0] == c {
        0
    } else {
        1 + index_of(s.drop_first(), c)
    }
}

/// Number of leading `c`.
pub open spec fn lead_c(s: Seq<char>, c: char) -> int
    decreases s.len(),
{
    if s.len() > 0 && s[0] == c {
        1 + lead_c(s.drop_first(), c)
    } else {
        0
    }
}

/// Number of trailing `c`.
pub open spec fn trail_c(s: Seq<char>, c: char) -> int
    decreases s.len(),
{
    if s.len() > 0 && s.last() == c {
        1 + trail_c(s.drop_last(), c)
    } else {
        0
    }
}

/// `str::trim_matches(c)`.
pub open spec fn strip_c(s: Seq<char>, c: char) -> Seq<char> {
    let a = s.subrange(lead_c(s, c), s.len() as int);
    a.subrange(0, a.len() - trail_c(a, c))
}

pub open spec fn s3_scheme() -> Seq<char> {
    "s3://"@
}

pub open spec fn file_scheme() -> Seq<char> {
    "file://"@
}

/// The bucket of an `s3://` target: up to the first `/`, trimmed.
pub open spec fn s3_bucket(rest: Seq<char>) -> Seq<char> {
    trim(rest.subrange(0, index_of(rest, '/')))
}

/// The prefix of an `s3://` target: after the first `/`, slashes stripped.
pub open spec fn s3_prefix(rest: Seq<char>) -> Seq<char> {
    let i = index_of(rest, '/');
    if i < rest.len() {
        strip_c(rest.subrange(i + 1, rest.len() as int), '/')
    } else {
        Seq::empty()
    }
}

/// What a target text means.
pub open spec fn parse_view(raw: Seq<char>) -> TargetView {
    if is_blank(raw) {
        TargetView::Invalid
    } else if has_prefix(raw, s3_scheme()) {
        let rest = raw.subrange(5, raw.len() as int);
        if s3_bucket(rest).len() == 0 {
            TargetView::Invalid
        } else {
            TargetView::S3(s3_bucket(rest), s3_prefix(rest))
        }
    } else if has_prefix(raw, file_scheme()) {
        let rest = raw.subrange(7, raw.len() as int);
        if is_blank(rest) {
            TargetView::Invalid
        } else {
            TargetView::File(rest)
        }
    } else if contains_seq(raw, "://"@) {
        TargetView::Unsupported
    } else {
        TargetView::File(raw)
    }
}

/// How a target is written.
pub open spec fn display_view(u: SyncTargetUri) -> Seq<char> {
    match u {
        SyncTargetUri::FilePath { path } => path@,
        SyncTargetUri::S3 { bucket, prefix } => if prefix@.len() == 0 {
            s3_scheme() + bucket@
        } else {
            s3_scheme() + bucket@ + "/"@ + prefix@
        },
    }
}

pub proof fn lemma_index_of(s: Seq<char>, c: char, k: int)
    requires
        0 <= k <= s.len(),
        forall|i: int| 0 <= i < k ==> s[i] != c,
        k == s.len() || s[k] == c,
    ensures
        index_of(s, c) == k,
    decreases k,
{
    if k > 0 {
        lemma_index_of(s.drop_first(), c, k - 1);
    }
}

pub proof fn lemma_lead_c(s: Seq<char>, c: char, k: int)
    requires
        0 <= k <= s.len(),
        forall|i: int| 0 <= i < k ==> s[i] == c,
        k == s.len() || s[k] != c,
    ensures
        lead_c(s, c) == k,
    decreases k,
{
    if k > 0 {
        lemma_lead_c(s.drop_first(), c, k - 1);
    }
}

pub proof fn lemma_trail_c(s: Seq<char>, c: char, k: int)
    requires
        0 <= k <= s.len(),
        forall|i: int| s.len() - k <= i < s.len() ==> s[i] == c,
        k == s.len() || s[s.len() - k - 1] != c,
    ensures
        trail_c(s, c) == k,
    decreases k,
{
    if k > 0 {
        let t = s.drop_last();
        assert forall|i: int| t.len() - (k - 1) <= i < t.len() implies t[i] == c by {
            assert(t[i] == s[i]);
        }
        if k - 1 != t.len() {
            assert(t[t.len() - (k - 1) - 1] == s[s.len() - k - 1]);
        }
        lemma_trail_c(t, c, k - 1);
    }
}

/// `s.trim_matches(c)` over a character range.
pub fn strip_char_range(cs: &Vec<char>, lo: usize, hi: usize, c: char) -> (r: String)
    requires
        lo <= hi <= cs@.len(),
    ensures
        r@ == strip_c(cs@.subrange(lo as int, hi as int), c),
{
    let ghost s = cs@.subrange(lo as int, hi as int);
    let mut a = lo;
    while a < hi && cs[a] == c
        invariant
            lo <= a <= hi <= cs@.len(),
            s == cs@.subrange(lo as int, hi as int),
            forall|j: int| lo <= j < a ==> cs@[j] == c,
        decreases hi - a,
    {
        a = a + 1;
    }
    proof {
        lemma_lead_c(s, c, a - lo);
    }
    let mut b = hi;
    while b > a && cs[b - 1] == c
        invariant
            lo <= a <= b <= hi <= cs@.len(),
            forall|j: int| b <= j < hi ==> cs@[j] == c,
        decreases b - a,
    {
        b = b - 1;
    }
    proof {
        let t = s.subrange(a - lo, s.len() as int);
        assert(t =~= cs@.subrange(a as int, hi as int));
        assert forall|i: int| t.len() - (hi - b) <= i < t.len() implies t[i] == c by {
            assert(t[i] == cs@[a + i]);
        }
        if (hi - b) != t.len() {
            assert(t[t.len() - (hi - b) - 1] == cs@[b - 1]);
        }
        lemma_trail_c(t, c, (hi - b) as int);
        assert(t.subrange(0, t.len() - (hi - b)) =~= cs@.subrange(a as int, b as int));
    }
    string_from_range(cs, a, b)
}

fn target_error(code: &str, message: &str, raw: &str) -> (e: AppError)
    ensures
        e.code@ == code@,
        e.category@ == "sync"@,
        !e.retryable,
        flat_obj(e.details) == Some(seq![("target"@, JAtom::Str(raw@))]),
{
    let es = vec![sfield("target", raw)];
    proof {
        lemma_flat_obj(es, seq![("target"@, JAtom::Str(raw@))]);
    }
    AppError::new(code, "sync", message, false, JsonValue::Object(es))
}

impl SyncTargetUri {
    /// Reads a target: `s3://bucket/prefix`, `file://path`, or a bare path.
    pub fn parse(raw: &str) -> (r: AppResult<Self>)
        ensures
            parse_view(raw@) is Invalid ==> r is Err && r->Err_0.code@ == "KC_SYNC_TARGET_INVALID"@,
            parse_view(raw@) is Unsupported ==> r is Err && r->Err_0.code@ == "KC_SYNC_TARGET_UNSUPPORTED"@,
            r is Ok ==> target_view(r->Ok_0) == parse_view(raw@),
            (parse_view(raw@) is File || parse_view(raw@) is S3) ==> r is Ok,
            r is Err ==> flat_obj(r->Err_0.details) == Some(seq![("target"@, JAtom::Str(raw@))]),
    {
        proof {
            reveal_strlit("s3://");
            reveal_strlit("file://");
            reveal_strlit("://");
        }
        if blank(raw) {
            return Err(target_error("KC_SYNC_TARGET_INVALID", "sync target path is required", raw));
        }
        let cs = chars_of(raw);
        if starts_with(raw, "s3://") {
            let ghost rest = raw@.subrange(5, raw@.len() as int);
            let mut i: usize = 5;
            while i < cs.len() && cs[i] != '/'
                invariant
                    cs@ == raw@,
                    5 <= i <= cs@.len(),
                    forall|j: int| 5 <= j < i ==> cs@[j] != '/',
                decreases cs.len() - i,
            {
                i = i + 1;
            }
            proof {
                assert forall|j: int| 0 <= j < i - 5 implies rest[j] != '/' by {
                    assert(rest[j] == cs@[j + 5]);
                }
                if i < cs.len() {
                    assert(rest[i - 5] == cs@[i as int]);
                }
                lemma_index_of(rest, '/', i - 5);
                assert(rest.subrange(0, i - 5) =~= cs@.subrange(5, i as int));
            }
            let first = string_from_range(&cs, 5, i);
            let bucket = trimmed(first.as_str());
            let prefix = if i < cs.len() {
                assert(rest.subrange(i - 5 + 1, rest.len() as int) =~= cs@.subrange(i + 1, cs@.len() as int));
                strip_char_range(&cs, i + 1, cs.len(), '/')
            } else {
                String::new()
            };
            if bucket.as_str().is_empty() {
                return Err(target_error("KC_SYNC_TARGET_INVALID", "s3 target missing bucket", raw));
            }
            return Ok(SyncTargetUri::S3 { bucket, prefix });
        }
        if starts_with(raw, "file://") {
            let rest = string_from_range(&cs, 7, cs.len());
            if blank(rest.as_str()) {
                return Err(target_error("KC_SYNC_TARGET_INVALID", "file target missing path", raw));
            }
            return Ok(SyncTargetUri::FilePath { path: rest });
        }
        if contains(raw, "://") {
            return Err(target_error("KC_SYNC_TARGET_UNSUPPORTED", "unsupported sync target scheme", raw));
        }
        Ok(SyncTargetUri::FilePath { path: owned(raw) })
    }

    /// Writes the target back as text.
    pub fn display(&self) -> (r: String)
        ensures
            r@ == display_view(*self),
    {
        match self {
            SyncTargetUri::FilePath { path } => path.clone(),
            SyncTargetUri::S3 { bucket, prefix } => {
                let mut out = String::new();
                push_str(&mut out, "s3://");
                push_str(&mut out, bucket.as_str());
                if !prefix.as_str().is_empty() {
                    push_str(&mut out, "/");
                    push_str(&mut out, prefix.as_str());
                }
                out
            },
        }
    }
}

/// A sync target on the local file system.
#[derive(Debug, Clone)]
pub struct FsSyncTransport {
    pub root: String,
}

impl FsSyncTransport {
    pub fn new(path: &str) -> (r: Self)
        ensures
            r.root@ == path@,
    {
        FsSyncTransport { root: owned(path) }
    }

    /// The target this transport writes to.
    pub fn target(&self) -> (r: SyncTargetUri)
        ensures
            r == (SyncTargetUri::FilePath { path: self.root }),
    {
        SyncTargetUri::FilePath { path: self.root.clone() }
    }
}

/// A target written the way `display` writes it and `parse` reads it back:
/// a bare path with no scheme, or a trimmed bucket without `/` and a prefix
/// without leading or trailing `/`.
pub open spec fn is_normal_target(u: SyncTargetUri) -> bool {
    match u {
        SyncTargetUri::FilePath { path } => !is_blank(path@) && !contains_seq(path@, "://"@),
        SyncTargetUri::S3 { bucket, prefix } => {
            &&& bucket@.len() > 0
            &&& trim(bucket@) == bucket@
            &&& !bucket@.contains('/')
            &&& (prefix@.len() == 0 || (prefix@[0] != '/' && prefix@.last() != '/'))
        },
    }
}

/// Writing a normal target and reading the text back gives the same target.
pub proof fn law_display_parse_round_trip(u: SyncTargetUri)
    requires
        is_normal_target(u),
    ensures
        parse_view(display_view(u)) == target_view(u),
{
    reveal_strlit("s3://");
    reveal_strlit("file://");
    reveal_strlit("://");
    reveal_strlit("/");
    match u {
        SyncTargetUri::FilePath { path } => {
            let p = path@;
            if has_prefix(p, s3_scheme()) {
                assert(p[2] == p.subrange(0, 5)[2]);
                assert(p[3] == p.subrange(0, 5)[3]);
                assert(p[4] == p.subrange(0, 5)[4]);
                assert(p.subrange(2, 5) =~= "://"@);
                assert(crate::text::occurs_at(p, "://"@, 2));
            }
            if has_prefix(p, file_scheme()) {
                assert(p[4] == p.subrange(0, 7)[4]);
                assert(p[5] == p.subrange(0, 7)[5]);
                assert(p[6] == p.subrange(0, 7)[6]);
                assert(p.subrange(4, 7) =~= "://"@);
                assert(crate::text::occurs_at(p, "://"@, 4));
            }
            assert(!has_prefix(p, s3_scheme()));
            assert(!has_prefix(p, file_scheme()));
            assert(!is_blank(p));
            assert(parse_view(p) == TargetView::File(p));
            assert(display_view(u) == p);
            assert(target_view(u) == TargetView::File(p));
            assert(parse_view(display_view(u)) == target_view(u));
        },
        SyncTargetUri::S3 { bucket, prefix } => {
            let b = bucket@;
            let p = prefix@;
            let d = display_view(u);
            assert(!is_blank(d)) by {
                assert(d[0] == 's');
            }
            assert(d.subrange(0, 5) =~= s3_scheme());
            let rest = d.subrange(5, d.len() as int);
            assert forall|j: int| 0 <= j < b.len() implies rest[j] != '/' by {
                assert(rest[j] == b[j]);
                assert(b.contains(b[j]));
            }
            if p.len() == 0 {
                assert(rest =~= b);
                lemma_index_of(rest, '/', b.len() as int);
            } else {
                assert(rest =~= b + seq!['/'] + p);
                assert(rest[b.len() as int] == '/');
                lemma_index_of(rest, '/', b.len() as int);
                let tail = rest.subrange(b.len() as int + 1, rest.len() as int);
                assert(tail =~= p);
                lemma_lead_c(p, '/', 0);
                lemma_trail_c(p, '/', 0);
                assert(strip_c(p, '/') =~= p);
            }
            assert(rest.subrange(0, b.len() as int) =~= b);
            assert(s3_bucket(rest) == b);
            assert(s3_prefix(rest) == p);
            assert(parse_view(d) == TargetView::S3(b, p));
        },
    }
}

} // verus!
