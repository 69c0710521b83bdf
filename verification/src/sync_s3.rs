//! The S3 sync target: object keys under the target's prefix, the local
//! directory that stands in for a bucket in tests, and how remote errors are
//! told apart.
use vstd::prelude::*;
use crate::app_error::AppError;
use crate::json::{JsonValue, sfield};
use crate::recovery_escrow::{path_join, join_path};
use crate::sync_transport::{SyncTargetUri, strip_c, strip_char_range};
use crate::text::{owned, push_str, chars_of, contains, contains_seq, to_ascii_lower, ascii_lower};

verus! {

/// A sync target in an S3 bucket, under a prefix; where `emulate_root` is
/// set, a local directory stands in for the bucket.
#[derive(Debug)]
pub struct S3SyncTransport {
    pub bucket: String,
    pub prefix: String,
    pub endpoint_url: Option<String>,
    pub region: Option<String>,
    pub emulate_root: Option<String>,
}

/// The key of a leaf under a prefix: the prefix without surrounding `/`,
/// a `/`, and the leaf; the leaf alone under an empty prefix.
pub open spec fn key_spec(prefix: Seq<char>, leaf: Seq<char>) -> Seq<char> {
    if prefix.len() == 0 {
        leaf
    } else {
        strip_c(prefix, '/') + "/"@ + leaf
    }
}

/// Words in a remote error that mark a refused authentication.
pub open spec fn auth_words() -> Seq<Seq<char>> {
    seq!["credential"@, "accessdenied"@, "signature"@, "unauthorized"@, "forbidden"@, "403"@]
}

/// A remote error is an authentication failure when its lowercase text
/// holds one of the words; any other is a network failure, worth a retry.
pub open spec fn is_auth_failure(message: Seq<char>) -> bool {
    exists|i: int| 0 <= i < 6 && contains_seq(ascii_lower(message), #[trigger] auth_words()[i])
}

/// A remote error that says the object is not there.
pub open spec fn not_found_spec(message: Seq<char>) -> bool {
    contains_seq(message, "NoSuchKey"@) || contains_seq(message, "NotFound"@) || contains_seq(message, "status: 404"@)
}

/// A remote error that says a conditional write found the object there.
pub open spec fn precondition_failed_spec(message: Seq<char>) -> bool {
    contains_seq(message, "PreconditionFailed"@) || contains_seq(message, "412"@)
}

impl S3SyncTransport {
    /// A target for a bucket and prefix, with the endpoint, region and
    /// emulation directory the environment gives.
    pub fn new(
        bucket: String,
        prefix: String,
        endpoint_url: Option<String>,
        region: Option<String>,
        emulate_root: Option<String>,
    ) -> (r: Self)
        ensures
            r.bucket == bucket,
            r.prefix == prefix,
            r.endpoint_url == endpoint_url,
            r.region == region,
            r.emulate_root == emulate_root,
    {
        S3SyncTransport { bucket, prefix, endpoint_url, region, emulate_root }
    }

    /// The object key of a leaf.
    pub fn key_for(&self, leaf: &str) -> (r: String)
        ensures
            r@ == key_spec(self.prefix@, leaf@),
    {
        if self.prefix.as_str().is_empty() {
            return owned(leaf);
        }
        let cs = chars_of(self.prefix.as_str());
        let mut out = strip_char_range(&cs, 0, cs.len(), '/');
        proof {
            assert(cs@.subrange(0, cs@.len() as int) =~= self.prefix@);
        }
        push_str(&mut out, "/");
        push_str(&mut out, leaf);
        out
    }

    /// Where a leaf lives when a local directory stands in for the bucket:
    /// `<root>/<bucket>/<prefix without surrounding />/<leaf>`, the prefix
    /// part only where there is a prefix.
    pub fn emulated_path(&self, leaf: &str) -> (r: Option<String>)
        ensures
            self.emulate_root is None ==> r is None,
            self.emulate_root is Some ==> r is Some && r->Some_0@ == ({
                let p = path_join(self.emulate_root->Some_0@, self.bucket@);
                let p = if self.prefix@.len() > 0 { path_join(p, strip_c(self.prefix@, '/')) } else { p };
                path_join(p, leaf@)
            }),
    {
        match &self.emulate_root {
            None => None,
            Some(root) => {
                let mut p = join_path(root.as_str(), self.bucket.as_str());
                if !self.prefix.as_str().is_empty() {
                    let cs = chars_of(self.prefix.as_str());
                    let stripped = strip_char_range(&cs, 0, cs.len(), '/');
                    proof {
                        assert(cs@.subrange(0, cs@.len() as int) =~= self.prefix@);
                    }
                    p = join_path(p.as_str(), stripped.as_str());
                }
                Some(join_path(p.as_str(), leaf))
            },
        }
    }

    /// The code of a remote error, and whether a retry may succeed.
    pub fn classify_remote_error(message: &str) -> (r: (&'static str, bool))
        ensures
            is_auth_failure(message@) ==> r.0@ == "KC_SYNC_AUTH_FAILED"@ && !r.1,
            !is_auth_failure(message@) ==> r.0@ == "KC_SYNC_NETWORK_FAILED"@ && r.1,
    {
        let lower = to_ascii_lower(message);
        let l = lower.as_str();
        let hit = contains(l, "credential") || contains(l, "accessdenied") || contains(l, "signature") || contains(
            l,
            "unauthorized",
        ) || contains(l, "forbidden") || contains(l, "403");
        proof {
            let w = auth_words();
            assert(w[0] == "credential"@ && w[1] == "accessdenied"@ && w[2] == "signature"@);
            assert(w[3] == "unauthorized"@ && w[4] == "forbidden"@ && w[5] == "403"@);
            if hit {
                if contains_seq(l@, "credential"@) {
                    assert(contains_seq(ascii_lower(message@), w[0]));
                } else if contains_seq(l@, "accessdenied"@) {
                    assert(contains_seq(ascii_lower(message@), w[1]));
                } else if contains_seq(l@, "signature"@) {
                    assert(contains_seq(ascii_lower(message@), w[2]));
                } else if contains_seq(l@, "unauthorized"@) {
                    assert(contains_seq(ascii_lower(message@), w[3]));
                } else if contains_seq(l@, "forbidden"@) {
                    assert(contains_seq(ascii_lower(message@), w[4]));
                } else {
                    assert(contains_seq(ascii_lower(message@), w[5]));
                }
            }
        }
        if hit {
            ("KC_SYNC_AUTH_FAILED", false)
        } else {
            ("KC_SYNC_NETWORK_FAILED", true)
        }
    }

    /// The error for a failed remote operation on a key.
    pub fn map_remote_error(&self, message: &str, operation: &str, key: &str) -> (e: AppError)
        ensures
            is_auth_failure(message@) ==> e.code@ == "KC_SYNC_AUTH_FAILED"@ && !e.retryable,
            !is_auth_failure(message@) ==> e.code@ == "KC_SYNC_NETWORK_FAILED"@ && e.retryable,
            e.category@ == "sync"@,
            e.message@ == "failed "@ + operation@ + " s3 object"@,
    {
        let (code, retryable) = Self::classify_remote_error(message);
        let mut m = String::new();
        push_str(&mut m, "failed ");
        push_str(&mut m, operation);
        push_str(&mut m, " s3 object");
        AppError::new(
            code,
            "sync",
            m.as_str(),
            retryable,
            JsonValue::Object(vec![sfield("error", message), sfield("bucket", self.bucket.as_str()), sfield("key", key)]),
        )
    }

    /// Whether a remote error says the object is not there.
    pub fn is_not_found(message: &str) -> (r: bool)
        ensures
            r == not_found_spec(message@),
    {
        contains(message, "NoSuchKey") || contains(message, "NotFound") || contains(message, "status: 404")
    }

    /// Whether a remote error says a conditional write found the object there.
    pub fn is_precondition_failed(message: &str) -> (r: bool)
        ensures
            r == precondition_failed_spec(message@),
    {
        contains(message, "PreconditionFailed") || contains(message, "412")
    }

    /// The target this transport syncs with.
    pub fn target(&self) -> (r: SyncTargetUri)
        ensures
            r matches SyncTargetUri::S3 { bucket, prefix } && bucket@ == self.bucket@ && prefix@ == self.prefix@,
    {
        SyncTargetUri::S3 { bucket: self.bucket.clone(), prefix: self.prefix.clone() }
    }
}

} // verus!
