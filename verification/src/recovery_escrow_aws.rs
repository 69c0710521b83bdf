//! Escrow with AWS (KMS and Secrets Manager): the adapter runs against a local emulation
//! directory where one is configured, and is unavailable otherwise.
use vstd::prelude::*;
use crate::app_error::{AppError, AppResult};
use crate::json::{JsonValue, JAtom, atom_of, quote, push_quoted, sfield};
use crate::recovery_escrow::{RecoveryEscrowDescriptorV2, RecoveryEscrowProviderStatus, RecoveryEscrowWriteRequest,
    escrow_path, escrow_blob_path, relative_to, relative_ref_of, path_join, join_path, descriptor_complete,
    validate_escrow_descriptor};
use crate::text::{blank, is_blank, owned, push_str, str_eq, is_ws};

verus! {

/// The configuration of the aws escrow adapter.
#[derive(Debug)]
pub struct AwsRecoveryEscrowConfig {
    pub region: String,
    pub kms_key_id: String,
    pub secret_prefix: String,
}

/// The aws escrow adapter.
#[derive(Debug)]
pub struct AwsRecoveryEscrowProvider {
    pub config: AwsRecoveryEscrowConfig,
}

/// The emulation directory an environment value names: `None` where it is
/// unset or blank.
pub fn emulation_root_from(value: Option<String>) -> (r: Option<String>)
    ensures
        r is Some <==> value is Some && !is_blank(value->Some_0@),
        r is Some ==> r->Some_0 == value->Some_0,
{
    match value {
        Some(v) => if blank(v.as_str()) {
            None
        } else {
            Some(v)
        },
        None => None,
    }
}

/// The key id an escrow copy of this adapter records.
pub open spec fn aws_key_id(c: AwsRecoveryEscrowConfig) -> Seq<char> {
    "kms:"@ + c.kms_key_id@
}

impl AwsRecoveryEscrowProvider {
    /// The error of an adapter that cannot reach its provider here: the
    /// provider, its configuration and a hint on emulating it.
    pub fn missing_provider_error(&self, code: &str, message: &str) -> (e: AppError)
        ensures
            e.code@ == code@,
            e.category@ == "recovery"@,
            e.message@ == message@,
            !e.retryable,
            e.details matches JsonValue::Object(es) && es@.len() == 5
                && es@[0].0@ == "provider"@ && atom_of(es@[0].1) == Some(JAtom::Str("aws"@))
                && es@[1].0@ == "region"@ && atom_of(es@[1].1) == Some(JAtom::Str(self.config.region@))
                && es@[2].0@ == "kms_key_id"@ && atom_of(es@[2].1) == Some(JAtom::Str(self.config.kms_key_id@))
                && es@[3].0@ == "secret_prefix"@ && atom_of(es@[3].1) == Some(JAtom::Str(self.config.secret_prefix@))
                && es@[4].0@ == "hint"@ && atom_of(es@[4].1) == Some(JAtom::Str(
                "configure KC_RECOVERY_ESCROW_AWS_EMULATE_DIR for deterministic local adapter tests"@,
            )),
    {
        AppError::new(
            code,
            "recovery",
            message,
            false,
            JsonValue::Object(vec![
                sfield("provider", "aws"),
                sfield("region", self.config.region.as_str()),
                sfield("kms_key_id", self.config.kms_key_id.as_str()),
                sfield("secret_prefix", self.config.secret_prefix.as_str()),
                sfield("hint", "configure KC_RECOVERY_ESCROW_AWS_EMULATE_DIR for deterministic local adapter tests"),
            ]),
        )
    }

    pub fn new(config: AwsRecoveryEscrowConfig) -> (r: Self)
        ensures
            r.config == config,
    {
        AwsRecoveryEscrowProvider { config }
    }

    /// The name of this provider.
    pub fn provider_id(&self) -> (r: &'static str)
        ensures
            r@ == "aws"@,
    {
        "aws"
    }

    /// Where the payload of a vault is kept under the emulation directory.
    pub fn emulation_path(&self, root: &str, vault_id: &str, payload_hash: &str) -> (r: String)
        ensures
            r@ == escrow_path(root@, vault_id@, payload_hash@),
    {
        escrow_blob_path(root, vault_id, payload_hash)
    }

    /// Whether the adapter is configured: every setting named.
    pub open spec fn configured_spec(&self) -> bool {
        !is_blank(self.config.region@) && !is_blank(self.config.kms_key_id@) && !is_blank(self.config.secret_prefix@)
    }

    /// The status of the adapter, given its emulation directory: configured
    /// when every setting is named, available when also emulated.
    pub fn status(&self, emulation_root: &Option<String>) -> (r: RecoveryEscrowProviderStatus)
        ensures
            r.provider@ == "aws"@,
            r.configured == self.configured_spec(),
            r.available == (self.configured_spec() && emulation_root is Some),
            r.details_json@ == "{"@ + quote("emulation_enabled"@) + ":"@ + (if emulation_root is Some { "true"@ } else { "false"@ }) + ","@ + quote("kms_key_id"@) + ":"@ + quote(self.config.kms_key_id@) + ","@ + quote("region"@) + ":"@ + quote(self.config.region@) + ","@ + quote("secret_prefix"@) + ":"@ + quote(self.config.secret_prefix@) + "}"@,
    {
        let configured = !blank(self.config.region.as_str()) && !blank(self.config.kms_key_id.as_str()) && !blank(self.config.secret_prefix.as_str());
        let emulated = emulation_root.is_some();
        let mut d = String::new();
        push_str(&mut d, "{");
        push_quoted(&mut d, "emulation_enabled");
        push_str(&mut d, ":");
        push_str(&mut d, if emulated { "true" } else { "false" });
        push_str(&mut d, ",");
        push_quoted(&mut d, "kms_key_id");
        push_str(&mut d, ":");
        push_quoted(&mut d, self.config.kms_key_id.as_str());
        push_str(&mut d, ",");
        push_quoted(&mut d, "region");
        push_str(&mut d, ":");
        push_quoted(&mut d, self.config.region.as_str());
        push_str(&mut d, ",");
        push_quoted(&mut d, "secret_prefix");
        push_str(&mut d, ":");
        push_quoted(&mut d, self.config.secret_prefix.as_str());
        push_str(&mut d, "}");
        RecoveryEscrowProviderStatus {
            provider: owned("aws"),
            configured,
            available: configured && emulated,
            details_json: d,
        }
    }

    fn key_id(&self) -> (r: String)
        ensures
            r@ == aws_key_id(self.config),
    {
        let mut k = String::new();
        push_str(&mut k, "kms:");
        push_str(&mut k, self.config.kms_key_id.as_str());
        k
    }

    /// Plans a write, given the emulation directory: the path to write the
    /// key blob to, and the descriptor that records it once written.
    pub fn write_plan(&self, emulation_root: &Option<String>, req: &RecoveryEscrowWriteRequest) -> (r: AppResult<(String, RecoveryEscrowDescriptorV2)>)
        ensures
            r is Ok <==> emulation_root is Some,
            emulation_root is None ==> r->Err_0.code@ == "KC_RECOVERY_ESCROW_UNAVAILABLE"@,
            r is Ok ==> {
                let (path, d) = r->Ok_0;
                let root = emulation_root->Some_0@;
                &&& path@ == escrow_path(root, req.vault_id@, req.payload_hash@)
                &&& d.provider@ == "aws"@
                &&& d.provider_ref@ == relative_to(root, path@)
                &&& d.key_id@ == aws_key_id(self.config)
                &&& d.wrapped_at_ms == req.now_ms
            },
    {
        let root = match emulation_root {
            None => {
                return Err(self.missing_provider_error(
                    "KC_RECOVERY_ESCROW_UNAVAILABLE",
                    "aws recovery escrow provider is unavailable in this runtime",
                ));
            },
            Some(r) => r,
        };
        let path = escrow_blob_path(root.as_str(), req.vault_id, req.payload_hash);
        let rel = relative_ref_of(root.as_str(), path.as_str());
        let d = RecoveryEscrowDescriptorV2 {
            provider: owned("aws"),
            provider_ref: rel,
            key_id: self.key_id(),
            wrapped_at_ms: req.now_ms,
        };
        proof {
            reveal_strlit("aws");
            reveal_strlit("kms:");
            assert(!is_ws(d.provider@[0]));
            assert(!is_ws(d.key_id@[0]));
            crate::recovery_escrow::lemma_escrow_ref_not_blank(root@, req.vault_id@, req.payload_hash@);
        }
        validate_escrow_descriptor(&d)?;
        Ok((path, d))
    }

    /// Plans a read, given the emulation directory: the path the descriptor
    /// points to.
    pub fn read_plan(&self, emulation_root: &Option<String>, desc: &RecoveryEscrowDescriptorV2) -> (r: AppResult<String>)
        ensures
            r is Ok <==> descriptor_complete(*desc) && desc.provider@ == "aws"@ && emulation_root is Some,
            r is Ok ==> r->Ok_0@ == path_join(emulation_root->Some_0@, desc.provider_ref@),
            !descriptor_complete(*desc) ==> r is Err && r->Err_0.code@ == "KC_RECOVERY_ESCROW_WRITE_FAILED"@,
            descriptor_complete(*desc) && desc.provider@ != "aws"@ ==> r is Err && r->Err_0.code@
                == "KC_RECOVERY_ESCROW_RESTORE_FAILED"@,
            descriptor_complete(*desc) && desc.provider@ == "aws"@ && emulation_root is None
                ==> r->Err_0.code@ == "KC_RECOVERY_ESCROW_RESTORE_FAILED"@,
    {
        crate::recovery_escrow::check_read(desc, "aws", "escrow descriptor provider does not match aws adapter")?;
        match emulation_root {
            None => Err(self.missing_provider_error(
                "KC_RECOVERY_ESCROW_RESTORE_FAILED",
                "aws recovery escrow provider is unavailable in this runtime",
            )),
            Some(root) => Ok(join_path(root.as_str(), desc.provider_ref.as_str())),
        }
    }
}

} // verus!
