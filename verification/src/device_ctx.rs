//! Device-aware encryption for the FileProvider: which wrap mode its
//! configuration asks for, the device recipients and the device secret that
//! the host inlined into it, the plan that results, and the guard that keeps
//! a master-only reader from materializing per-device ciphertext.
//!
//! The plan never asks for a per-device context that this device could not
//! read back: without recipients or without this device's secret it stays
//! master-only, and the per-device mode (which drops the master wrap) is
//! downgraded to dual unless every active device carries a real age
//! recipient.
use vstd::prelude::*;
use crate::age_keys::{age_recipient_valid, parse_age_recipient, AgeFileKeyRecipient};
use crate::storage_bounds::{json_member, member_of, JsonObject, JsonValue};
use crate::text::{chars_eq, chars_of, string_of, trim_chars, trim_spec};

verus! {

/// How file keys are wrapped.
#[derive(Debug, Clone, Copy, PartialEq, Eq, Structural)]
pub enum WrapMode {
    /// Only under the shared master key.
    Master,
    /// Under the master key and per device.
    Dual,
    /// Per device only.
    PerDevice,
}

/// The wrap mode that a configuration asks for: `wrap_mode`
/// (`master`/`dual`/`per_device`, anything else meaning master), or else
/// the legacy flag `per_device_wrapping` (`true` meaning dual).
pub open spec fn wrap_mode_spec(members: Seq<(String, JsonValue)>) -> WrapMode {
    match json_member(members, "wrap_mode"@) {
        Some(JsonValue::String(s)) => if s@ == "dual"@ {
            WrapMode::Dual
        } else if s@ == "per_device"@ {
            WrapMode::PerDevice
        } else {
            WrapMode::Master
        },
        _ => match json_member(members, "per_device_wrapping"@) {
            Some(JsonValue::Bool(true)) => WrapMode::Dual,
            _ => WrapMode::Master,
        },
    }
}

/// The wrap mode that the configuration asks for.
pub fn wrap_mode_from_config(config: &JsonObject) -> (r: WrapMode)
    ensures
        r == wrap_mode_spec(config.members@),
{
    match member_of(config, "wrap_mode") {
        Some(JsonValue::String(s)) => {
            let c = chars_of(s.as_str());
            let dual = chars_of("dual");
            let per_device = chars_of("per_device");
            if chars_eq(c.as_slice(), dual.as_slice()) {
                WrapMode::Dual
            } else if chars_eq(c.as_slice(), per_device.as_slice()) {
                WrapMode::PerDevice
            } else {
                WrapMode::Master
            }
        },
        _ => match member_of(config, "per_device_wrapping") {
            Some(JsonValue::Bool(true)) => WrapMode::Dual,
            _ => WrapMode::Master,
        },
    }
}

/// The text of member `key` of a JSON value, where it is an object holding
/// a string there.
pub open spec fn string_member(v: JsonValue, key: Seq<char>) -> Option<Seq<char>> {
    match v {
        JsonValue::Object(members) => match json_member(members@, key) {
            Some(JsonValue::String(s)) => Some(s@),
            _ => None,
        },
        _ => None,
    }
}

/// The recipient that an inlined entry stands for: an object with string
/// `device_id` and `recipient`, the recipient a real age X25519 key.
pub open spec fn inlined_recipient(entry: JsonValue) -> Option<(Seq<char>, Seq<char>)> {
    match (string_member(entry, "device_id"@), string_member(entry, "recipient"@)) {
        (Some(d), Some(r)) => if age_recipient_valid(r) {
            Some((d, r))
        } else {
            None
        },
        _ => None,
    }
}

/// The recipients kept from the inlined entries, in order.
pub open spec fn inlined_recipients(entries: Seq<JsonValue>) -> Seq<(Seq<char>, Seq<char>)>
    decreases entries.len(),
{
    if entries.len() == 0 {
        seq![]
    } else {
        let rest = inlined_recipients(entries.drop_last());
        match inlined_recipient(entries.last()) {
            Some(p) => rest.push(p),
            None => rest,
        }
    }
}

/// Where the recipients come from.
#[derive(Debug)]
pub enum RecipientSource {
    /// The configuration inlines none; they are read from the device registry.
    NotInlined,
    /// The configuration inlines entries but none is a usable recipient.
    InlinedNone,
    /// The usable inlined recipients, and whether every inlined entry was one.
    Inlined { recipients: Vec<AgeFileKeyRecipient>, all_capable: bool },
}

/// The views of recipients.
pub open spec fn recipient_views(v: Seq<AgeFileKeyRecipient>) -> Seq<(Seq<char>, Seq<char>)> {
    v.map_values(|r: AgeFileKeyRecipient| (r.device_id@, r.recipient@))
}

fn string_member_of(v: &JsonValue, key: &str) -> (r: Option<String>)
    ensures
        r matches Some(s) ==> string_member(*v, key@) == Some(s@),
        r is None ==> string_member(*v, key@) is None,
{
    match v {
        JsonValue::Object(members) => {
            let found = find_member(members, key);
            match found {
                Some(JsonValue::String(s)) => Some(string_of(chars_of(s.as_str()).as_slice())),
                _ => None,
            }
        },
        _ => None,
    }
}

fn find_member<'a>(members: &'a Vec<(String, JsonValue)>, key: &str) -> (r: Option<&'a JsonValue>)
    ensures
        r matches Some(v) ==> json_member(members@, key@) == Some(*v),
        r is None ==> json_member(members@, key@) is None,
{
    let k = chars_of(key);
    let mut i: usize = 0;
    assert(members@.skip(0) =~= members@);
    while i < members.len()
        invariant
            i <= members@.len(),
            k@ == key@,
            json_member(members@, key@) == json_member(members@.skip(i as int), key@),
        decreases members@.len() - i,
    {
        let name = chars_of(members[i].0.as_str());
        assert(members@.skip(i as int).drop_first() =~= members@.skip(i + 1));
        if chars_eq(name.as_slice(), k.as_slice()) {
            return Some(&members[i].1);
        }
        i = i + 1;
    }
    assert(members@.skip(i as int) =~= Seq::<(String, JsonValue)>::empty());
    None
}

/// The recipients that the configuration inlines under `device_recipients`:
/// the entries that are objects with string `device_id` and `recipient` whose
/// recipient parses as an age X25519 key. Every entry must be one for the
/// devices to count as all capable.
pub fn resolve_inlined_recipients(config: &JsonObject) -> (r: RecipientSource)
    ensures
        match json_member(config.members@, "device_recipients"@) {
            Some(JsonValue::Array(entries)) => {
                let kept = inlined_recipients(entries@);
                if kept.len() == 0 {
                    r is InlinedNone
                } else {
                    r matches RecipientSource::Inlined { recipients, all_capable } && recipient_views(recipients@)
                        == kept && all_capable == (kept.len() == entries@.len())
                }
            },
            _ => r is NotInlined,
        },
{
    match member_of(config, "device_recipients") {
        Some(JsonValue::Array(entries)) => {
            let mut out: Vec<AgeFileKeyRecipient> = Vec::new();
            let mut i: usize = 0;
            while i < entries.len()
                invariant
                    i <= entries@.len(),
                    recipient_views(out@) == inlined_recipients(entries@.take(i as int)),
                    out@.len() <= i,
                decreases entries@.len() - i,
            {
                let entry = &entries[i];
                assert(entries@.take(i + 1).drop_last() =~= entries@.take(i as int));
                let d = string_member_of(entry, "device_id");
                let rc = string_member_of(entry, "recipient");
                match (d, rc) {
                    (Some(d), Some(rc)) => {
                        if parse_age_recipient(rc.as_str()).is_some() {
                            let ghost before = out@;
                            out.push(AgeFileKeyRecipient { device_id: d, recipient: rc });
                            assert(recipient_views(out@) =~= recipient_views(before).push(
                                (out@.last().device_id@, out@.last().recipient@),
                            ));
                        }
                    },
                    _ => {},
                }
                i = i + 1;
            }
            assert(entries@.take(entries@.len() as int) =~= entries@);
            if out.len() == 0 {
                RecipientSource::InlinedNone
            } else {
                let all_capable = out.len() == entries.len();
                RecipientSource::Inlined { recipients: out, all_capable }
            }
        },
        _ => RecipientSource::NotInlined,
    }
}

/// This device's age unwrap identity.
#[derive(Debug, Clone)]
pub struct DeviceUnwrapIdentity {
    pub device_id: String,
    pub secret: String,
}

/// The device secret that the configuration inlines under `device_secret`,
/// trimmed, where it is a string that is not blank.
pub open spec fn inlined_secret_spec(members: Seq<(String, JsonValue)>) -> Option<Seq<char>> {
    match json_member(members, "device_secret"@) {
        Some(JsonValue::String(s)) => if trim_spec(s@).len() > 0 {
            Some(trim_spec(s@))
        } else {
            None
        },
        _ => None,
    }
}

/// The device secret that the configuration inlines, trimmed.
pub fn resolve_inlined_secret(config: &JsonObject) -> (r: Option<String>)
    ensures
        r matches Some(s) ==> inlined_secret_spec(config.members@) == Some(s@),
        r is None ==> inlined_secret_spec(config.members@) is None,
{
    match member_of(config, "device_secret") {
        Some(JsonValue::String(s)) => {
            let c = chars_of(s.as_str());
            let t = trim_chars(c.as_slice());
            if t.len() > 0 {
                Some(string_of(t.as_slice()))
            } else {
                None
            }
        },
        _ => None,
    }
}

/// What the read and write paths are given: the effective wrap mode, the
/// recipients to wrap to and this device's identity.
#[derive(Debug)]
pub struct EncryptionPlan {
    pub mode: WrapMode,
    pub recipients: Vec<AgeFileKeyRecipient>,
    pub identity: Option<DeviceUnwrapIdentity>,
}

/// Decides the encryption plan from the requested mode, the recipients found
/// (with whether all active devices are capable) and this device's identity.
/// Master-only unless a non-master mode is requested and both recipients and
/// an identity are at hand; the per-device mode needs every active device to
/// be capable, else it is downgraded to dual.
pub fn plan_encryption(
    requested: WrapMode,
    recipients: Option<(Vec<AgeFileKeyRecipient>, bool)>,
    identity: Option<DeviceUnwrapIdentity>,
) -> (r: EncryptionPlan)
    ensures
        (requested == WrapMode::Master || recipients is None || identity is None) ==> (r.mode == WrapMode::Master
            && r.recipients@.len() == 0 && r.identity is None),
        (requested != WrapMode::Master && recipients is Some && identity is Some) ==> {
            &&& r.recipients@ == (recipients->0).0@
            &&& r.identity == identity
            &&& r.mode == (if requested == WrapMode::PerDevice && !(recipients->0).1 {
                WrapMode::Dual
            } else {
                requested
            })
        },
        r.mode != WrapMode::Master ==> r.identity is Some,
        r.mode == WrapMode::PerDevice ==> (recipients matches Some(p) && p.1),
{
    let master_only = EncryptionPlan { mode: WrapMode::Master, recipients: Vec::new(), identity: None };
    if requested == WrapMode::Master {
        return master_only;
    }
    let (list, all_capable) = match recipients {
        Some(p) => p,
        None => {
            return master_only;
        },
    };
    let id = match identity {
        Some(id) => id,
        None => {
            return master_only;
        },
    };
    let mode = if requested == WrapMode::PerDevice && !all_capable {
        WrapMode::Dual
    } else {
        requested
    };
    EncryptionPlan { mode, recipients: list, identity: Some(id) }
}

/// The recipients kept from the active devices of a verified registry,
/// each a device id and its public key, in order: those whose key is a real
/// age X25519 recipient.
pub open spec fn registry_kept(active: Seq<(String, String)>) -> Seq<(Seq<char>, Seq<char>)>
    decreases active.len(),
{
    if active.len() == 0 {
        seq![]
    } else {
        let rest = registry_kept(active.drop_last());
        if age_recipient_valid(active.last().1@) {
            rest.push((active.last().0@, active.last().1@))
        } else {
            rest
        }
    }
}

/// The recipients that a signature-verified registry gives: its active
/// devices (id and public key) whose key is a real age recipient, with the
/// registry's own verdict on whether every active device is capable. `None`
/// where no device qualifies.
pub fn registry_recipients(active: &[(String, String)], all_capable: bool) -> (r: Option<(Vec<AgeFileKeyRecipient>, bool)>)
    ensures
        registry_kept(active@).len() == 0 <==> r is None,
        r matches Some(p) ==> recipient_views(p.0@) == registry_kept(active@) && p.1 == all_capable,
{
    let mut out: Vec<AgeFileKeyRecipient> = Vec::new();
    let mut i: usize = 0;
    while i < active.len()
        invariant
            i <= active@.len(),
            recipient_views(out@) == registry_kept(active@.take(i as int)),
        decreases active@.len() - i,
    {
        assert(active@.take(i + 1).drop_last() =~= active@.take(i as int));
        let (d, k) = &active[i];
        if parse_age_recipient(k.as_str()).is_some() {
            let ghost before = out@;
            let device_id = string_of(chars_of(d.as_str()).as_slice());
            let recipient = string_of(chars_of(k.as_str()).as_slice());
            out.push(AgeFileKeyRecipient { device_id, recipient });
            assert(recipient_views(out@) =~= recipient_views(before).push((out@.last().device_id@, out@.last().recipient@)));
        }
        i = i + 1;
    }
    assert(active@.take(active@.len() as int) =~= active@);
    if out.len() == 0 {
        None
    } else {
        Some((out, all_capable))
    }
}

/// The views of a recipient set and its capability verdict.
pub open spec fn found_views(o: Option<(Vec<AgeFileKeyRecipient>, bool)>) -> Option<(Seq<(Seq<char>, Seq<char>)>, bool)> {
    match o {
        Some(p) => Some((recipient_views(p.0@), p.1)),
        None => None,
    }
}

/// The recipients a plan wraps to: the inlined ones where the configuration
/// inlines entries (none usable meaning none), else what the registry gave.
pub open spec fn plan_recipients(
    members: Seq<(String, JsonValue)>,
    registry: Option<(Seq<(Seq<char>, Seq<char>)>, bool)>,
) -> Option<(Seq<(Seq<char>, Seq<char>)>, bool)> {
    match json_member(members, "device_recipients"@) {
        Some(JsonValue::Array(entries)) => {
            let kept = inlined_recipients(entries@);
            if kept.len() == 0 {
                None
            } else {
                Some((kept, kept.len() == entries@.len()))
            }
        },
        _ => registry,
    }
}

/// This device's secret for a plan: the inlined one, else the content of
/// its secret file, trimmed.
pub open spec fn plan_secret(members: Seq<(String, JsonValue)>, secret_file: Option<Seq<char>>) -> Option<Seq<char>> {
    match inlined_secret_spec(members) {
        Some(s) => Some(s),
        None => match secret_file {
            Some(f) => Some(trim_spec(f)),
            None => None,
        },
    }
}

/// The encryption plan of a FileProvider configuration for this device:
/// the wrap mode it asks for, the recipients inlined in it (else those of
/// the verified device registry, handed in as `registry`: `None` where the
/// registry is missing, unsigned or fails verification) and this device's
/// secret inlined in it (else the content of its secret file, handed in as
/// `secret_file`: `None` where it cannot be read). Inlined values are
/// preferred over the registry and the file, each on its own.
pub fn build_encryption_plan(
    config: &JsonObject,
    device_id: &str,
    registry: Option<(Vec<AgeFileKeyRecipient>, bool)>,
    secret_file: Option<String>,
) -> (r: EncryptionPlan)
    ensures
        ({
            let req = wrap_mode_spec(config.members@);
            let rec = plan_recipients(config.members@, found_views(registry));
            let sec = plan_secret(config.members@, match secret_file {
                Some(f) => Some(f@),
                None => None,
            });
            &&& (req == WrapMode::Master || rec is None || sec is None) ==> (r.mode == WrapMode::Master
                && r.recipients@.len() == 0 && r.identity is None)
            &&& (req != WrapMode::Master && rec is Some && sec is Some) ==> {
                &&& recipient_views(r.recipients@) == (rec->0).0
                &&& r.identity matches Some(id) && id.device_id@ == device_id@ && id.secret@ == sec->0
                &&& r.mode == (if req == WrapMode::PerDevice && !(rec->0).1 {
                    WrapMode::Dual
                } else {
                    req
                })
            }
        }),
{
    let requested = wrap_mode_from_config(config);
    let recipients = match resolve_inlined_recipients(config) {
        RecipientSource::Inlined { recipients, all_capable } => Some((recipients, all_capable)),
        RecipientSource::InlinedNone => None,
        RecipientSource::NotInlined => registry,
    };
    let secret = match resolve_inlined_secret(config) {
        Some(s) => Some(s),
        None => match secret_file {
            Some(f) => Some(string_of(trim_chars(chars_of(f.as_str()).as_slice()).as_slice())),
            None => None,
        },
    };
    let identity = match secret {
        Some(s) => Some(DeviceUnwrapIdentity { device_id: string_of(chars_of(device_id).as_slice()), secret: s }),
        None => None,
    };
    plan_encryption(requested, recipients, identity)
}

/// Why a manifest cannot be read by a master-only backend.
#[derive(Debug, Clone, Copy, PartialEq, Eq, Structural)]
pub enum ManifestReadError {
    /// The manifest wraps its file key per device only, with no master wrap.
    PerDeviceOnly,
}

/// Refuses, rather than copy ciphertext to disk, a manifest that a
/// master-only backend cannot decrypt: one with per-device wraps and no
/// master wrap. Dual manifests (both) and master-only manifests pass.
pub fn ensure_master_decryptable(wrapped_file_key_count: usize, has_master_wrap: bool) -> (r: Result<
    (),
    ManifestReadError,
>)
    ensures
        r is Err <==> (wrapped_file_key_count > 0 && !has_master_wrap),
        r matches Err(e) ==> e == ManifestReadError::PerDeviceOnly,
{
    if wrapped_file_key_count > 0 && !has_master_wrap {
        Err(ManifestReadError::PerDeviceOnly)
    } else {
        Ok(())
    }
}

// ── Laws ─────────────────────────────────────────────────────────────────────

/// A configuration that says nothing of wrapping asks for master-only.
pub proof fn lemma_default_is_master(members: Seq<(String, JsonValue)>)
    requires
        json_member(members, "wrap_mode"@) is None,
        json_member(members, "per_device_wrapping"@) is None,
    ensures
        wrap_mode_spec(members) == WrapMode::Master,
{
}

/// A present `wrap_mode` string wins over the legacy flag.
pub proof fn lemma_wrap_mode_wins(members: Seq<(String, JsonValue)>)
    requires
        json_member(members, "wrap_mode"@) matches Some(JsonValue::String(s)) && s@ == "dual"@,
    ensures
        wrap_mode_spec(members) == WrapMode::Dual,
{
}

} // verus!
