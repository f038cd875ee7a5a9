use secrecy::ExposeSecret;
use tcfs::age_keys::AgeFileKeyRecipient;
use tcfs::device_ctx::{
    build_encryption_plan, registry_recipients,
    ensure_master_decryptable, plan_encryption, resolve_inlined_recipients, resolve_inlined_secret,
    wrap_mode_from_config, ManifestReadError, RecipientSource, WrapMode,
};
use tcfs::storage_bounds::{JsonObject, JsonValue};

fn obj(members: Vec<(&str, JsonValue)>) -> JsonObject {
    JsonObject { members: members.into_iter().map(|(k, v)| (k.to_string(), v)).collect() }
}

fn s(v: &str) -> JsonValue {
    JsonValue::String(v.to_string())
}

fn entry(device_id: &str, recipient: &str) -> JsonValue {
    JsonValue::Object(vec![("device_id".to_string(), s(device_id)), ("recipient".to_string(), s(recipient))])
}

fn plan_for(config: &JsonObject, device_id: &str) -> tcfs::device_ctx::EncryptionPlan {
    build_encryption_plan(config, device_id, None, None)
}

/// A signed registry holding one active device with a real age key, and
/// that device's secret file content.
fn provisioned(device_id: &str) -> (String, Option<(Vec<AgeFileKeyRecipient>, bool)>, String) {
    let key = age::x25519::Identity::generate();
    let public = key.to_public().to_string();
    let registry = registry_recipients(&[(device_id.to_string(), public.clone())], true);
    let secret_file = format!("{}\n", key.to_string().expose_secret());
    (public, registry, secret_file)
}

#[test]
fn ensure_master_decryptable_rejects_per_device_but_allows_dual_and_master() {
    assert_eq!(ensure_master_decryptable(1, false), Err(ManifestReadError::PerDeviceOnly));
    assert_eq!(ensure_master_decryptable(1, true), Ok(()));
    assert_eq!(ensure_master_decryptable(0, true), Ok(()));
    assert_eq!(ensure_master_decryptable(0, false), Ok(()));
}

#[test]
fn wrap_mode_resolution() {
    assert_eq!(wrap_mode_from_config(&obj(vec![])), WrapMode::Master);
    assert_eq!(wrap_mode_from_config(&obj(vec![("wrap_mode", s("master"))])), WrapMode::Master);
    assert_eq!(wrap_mode_from_config(&obj(vec![("wrap_mode", s("dual"))])), WrapMode::Dual);
    assert_eq!(wrap_mode_from_config(&obj(vec![("wrap_mode", s("per_device"))])), WrapMode::PerDevice);
    assert_eq!(wrap_mode_from_config(&obj(vec![("wrap_mode", s("bogus"))])), WrapMode::Master);
    assert_eq!(wrap_mode_from_config(&obj(vec![("per_device_wrapping", JsonValue::Bool(true))])), WrapMode::Dual);
    assert_eq!(
        wrap_mode_from_config(&obj(vec![("per_device_wrapping", JsonValue::Bool(false))])),
        WrapMode::Master
    );
    assert_eq!(
        wrap_mode_from_config(&obj(vec![
            ("wrap_mode", s("master")),
            ("per_device_wrapping", JsonValue::Bool(true))
        ])),
        WrapMode::Master
    );
}

#[test]
fn default_config_plan_is_master_only() {
    let plan = plan_for(&obj(vec![]), "device-a");
    assert_eq!(plan.mode, WrapMode::Master);
    assert!(plan.recipients.is_empty());
    assert!(plan.identity.is_none());
}

#[test]
fn host_all_capable_true_with_malformed_recipient_redrives_false_in_rust() {
    let good = age::x25519::Identity::generate();
    let secret = good.to_string().expose_secret().to_string();
    let bogus = "age1-this-is-not-a-real-bech32-age-recipient-key-000000";
    let config = obj(vec![
        ("wrap_mode", s("per_device")),
        (
            "device_recipients",
            JsonValue::Array(vec![entry("device-a", &good.to_public().to_string()), entry("device-b", bogus)]),
        ),
        ("device_recipients_all_capable", JsonValue::Bool(true)),
        ("device_secret", s(&secret)),
    ]);
    let plan = plan_for(&config, "device-a");
    assert_eq!(plan.recipients.len(), 1);
    assert_eq!(plan.recipients[0].device_id, "device-a");
    assert_eq!(plan.mode, WrapMode::Dual);
    assert!(plan.identity.is_some());
}

#[test]
fn host_all_capable_false_is_overridden_by_rust_when_recipients_well_formed() {
    let key = age::x25519::Identity::generate();
    let config = obj(vec![
        ("wrap_mode", s("per_device")),
        ("device_recipients", JsonValue::Array(vec![entry("device-a", &key.to_public().to_string())])),
        ("device_recipients_all_capable", JsonValue::Bool(false)),
        ("device_secret", s("  AGE-SECRET-KEY-1XYZ  ")),
    ]);
    let plan = plan_for(&config, "device-a");
    assert_eq!(plan.mode, WrapMode::PerDevice);
    assert_eq!(plan.recipients.len(), 1);
    assert_eq!(plan.identity.unwrap().secret, "AGE-SECRET-KEY-1XYZ");
}

#[test]
fn inlined_secret_without_recipients_falls_back_to_master() {
    let config = obj(vec![("wrap_mode", s("dual")), ("device_secret", s("secret"))]);
    let plan = plan_for(&config, "device-a");
    assert_eq!(plan.mode, WrapMode::Master);
    assert!(plan.identity.is_none());
}

#[test]
fn inlined_recipients_all_invalid_is_reported() {
    let config = obj(vec![(
        "device_recipients",
        JsonValue::Array(vec![entry("d", "age1bad"), JsonValue::Null, JsonValue::Object(vec![])]),
    )]);
    assert!(matches!(resolve_inlined_recipients(&config), RecipientSource::InlinedNone));
    assert!(matches!(resolve_inlined_recipients(&obj(vec![])), RecipientSource::NotInlined));
}

#[test]
fn blank_secret_is_not_an_identity() {
    assert_eq!(resolve_inlined_secret(&obj(vec![("device_secret", s("   "))])), None);
    assert_eq!(resolve_inlined_secret(&obj(vec![("device_secret", JsonValue::Bool(true))])), None);
}

#[test]
fn plan_without_identity_is_master_only() {
    let r = AgeFileKeyRecipient { device_id: "a".to_string(), recipient: "age1x".to_string() };
    let plan = plan_encryption(WrapMode::PerDevice, Some((vec![r], true)), None);
    assert_eq!(plan.mode, WrapMode::Master);
    assert!(plan.recipients.is_empty());
}

#[test]
fn default_config_is_master_only_byte_identical() {
    let ctx = build_encryption_plan(&obj(vec![]), "device-a", None, None);
    assert!(ctx.recipients.is_empty(), "default config must not attach per-device recipients");
    assert!(ctx.identity.is_none(), "default config must not attach a device identity");
}

#[test]
fn explicit_disabled_is_master_only() {
    let (_, registry, secret) = provisioned("device-a");
    let ctx = build_encryption_plan(&obj(vec![("wrap_mode", s("master"))]), "device-a", registry.clone(), Some(secret.clone()));
    assert!(ctx.recipients.is_empty());
    assert!(ctx.identity.is_none());
    let ctx = build_encryption_plan(
        &obj(vec![("per_device_wrapping", JsonValue::Bool(false))]),
        "device-a",
        registry,
        Some(secret),
    );
    assert!(ctx.recipients.is_empty());
    assert!(ctx.identity.is_none());
}

#[test]
fn legacy_per_device_wrapping_true_attaches_dual_context() {
    let (_, registry, secret) = provisioned("device-a");
    let config = obj(vec![("per_device_wrapping", JsonValue::Bool(true))]);
    let ctx = build_encryption_plan(&config, "device-a", registry, Some(secret));
    assert_eq!(ctx.mode, WrapMode::Dual);
    assert_eq!(ctx.recipients.len(), 1);
    assert!(ctx.identity.is_some());
}

#[test]
fn enabled_attaches_device_identity_and_recipients() {
    let (_, registry, secret) = provisioned("device-a");
    let config = obj(vec![("wrap_mode", s("per_device"))]);
    let ctx = build_encryption_plan(&config, "device-a", registry, Some(secret));
    assert_eq!(ctx.mode, WrapMode::PerDevice);
    assert_eq!(ctx.recipients.len(), 1, "should pick up the single active device recipient");
    let identity = ctx.identity.as_ref().expect("enabled config with secret must attach a device identity");
    assert_eq!(identity.device_id, "device-a");
    assert!(identity.secret.starts_with("AGE-SECRET-KEY-"));
}

#[test]
fn enabled_without_local_secret_falls_back_to_master_only() {
    let (_, registry, _) = provisioned("device-a");
    let config = obj(vec![("wrap_mode", s("per_device"))]);
    let ctx = build_encryption_plan(&config, "device-a", registry, None);
    assert!(ctx.identity.is_none(), "missing local secret must not yield a half-wired identity");
}

#[test]
fn inlined_recipients_and_secret_are_preferred_without_fs() {
    let key = age::x25519::Identity::generate();
    let secret = key.to_string().expose_secret().to_string();
    let config = obj(vec![
        ("wrap_mode", s("per_device")),
        ("device_registry_path", s("/nonexistent/tcfs/devices.json")),
        ("device_recipients", JsonValue::Array(vec![entry("device-a", &key.to_public().to_string())])),
        ("device_recipients_all_capable", JsonValue::Bool(true)),
        ("device_secret", s(&secret)),
    ]);
    let ctx = build_encryption_plan(&config, "device-a", None, None);
    assert_eq!(ctx.mode, WrapMode::PerDevice);
    assert_eq!(ctx.recipients.len(), 1, "inlined recipient set must be used");
    assert_eq!(ctx.recipients[0].device_id, "device-a");
    let identity = ctx.identity.as_ref().expect("inlined secret must attach a device identity");
    assert_eq!(identity.device_id, "device-a");
    assert_eq!(identity.secret, secret, "inlined secret must be used verbatim (no fs read)");
}

#[test]
fn fs_path_is_used_as_fallback_when_not_inlined() {
    let (_, registry, secret) = provisioned("device-a");
    let config = obj(vec![("wrap_mode", s("per_device"))]);
    let ctx = build_encryption_plan(&config, "device-a", registry, Some(secret));
    assert_eq!(ctx.mode, WrapMode::PerDevice);
    assert_eq!(ctx.recipients.len(), 1);
    let identity = ctx.identity.as_ref().expect("fs fallback must attach a device identity");
    assert!(identity.secret.starts_with("AGE-SECRET-KEY-"));
    assert!(!identity.secret.ends_with('\n'));
}

#[test]
fn inlined_recipients_with_fs_secret_fallback() {
    let (public, _, secret) = provisioned("device-a");
    let config = obj(vec![
        ("wrap_mode", s("per_device")),
        ("device_recipients", JsonValue::Array(vec![entry("device-a", &public)])),
        ("device_recipients_all_capable", JsonValue::Bool(true)),
    ]);
    let ctx = build_encryption_plan(&config, "device-a", None, Some(secret));
    assert_eq!(ctx.mode, WrapMode::PerDevice);
    assert_eq!(ctx.recipients.len(), 1);
    let identity = ctx.identity.as_ref().expect("secret should resolve via fs fallback");
    assert!(identity.secret.starts_with("AGE-SECRET-KEY-"));
}

#[test]
fn registry_keeps_only_real_age_recipients() {
    let key = age::x25519::Identity::generate();
    let active = vec![
        ("a".to_string(), key.to_public().to_string()),
        ("b".to_string(), "age1-not-a-key".to_string()),
    ];
    let (kept, all) = registry_recipients(&active, false).unwrap();
    assert_eq!(kept.len(), 1);
    assert_eq!(kept[0].device_id, "a");
    assert!(!all);
    assert!(registry_recipients(&active[1..], true).is_none());
    assert!(registry_recipients(&[], true).is_none());
}

#[test]
fn registry_recipients_lose_to_inlined_entries() {
    let (_, registry, secret) = provisioned("device-a");
    let config = obj(vec![
        ("wrap_mode", s("dual")),
        ("device_recipients", JsonValue::Array(vec![entry("x", "age1bad")])),
    ]);
    let ctx = build_encryption_plan(&config, "device-a", registry, Some(secret));
    assert_eq!(ctx.mode, WrapMode::Master);
    assert!(ctx.recipients.is_empty());
}
