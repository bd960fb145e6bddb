use soma::dek_sync::{dek_event_ops, DekEvent, EnvelopeKeyDeks, EnvelopeKeySpec, YamlDekOp};
use soma::identity_sync::{identity_yaml_op, IdentityEvent, IdentityYamlIds, IdentityYamlOp};

fn key(id: &str, deks: Option<&[&str]>) -> EnvelopeKeyDeks {
    EnvelopeKeyDeks {
        envelope_key_id: id.to_string(),
        deks: deks.map(|d| d.iter().map(|x| x.to_string()).collect()),
    }
}

fn s(x: &str) -> String {
    x.to_string()
}

#[test]
fn alias_added_renames_a_dek_stored_by_id() {
    let yaml = Some(vec![key("k1", Some(&["dek-1"]))]);
    let ev = DekEvent::AliasAdded { alias: s("default"), dek_id: s("dek-1"), envelope_key_id: s("k1"), encrypted_key: s("enc") };
    assert_eq!(
        dek_event_ops(&yaml, &ev),
        vec![YamlDekOp::RenameDek { envelope_key_id: s("k1"), from: s("dek-1"), to: s("default") }]
    );
}

#[test]
fn alias_added_is_kept_or_added() {
    let present = Some(vec![key("k1", Some(&["default"]))]);
    let ev = DekEvent::AliasAdded { alias: s("default"), dek_id: s("dek-1"), envelope_key_id: s("k1"), encrypted_key: s("enc") };
    assert!(dek_event_ops(&present, &ev).is_empty());
    let absent = Some(vec![key("k1", Some(&[]))]);
    assert_eq!(
        dek_event_ops(&absent, &ev),
        vec![YamlDekOp::AddDek { envelope_key_id: s("k1"), name: s("default"), encrypted_key: s("enc") }]
    );
    assert_eq!(dek_event_ops(&None, &ev).len(), 1);
}

#[test]
fn alias_updated_replaces_the_entry() {
    let yaml = Some(vec![key("k1", Some(&["default", "dek-2"]))]);
    let ev = DekEvent::AliasUpdated { alias: s("default"), dek_id: s("dek-2"), envelope_key_id: s("k1"), encrypted_key: s("enc2") };
    assert_eq!(
        dek_event_ops(&yaml, &ev),
        vec![
            YamlDekOp::RemoveDek { envelope_key_id: s("k1"), name: s("default") },
            YamlDekOp::AddDek { envelope_key_id: s("k1"), name: s("default"), encrypted_key: s("enc2") },
        ]
    );
    let by_id = Some(vec![key("k1", Some(&["dek-2"]))]);
    assert_eq!(
        dek_event_ops(&by_id, &ev),
        vec![YamlDekOp::RenameDek { envelope_key_id: s("k1"), from: s("dek-2"), to: s("default") }]
    );
}

#[test]
fn alias_removed_from_the_first_key_holding_it() {
    let yaml = Some(vec![key("k1", None), key("k2", Some(&["x"])), key("k3", Some(&["x"]))]);
    let ev = DekEvent::AliasRemoved { alias: s("x") };
    assert_eq!(dek_event_ops(&yaml, &ev), vec![YamlDekOp::RemoveDek { envelope_key_id: s("k2"), name: s("x") }]);
    assert!(dek_event_ops(&yaml, &DekEvent::AliasRemoved { alias: s("y") }).is_empty());
}

#[test]
fn migration_moves_the_dek() {
    let yaml = Some(vec![key("from", Some(&["default"])), key("to", Some(&["new-id"]))]);
    let ev = DekEvent::DekMigrated {
        old_dek_id: s("old-id"),
        new_dek_id: s("new-id"),
        from_envelope_key_id: s("from"),
        to_envelope_key_id: s("to"),
        aliases: vec![s("default")],
    };
    assert_eq!(
        dek_event_ops(&yaml, &ev),
        vec![
            YamlDekOp::RemoveDek { envelope_key_id: s("from"), name: s("default") },
            YamlDekOp::RenameDek { envelope_key_id: s("to"), from: s("new-id"), to: s("default") },
        ]
    );
}

#[test]
fn envelope_keys_and_plain_dek_events() {
    let add = DekEvent::EnvelopeKeyAdded { key: EnvelopeKeySpec::Local { file_name: s("local.bin") } };
    assert_eq!(
        dek_event_ops(&None, &add),
        vec![YamlDekOp::AddEnvelopeKey { key: EnvelopeKeySpec::Local { file_name: s("local.bin") } }]
    );
    let rm = DekEvent::EnvelopeKeyRemoved { envelope_key_id: s("arn:aws:kms:r:1:key/a") };
    assert_eq!(dek_event_ops(&None, &rm), vec![YamlDekOp::RemoveEnvelopeKey { envelope_key_id: s("arn:aws:kms:r:1:key/a") }]);
    assert!(dek_event_ops(&None, &DekEvent::DekAdded { dek_id: s("d") }).is_empty());
    assert!(dek_event_ops(&None, &DekEvent::DekRemoved { dek_id: s("d") }).is_empty());
}

#[test]
fn identity_events_keep_what_the_file_holds() {
    let yaml = IdentityYamlIds {
        api_keys: Some(vec![s("k1")]),
        sts_configurations: None,
        user_auth_flows: Some(vec![]),
    };
    assert_eq!(identity_yaml_op(&yaml, &IdentityEvent::ApiKeyCreated { id: s("k1") }), None);
    assert_eq!(
        identity_yaml_op(&yaml, &IdentityEvent::ApiKeyCreated { id: s("k2") }),
        Some(IdentityYamlOp::AddApiKey { id: s("k2") })
    );
    assert_eq!(
        identity_yaml_op(&yaml, &IdentityEvent::ApiKeyDeleted { id: s("k1") }),
        Some(IdentityYamlOp::RemoveApiKey { id: s("k1") })
    );
    assert_eq!(identity_yaml_op(&yaml, &IdentityEvent::StsConfigCreated { id: s("dev"), dev_mode: true }), None);
    assert_eq!(
        identity_yaml_op(&yaml, &IdentityEvent::StsConfigCreated { id: s("jwt"), dev_mode: false }),
        Some(IdentityYamlOp::AddStsConfig { id: s("jwt") })
    );
    assert_eq!(
        identity_yaml_op(&yaml, &IdentityEvent::UserAuthFlowCreated { id: s("google") }),
        Some(IdentityYamlOp::AddUserAuthFlow { id: s("google") })
    );
    assert_eq!(
        identity_yaml_op(&yaml, &IdentityEvent::UserAuthFlowDeleted { id: s("google") }),
        Some(IdentityYamlOp::RemoveUserAuthFlow { id: s("google") })
    );
    assert_eq!(
        identity_yaml_op(&yaml, &IdentityEvent::StsConfigDeleted { id: s("jwt") }),
        Some(IdentityYamlOp::RemoveStsConfig { id: s("jwt") })
    );
}
