use ai_protect::engine::policy::store::valkey::{
    draw_instance, ignores_tls, instance_text, KeyOutcome, ValkeyError, ValkeyStore, ValkeyTlsConfig, ValkeyTlsFiles,
};

fn no_files() -> ValkeyTlsFiles {
    ValkeyTlsFiles { ca: None, client_cert: None, client_key: None }
}

fn store_of(instance: &str) -> ValkeyStore {
    ValkeyStore::open(
        "redis://127.0.0.1:6379",
        "ai_protect".into(),
        ValkeyTlsConfig::default(),
        no_files(),
        instance.into(),
    )
    .ok()
    .expect("the URL names a service")
}

fn store() -> ValkeyStore {
    store_of("a1")
}

#[test]
fn open_rejects_an_invalid_url_without_connecting() {
    let result = ValkeyStore::open(
        "not-a-url",
        "ai_protect".into(),
        ValkeyTlsConfig::default(),
        no_files(),
        "a1".into(),
    );

    assert!(matches!(result, Err(ValkeyError::InvalidUrl)));
}

#[test]
fn history_key_is_namespaced_by_prefix_and_identity() {
    assert_eq!(store().history_key("alice"), "ai_protect:history:alice");
}

#[test]
fn open_rejects_a_client_cert_without_a_matching_key() {
    let tls = ValkeyTlsConfig {
        ca_file: None,
        client_cert_file: Some("cert.pem".into()),
        client_key_file: None,
    };

    let result = ValkeyStore::open(
        "rediss://127.0.0.1:6379",
        "ai_protect".into(),
        tls,
        no_files(),
        "a1".into(),
    );
    let Err(err) = result else {
        panic!("expected an error");
    };

    assert!(err.message().contains("must be set together"));
    assert_eq!(err, ValkeyError::UnpairedClientCert);
}

#[test]
fn certificates_that_cannot_be_read_are_an_error() {
    let tls = ValkeyTlsConfig {
        ca_file: None,
        client_cert_file: Some("cert.pem".into()),
        client_key_file: Some("key.pem".into()),
    };
    let files = ValkeyTlsFiles {
        ca: None,
        client_cert: Some(b"no certificate".to_vec()),
        client_key: Some(b"no key".to_vec()),
    };

    let result = ValkeyStore::open(
        "rediss://127.0.0.1:6379",
        "ai_protect".into(),
        tls,
        files,
        "a1".into(),
    );

    match result {
        Err(err) => {
            assert_eq!(err, ValkeyError::InvalidTls);
            assert_eq!(err.message(), "building TLS-enabled Valkey/Redis client");
        }
        Ok(_) => panic!("expected an error"),
    }
}

#[test]
fn tls_settings_are_ignored_for_a_plain_url() {
    for (ca_file, client_cert_file) in
        [(Some("ca.pem".to_string()), None), (None, Some("cert.pem".to_string()))]
    {
        let tls = ValkeyTlsConfig { ca_file, client_cert_file, client_key_file: None };

        let store = ValkeyStore::open(
            "redis://127.0.0.1:6379",
            "ai_protect".into(),
            tls,
            no_files(),
            "a1".into(),
        )
        .ok()
        .expect("the URL names a service");

        let address = store.client().get_connection_info().addr().to_string();
        assert_eq!(address, "127.0.0.1:6379");
    }
    assert!(ignores_tls("redis://127.0.0.1:6379"));
    assert!(!ignores_tls("rediss://127.0.0.1:6379"));
    assert!(!ignores_tls("redis"));
}

#[test]
fn the_client_is_the_one_for_the_url() {
    let address = store().client().get_connection_info().addr().to_string();

    assert_eq!(address, "127.0.0.1:6379");
}

#[test]
fn events_of_the_same_moment_are_different_members() {
    let mut store = store();

    let additions =
        store.additions(&vec![("alice".to_string(), 1_000), ("alice".to_string(), 1_000)]);

    assert_eq!(additions.len(), 2);
    assert_eq!(additions[0].key, "ai_protect:history:alice");
    assert_eq!(additions[0].member, "a1-1000-0");
    assert_eq!(additions[1].member, "a1-1000-1");
    assert_eq!(additions[0].score, 1_000);
    let more = store.additions(&vec![("bob".to_string(), -5)]);
    assert_eq!(more[0].member, "a1--5-2");
}

#[test]
fn keys_are_folded_into_rows() {
    let store = store();

    assert_eq!(store.key_pattern(), "ai_protect:history:*");
    assert_eq!(store.cutoff_bound(1_200), "1200");
    assert!(matches!(store.fold_key("ai_protect:history:alice", 0, vec![]), KeyOutcome::Delete));
    assert!(matches!(store.fold_key("other:history:alice", 1, vec![7]), KeyOutcome::Skip));
    match store.fold_key("ai_protect:history:alice", 2, vec![7, 9]) {
        KeyOutcome::Row(identity, timestamps) => {
            assert_eq!(identity, "alice");
            assert_eq!(timestamps, vec![7, 9]);
        }
        other => panic!("expected a row, got {other:?}"),
    }
}

#[test]
fn instances_do_not_overwrite_each_other() {
    let events = vec![("alice".to_string(), 1_000)];

    let one = store_of("a1").additions(&events);
    let other = store_of("b2").additions(&events);

    assert_eq!(one[0].key, other[0].key);
    assert_eq!(one[0].member, "a1-1000-0");
    assert_eq!(other[0].member, "b2-1000-0");
}

#[test]
fn instances_are_numbered_in_one_length() {
    assert_eq!(instance_text(0), "00000000000000000000000000000000");
    assert_eq!(instance_text(0xbeef), "0000000000000000000000000000beef");
    assert_eq!(instance_text(u128::MAX), "ffffffffffffffffffffffffffffffff");
    let drawn = draw_instance();
    assert_eq!(drawn.len(), 32);
    assert_ne!(drawn, draw_instance());
}

#[test]
fn cutoffs_before_the_epoch_are_negative() {
    assert_eq!(store().cutoff_bound(-7), "-7");
}
