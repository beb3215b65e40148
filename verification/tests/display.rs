use devinventory::config::{Config, ConfigFile, DatabaseConfig, KeyringConfig, LoggingConfig};
use devinventory::domain::SecretMetadata;
use devinventory::keymgr::MasterKeySource;
use devinventory::errors::SecretError;
use devinventory::ui::{mask, secret_row};

#[test]
fn mask_hides_all_but_the_edges() {
    assert_eq!(mask(b""), "(empty)");
    assert_eq!(mask(b"a"), "***");
    assert_eq!(mask(b"abc"), "***");
    assert_eq!(mask(b"abcd"), "ab***cd");
    assert_eq!(mask(b"hello-secret"), "he***et");
}

#[test]
fn mask_counts_characters_not_bytes() {
    // Two multi-byte characters are still a short value.
    assert_eq!(mask("éü".as_bytes()), "***");
    assert_eq!(mask("déjà-vu".as_bytes()), "d\u{e9}***vu");
}

#[test]
fn secret_row_renders_rfc3339_times() {
    let m = SecretMetadata {
        id: 1,
        name: "api".to_string(),
        kind: None,
        note: None,
        created_at: 0,
        updated_at: 1_700_000_000_000,
    };
    let row = secret_row(&m);
    assert_eq!(row.name, "api");
    assert_eq!(row.kind, "");
    assert_eq!(row.created_at, "1970-01-01T00:00:00+00:00");
    assert_eq!(row.updated_at, "2023-11-14T22:13:20+00:00");
}

#[test]
fn config_prefers_cli_then_env_then_file_then_default() {
    let file = ConfigFile {
        database: DatabaseConfig { path: Some("/from/file.db".into()) },
        keyring: KeyringConfig { service: Some("file-svc".into()), account: None },
        logging: LoggingConfig { level: Some("debug".into()) },
    };
    let src = MasterKeySource { base64_inline: None, allow_keyring: true };
    let cfg = Config::build(
        Some("/from/cli.db".into()),
        Some("/from/env.db".into()),
        Some("env-svc".into()),
        None,
        file,
        src,
        "/default.db".into(),
    );
    assert_eq!(cfg.db_path, "/from/cli.db");
    assert_eq!(cfg.keyring_service, "env-svc");
    assert_eq!(cfg.keyring_account, "dmk");

    let file2 = ConfigFile {
        database: DatabaseConfig { path: None },
        keyring: KeyringConfig { service: None, account: Some("file-acct".into()) },
        logging: LoggingConfig { level: None },
    };
    let src2 = MasterKeySource { base64_inline: None, allow_keyring: false };
    let cfg2 = Config::build(None, None, None, None, file2, src2, "/default.db".into());
    assert_eq!(cfg2.db_path, "/default.db");
    assert_eq!(cfg2.keyring_service, "devinventory");
    assert_eq!(cfg2.keyring_account, "file-acct");
    assert!(!cfg2.master_key_source.allow_keyring);
}

#[test]
fn error_messages_are_stable() {
    assert_eq!(SecretError::CiphertextTooShort.describe(), "ciphertext too short");
    assert_eq!(SecretError::RecordNotFound.describe(), "secret not found");
}
