use devinventory::crypto::MasterKey;
use devinventory::crypto_service::CryptoService;
use devinventory::db::Repository;
use devinventory::errors::SecretError;
use devinventory::service::SecretService;

fn get_err(r: Result<devinventory::domain::Secret, SecretError>) -> SecretError {
    match r {
        Err(e) => e,
        Ok(_) => panic!("an error was expected"),
    }
}

fn service_with_key(byte: u8) -> SecretService {
    SecretService::new(
        Repository::new(),
        CryptoService::new(MasterKey::new([byte; 32])),
    )
}

#[test]
fn end_to_end_add_fetch_rotate_delete() {
    let mut repo = Repository::new();
    let crypto1 = CryptoService::new(MasterKey::new([1u8; 32]));
    let crypto2 = CryptoService::new(MasterKey::new([2u8; 32]));

    // add "api" -> "secret-token" under the first key
    let added = {
        let cipher = crypto1.create_secret_crypto();
        let ct = cipher.encrypt("api", b"secret-token").unwrap();
        repo.upsert_secret("api", Some("token".into()), None, &ct, 7, 100)
    };
    assert_eq!(added.name, "api");

    // fetch returns the plaintext
    let mut service = SecretService::new(repo, crypto1);
    let secret = service.get_secret("api").unwrap();
    assert_eq!(secret.plaintext, b"secret-token");

    // rotate to the second key; fetching through a second-key session
    // returns the same plaintext
    service.rotate_master_key(CryptoService::new(MasterKey::new([2u8; 32]))).unwrap();
    {
        let rows = {
            let mut out = Vec::new();
            for rec in service.list_secrets() {
                assert_eq!(rec.name, "api");
                out.push(rec);
            }
            out
        };
        assert_eq!(rows.len(), 1);
    }
    // the old-key session can no longer read it
    assert_eq!(
        get_err(service.get_secret("api")),
        SecretError::AuthenticationFailed
    );

    // a fresh session under the new key reads it back
    let mut service2 = {
        let reloaded = Repository::load(service.export_records()).unwrap();
        SecretService::new(reloaded, crypto2)
    };
    let secret2 = service2.get_secret("api").unwrap();
    assert_eq!(secret2.plaintext, b"secret-token");

    // delete reports that a record went; a second delete reports none did;
    // fetch then reports not found
    assert!(service2.delete_secret("api").unwrap());
    assert!(!service2.delete_secret("api").unwrap());
    assert_eq!(
        get_err(service2.get_secret("api")),
        SecretError::RecordNotFound
    );
}

#[test]
fn add_secret_reports_the_stored_record() {
    let mut service = service_with_key(1);
    let secret = service
        .add_secret("db".into(), b"hunter2".to_vec(), Some("password".into()), Some("prod".into()))
        .unwrap();
    assert_eq!(secret.name, "db");
    assert_eq!(secret.plaintext, b"hunter2");
    assert_eq!(secret.kind.as_deref(), Some("password"));
    assert_eq!(secret.note.as_deref(), Some("prod"));
    let metadata = secret.to_metadata();
    assert_eq!(metadata.id, secret.id);
    assert_eq!(metadata.name, "db");
}

#[test]
fn add_twice_updates_in_place() {
    let mut service = service_with_key(1);
    let first = service.add_secret("db".into(), b"one".to_vec(), None, None).unwrap();
    let second = service.add_secret("db".into(), b"two".to_vec(), None, None).unwrap();
    assert_eq!(second.id, first.id);
    assert_eq!(second.created_at, first.created_at);
    let fetched = service.get_secret("db").unwrap();
    assert_eq!(fetched.plaintext, b"two");
    assert_eq!(service.list_secrets().len(), 1);
}

#[test]
fn get_missing_secret_is_not_found() {
    let service = service_with_key(1);
    assert_eq!(
        get_err(service.get_secret("nothing")),
        SecretError::RecordNotFound
    );
}

#[test]
fn search_through_the_service() {
    let mut service = service_with_key(1);
    service.add_secret("Alpha".into(), b"a".to_vec(), Some("Token".into()), None).unwrap();
    service.add_secret("beta".into(), b"b".to_vec(), None, Some("alphabet".into())).unwrap();
    service.add_secret("gamma".into(), b"c".to_vec(), None, None).unwrap();

    let hits: Vec<String> = service.search_secrets("ALPHA").into_iter().map(|m| m.name).collect();
    assert_eq!(hits, vec!["Alpha", "beta"]);
}
