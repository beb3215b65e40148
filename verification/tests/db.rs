use devinventory::crypto::{MasterKey, SecretCrypto};
use devinventory::db::Repository;
use devinventory::errors::SecretError;

#[test]
fn repo_crud_and_rotate() {
    let mut repo = Repository::new();

    let key1 = MasterKey::new([1u8; 32]);
    let crypto1 = SecretCrypto::new(key1.clone());

    // create
    let ct = crypto1.encrypt("api", b"secret-token").unwrap();
    repo.upsert_secret("api", Some("token".into()), None, &ct, 100, 1_000);

    // read
    let rec = repo.fetch_secret("api").unwrap();
    let pt = crypto1.decrypt(&rec.name, &rec.ciphertext).unwrap();
    assert_eq!(pt, b"secret-token");

    // rotate
    let key2 = MasterKey::new([2u8; 32]);
    let crypto2 = SecretCrypto::new(key2.clone());
    repo.reencrypt_all(&crypto1, &crypto2, 2_000).unwrap();
    let rec2 = repo.fetch_secret("api").unwrap();
    let pt2 = crypto2.decrypt(&rec2.name, &rec2.ciphertext).unwrap();
    assert_eq!(pt2, b"secret-token");

    // delete
    assert!(repo.delete_secret("api"));
    assert!(repo.fetch_secret("api").is_none());
}

#[test]
fn upsert_same_name_preserves_identity() {
    let mut repo = Repository::new();
    let crypto = SecretCrypto::new(MasterKey::new([1u8; 32]));
    let ct1 = crypto.encrypt("api", b"first").unwrap();
    let ct2 = crypto.encrypt("api", b"second").unwrap();

    let first = repo.upsert_secret("api", Some("token".into()), None, &ct1, 100, 1_000);
    assert_eq!(first.id, 100);
    assert_eq!(first.created_at, 1_000);
    assert_eq!(first.updated_at, 1_000);

    let second = repo.upsert_secret("api", Some("cred".into()), Some("note".into()), &ct2, 999, 5_000);
    assert_eq!(second.id, 100, "id must survive an upsert of the same name");
    assert_eq!(second.created_at, 1_000, "created_at must survive");
    assert_eq!(second.updated_at, 5_000, "updated_at must be bumped");
    assert_eq!(second.kind.as_deref(), Some("cred"));
    assert_eq!(second.note.as_deref(), Some("note"));
    assert_eq!(second.ciphertext, ct2);
    assert_eq!(repo.len(), 1);
}

#[test]
fn list_is_ordered_by_name() {
    let mut repo = Repository::new();
    let crypto = SecretCrypto::new(MasterKey::new([1u8; 32]));
    for (i, name) in ["zeta", "alpha", "midway"].iter().enumerate() {
        let ct = crypto.encrypt(name, b"v").unwrap();
        repo.upsert_secret(name, None, None, &ct, i as u128, 10);
    }
    let names: Vec<String> = repo.list_secrets().into_iter().map(|r| r.name).collect();
    assert_eq!(names, vec!["alpha", "midway", "zeta"]);
}

#[test]
fn search_is_case_insensitive_over_all_fields() {
    let mut repo = Repository::new();
    let crypto = SecretCrypto::new(MasterKey::new([1u8; 32]));
    let ct = crypto.encrypt("x", b"v").unwrap();
    repo.upsert_secret("GitHub-Token", Some("token".into()), None, &ct, 1, 10);
    repo.upsert_secret("db-pass", Some("Password".into()), Some("staging ONLY".into()), &ct, 2, 10);
    repo.upsert_secret("plain", None, None, &ct, 3, 10);

    let by_name: Vec<String> = repo.search_secrets("github").into_iter().map(|r| r.name).collect();
    assert_eq!(by_name, vec!["GitHub-Token"]);

    let by_kind: Vec<String> = repo.search_secrets("passw").into_iter().map(|r| r.name).collect();
    assert_eq!(by_kind, vec!["db-pass"]);

    let by_note: Vec<String> = repo.search_secrets("only").into_iter().map(|r| r.name).collect();
    assert_eq!(by_note, vec!["db-pass"]);

    let none: Vec<String> = repo.search_secrets("absent").into_iter().map(|r| r.name).collect();
    assert!(none.is_empty());

    let all: Vec<String> = repo.search_secrets("").into_iter().map(|r| r.name).collect();
    assert_eq!(all, vec!["GitHub-Token", "db-pass", "plain"]);
}

#[test]
fn delete_is_idempotent() {
    let mut repo = Repository::new();
    let crypto = SecretCrypto::new(MasterKey::new([1u8; 32]));
    let ct = crypto.encrypt("api", b"v").unwrap();
    repo.upsert_secret("api", None, None, &ct, 1, 10);
    assert!(repo.delete_secret("api"));
    assert!(!repo.delete_secret("api"));
    assert!(!repo.delete_secret("never-existed"));
}

#[test]
fn failed_rotation_leaves_every_record_under_the_old_key() {
    let mut repo = Repository::new();
    let crypto1 = SecretCrypto::new(MasterKey::new([1u8; 32]));
    let crypto2 = SecretCrypto::new(MasterKey::new([2u8; 32]));

    for (i, name) in ["a", "b", "c"].iter().enumerate() {
        let ct = crypto1.encrypt(name, format!("value-{}", name).as_bytes()).unwrap();
        repo.upsert_secret(name, None, None, &ct, i as u128, 10);
    }
    // One record the old key cannot decrypt: rotation must change nothing.
    repo.upsert_secret("zz-corrupt", None, None, &[0u8; 40], 9, 10);

    let err = repo.reencrypt_all(&crypto1, &crypto2, 20).unwrap_err();
    assert_eq!(err, SecretError::AuthenticationFailed);

    for name in ["a", "b", "c"] {
        let rec = repo.fetch_secret(name).unwrap();
        let pt = crypto1.decrypt(&rec.name, &rec.ciphertext).unwrap();
        assert_eq!(pt, format!("value-{}", name).as_bytes());
        assert!(crypto2.decrypt(&rec.name, &rec.ciphertext).is_err());
        assert_eq!(rec.updated_at, 10, "no timestamp may move on a failed rotation");
    }
}

#[test]
fn successful_rotation_moves_every_record_to_the_new_key() {
    let mut repo = Repository::new();
    let crypto1 = SecretCrypto::new(MasterKey::new([1u8; 32]));
    let crypto2 = SecretCrypto::new(MasterKey::new([2u8; 32]));

    for (i, name) in ["a", "b", "c"].iter().enumerate() {
        let ct = crypto1.encrypt(name, format!("value-{}", name).as_bytes()).unwrap();
        repo.upsert_secret(name, Some("kind".into()), None, &ct, i as u128, 10);
    }

    repo.reencrypt_all(&crypto1, &crypto2, 20).unwrap();

    for (i, name) in ["a", "b", "c"].iter().enumerate() {
        let rec = repo.fetch_secret(name).unwrap();
        let pt = crypto2.decrypt(&rec.name, &rec.ciphertext).unwrap();
        assert_eq!(pt, format!("value-{}", name).as_bytes());
        assert_eq!(
            crypto1.decrypt(&rec.name, &rec.ciphertext).unwrap_err(),
            SecretError::AuthenticationFailed,
            "the old key must no longer decrypt"
        );
        assert_eq!(rec.id, i as u128);
        assert_eq!(rec.created_at, 10);
        assert_eq!(rec.updated_at, 20);
    }
}

#[test]
fn load_rejects_duplicate_names() {
    let mut repo = Repository::new();
    let crypto = SecretCrypto::new(MasterKey::new([1u8; 32]));
    let ct = crypto.encrypt("api", b"v").unwrap();
    repo.upsert_secret("b-api", None, None, &ct, 1, 10);
    repo.upsert_secret("a-api", None, None, &ct, 2, 11);

    let mut rows = repo.records().clone();
    let reloaded = Repository::load(rows.clone()).unwrap();
    assert_eq!(reloaded.len(), 2);
    let names: Vec<String> = reloaded.list_secrets().into_iter().map(|r| r.name).collect();
    assert_eq!(names, vec!["a-api", "b-api"]);

    rows.push(rows[0].clone());
    match Repository::load(rows) {
        Err(e) => assert_eq!(e, SecretError::DuplicateName),
        Ok(_) => panic!("duplicate names must be refused"),
    }
}
