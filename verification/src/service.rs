use vstd::prelude::*;

use crate::crypto::{decrypt_spec, is_encryption_of, MAX_PLAINTEXT_LEN};
use crate::crypto_service::CryptoService;
use crate::db::{
    find_name, lemma_find_name_props, lemma_remove_clears_name, lemma_sorted_names_unique,
    lower_of, rotated_record, search_results, upsert_model, upserted_record, RecordView,
    Repository, SecretRecord,
};
use crate::domain::{clone_opt_string, Secret, SecretMetadata};
use crate::errors::SecretError;

verus! {

/// Relies on chrono's `Utc::now` and `DateTime::timestamp_millis` for the
/// current time. Nothing is promised of the value: it depends on the clock.
#[verifier::external_body]
fn now_millis() -> (r: i64) {
    chrono::Utc::now().timestamp_millis()
}

/// Relies on uuid's `Uuid::new_v4` and `Uuid::as_u128` for a fresh record
/// identifier. Nothing is promised of the value: it depends on the generator.
#[verifier::external_body]
fn fresh_record_id() -> (r: u128) {
    uuid::Uuid::new_v4().as_u128()
}

/// A stored record carries exactly the fields of this secret, with the given
/// ciphertext standing in for the plaintext.
pub open spec fn secret_as_record(secret: Secret, ciphertext: Seq<u8>) -> RecordView {
    RecordView {
        id: secret.id,
        name: secret.name@,
        kind: secret.kind.deep_view(),
        note: secret.note.deep_view(),
        ciphertext,
        created_at: secret.created_at,
        updated_at: secret.updated_at,
    }
}

/// This metadata is exactly what the record shows once its ciphertext is set
/// aside.
pub open spec fn metadata_of(rv: RecordView, m: SecretMetadata) -> bool {
    &&& m.id == rv.id
    &&& m.name@ == rv.name
    &&& m.kind.deep_view() == rv.kind
    &&& m.note.deep_view() == rv.note
    &&& m.created_at == rv.created_at
    &&& m.updated_at == rv.updated_at
}

/// Every record of `post` is the record of `pre` re-encrypted from the old
/// key to the new key at one update time.
pub open spec fn rotation_of(
    old_key: Seq<u8>,
    new_key: Seq<u8>,
    now: i64,
    pre: Seq<RecordView>,
    post: Seq<RecordView>,
) -> bool {
    &&& pre.len() == post.len()
    &&& forall|i: int| 0 <= i < pre.len() ==> rotated_record(
        old_key,
        new_key,
        now,
        #[trigger] pre[i],
        post[i],
    )
}

/// The store and the session's crypto service, threaded together through one
/// command invocation; no ambient key state.
pub struct SecretService {
    repo: Repository,
    crypto_service: CryptoService,
}

impl SecretService {
    /// The session's master key bytes.
    pub closed spec fn key(&self) -> Seq<u8> {
        self.crypto_service@
    }

    /// The stored records.
    pub closed spec fn records(&self) -> Seq<RecordView> {
        self.repo@
    }

    /// The store is well formed.
    pub closed spec fn wf(&self) -> bool {
        self.repo.wf()
    }

    /// Wrap an already-connected store and an already-resolved crypto service.
    pub fn new(repo: Repository, crypto_service: CryptoService) -> (r: Self)
        requires
            repo.wf(),
        ensures
            r.wf(),
            r.key() == crypto_service@,
            r.records() == repo@,
    {
        SecretService { repo, crypto_service }
    }

    /// Encrypt a value under the session key, bound to its name, and insert
    /// or replace the record of that name. Returns the stored record together
    /// with the plaintext it was given.
    pub fn add_secret(
        &mut self,
        name: String,
        value: Vec<u8>,
        kind: Option<String>,
        note: Option<String>,
    ) -> (r: Result<Secret, SecretError>)
        requires
            old(self).wf(),
            value@.len() <= MAX_PLAINTEXT_LEN,
        ensures
            final(self).wf(),
            final(self).key() == old(self).key(),
            r matches Ok(secret) && secret.plaintext@ == value@ && secret.name@ == name@
                && secret.kind.deep_view() == kind.deep_view() && secret.note.deep_view()
                == note.deep_view() && (exists|ct: Seq<u8>, id: u128, now: i64|
                {
                    &&& is_encryption_of(old(self).key(), name@, value@, ct)
                    &&& #[trigger] upsert_model(
                        old(self).records(),
                        name@,
                        kind.deep_view(),
                        note.deep_view(),
                        ct,
                        id,
                        now,
                    ) == final(self).records()
                    &&& (match find_name(old(self).records(), name@) {
                        Some(i) => secret_as_record(secret, ct) == upserted_record(
                            old(self).records()[i],
                            kind.deep_view(),
                            note.deep_view(),
                            ct,
                            now,
                        ),
                        None => secret_as_record(secret, ct) == (RecordView {
                            id,
                            name: name@,
                            kind: kind.deep_view(),
                            note: note.deep_view(),
                            ciphertext: ct,
                            created_at: now,
                            updated_at: now,
                        }),
                    })
                }),
    {
        let now = now_millis();
        let id = fresh_record_id();
        let ciphertext = match self.crypto_service.encrypt(name.as_str(), value.as_slice()) {
            Ok(ct) => ct,
            Err(e) => {
                proof {
                    assert(false);
                }
                return Err(e);
            },
        };
        let record = self.repo.upsert_secret(
            name.as_str(),
            clone_opt_string(&kind),
            clone_opt_string(&note),
            ciphertext.as_slice(),
            id,
            now,
        );
        let ghost recv = record@;
        let result = Secret {
            id: record.id,
            name: record.name,
            kind: record.kind,
            note: record.note,
            plaintext: value,
            created_at: record.created_at,
            updated_at: record.updated_at,
        };
        proof {
            lemma_find_name_props(old(self).records(), name@);
            assert(secret_as_record(result, ciphertext@) =~= recv);
            assert(upsert_model(
                old(self).records(),
                name@,
                kind.deep_view(),
                note.deep_view(),
                ciphertext@,
                id,
                now,
            ) == self.records());
        }
        Ok(result)
    }

    /// Fetch the record of `name` and decrypt it under the session key; the
    /// plaintext exists only for this call's result. An absent name is
    /// `RecordNotFound`; a record that does not decrypt reports why.
    pub fn get_secret(&self, name: &str) -> (r: Result<Secret, SecretError>)
        requires
            self.wf(),
        ensures
            match find_name(self.records(), name@) {
                None => r matches Err(e) && e == SecretError::RecordNotFound,
                Some(i) => match decrypt_spec(
                    self.key(),
                    self.records()[i].name,
                    self.records()[i].ciphertext,
                ) {
                    Ok(pt) => r matches Ok(secret) && secret.plaintext@ == pt
                        && secret_as_record(secret, self.records()[i].ciphertext)
                        == self.records()[i],
                    Err(e) => r matches Err(e2) && e2 == e,
                },
            },
    {
        let record = match self.repo.fetch_secret(name) {
            Some(record) => record,
            None => {
                return Err(SecretError::RecordNotFound);
            },
        };
        let plaintext = match self.crypto_service.decrypt(
            record.name.as_str(),
            record.ciphertext.as_slice(),
        ) {
            Ok(pt) => pt,
            Err(e) => {
                return Err(e);
            },
        };
        let ghost recv = record@;
        let result = Secret {
            id: record.id,
            name: record.name,
            kind: record.kind,
            note: record.note,
            plaintext,
            created_at: record.created_at,
            updated_at: record.updated_at,
        };
        proof {
            lemma_find_name_props(self.records(), name@);
            assert(secret_as_record(result, recv.ciphertext) =~= recv);
        }
        Ok(result)
    }

    /// The metadata of every record, in increasing name order; nothing is
    /// decrypted.
    pub fn list_secrets(&self) -> (r: Vec<SecretMetadata>)
        requires
            self.wf(),
        ensures
            r@.len() == self.records().len(),
            forall|i: int| 0 <= i < r@.len() ==> metadata_of(self.records()[i], #[trigger] r@[i]),
    {
        let records = self.repo.list_secrets();
        let mut out: Vec<SecretMetadata> = Vec::new();
        let mut i: usize = 0;
        while i < records.len()
            invariant
                i <= records@.len(),
                records@.len() == self.records().len(),
                forall|j: int| 0 <= j < records@.len() ==> (#[trigger] records@[j])@
                    == self.records()[j],
                out@.len() == i,
                forall|j: int| 0 <= j < i ==> metadata_of(self.records()[j], #[trigger] out@[j]),
            decreases records@.len() - i,
        {
            out.push(
                SecretMetadata {
                    id: records[i].id,
                    name: records[i].name.clone(),
                    kind: clone_opt_string(&records[i].kind),
                    note: clone_opt_string(&records[i].note),
                    created_at: records[i].created_at,
                    updated_at: records[i].updated_at,
                },
            );
            i = i + 1;
        }
        out
    }

    /// The metadata of every record whose lowercased name, classification or
    /// note contains the lowercased query, in increasing name order. An empty
    /// query answers every record.
    pub fn search_secrets(&self, query: &str) -> (r: Vec<SecretMetadata>)
        requires
            self.wf(),
        ensures
            r@.len() == search_results(self.records(), lower_of(query@)).len(),
            forall|i: int| 0 <= i < r@.len() ==> metadata_of(
                search_results(self.records(), lower_of(query@))[i],
                #[trigger] r@[i],
            ),
            query@.len() == 0 ==> search_results(self.records(), lower_of(query@))
                == self.records(),
    {
        let records = self.repo.search_secrets(query);
        let mut out: Vec<SecretMetadata> = Vec::new();
        let mut i: usize = 0;
        while i < records.len()
            invariant
                i <= records@.len(),
                records@.len() == search_results(self.records(), lower_of(query@)).len(),
                forall|j: int| 0 <= j < records@.len() ==> (#[trigger] records@[j])@
                    == search_results(self.records(), lower_of(query@))[j],
                out@.len() == i,
                forall|j: int| 0 <= j < i ==> metadata_of(
                    search_results(self.records(), lower_of(query@))[j],
                    #[trigger] out@[j],
                ),
            decreases records@.len() - i,
        {
            out.push(
                SecretMetadata {
                    id: records[i].id,
                    name: records[i].name.clone(),
                    kind: clone_opt_string(&records[i].kind),
                    note: clone_opt_string(&records[i].note),
                    created_at: records[i].created_at,
                    updated_at: records[i].updated_at,
                },
            );
            i = i + 1;
        }
        out
    }

    /// The stored records, cloned in increasing name order, for persistence.
    pub fn export_records(&self) -> (r: Vec<SecretRecord>)
        requires
            self.wf(),
        ensures
            r@.len() == self.records().len(),
            forall|i: int| 0 <= i < r@.len() ==> (#[trigger] r@[i])@ == self.records()[i],
    {
        self.repo.list_secrets()
    }

    /// Remove the record of `name`; report whether one was removed. An
    /// absent name is not an error.
    pub fn delete_secret(&mut self, name: &str) -> (r: Result<bool, SecretError>)
        requires
            old(self).wf(),
        ensures
            final(self).wf(),
            final(self).key() == old(self).key(),
            match find_name(old(self).records(), name@) {
                Some(i) => r == Ok::<bool, SecretError>(true) && final(self).records() == old(
                    self,
                ).records().remove(i),
                None => r == Ok::<bool, SecretError>(false) && final(self).records() == old(
                    self,
                ).records(),
            },
    {
        let removed = self.repo.delete_secret(name);
        Ok(removed)
    }

    /// The store's names are unique: a well-formed service holds at most one
    /// record per name.
    pub proof fn lemma_names_unique(&self)
        requires
            self.wf(),
        ensures
            forall|i: int, j: int|
                #![trigger self.records()[i], self.records()[j]]
                0 <= i < j < self.records().len() ==> self.records()[i].name != self.records(
                )[j].name,
    {
        lemma_sorted_names_unique(self.repo@);
    }

    /// Deleting a name deletes it entirely: removing the record `find_name`
    /// points at leaves no record carrying the name.
    pub proof fn lemma_delete_clears_name(&self, name: Seq<char>)
        requires
            self.wf(),
            find_name(self.records(), name) is Some,
        ensures
            find_name(self.records().remove(find_name(self.records(), name)->Some_0), name)
                is None,
    {
        lemma_remove_clears_name(self.repo@, name);
    }

    /// Re-encrypt every record from the session key to the new service's key,
    /// all or nothing: on any decryption failure the store is unchanged and
    /// the failure is returned. The session keeps its own key; the caller
    /// moves to the new service afterwards.
    pub fn rotate_master_key(&mut self, new_crypto_service: CryptoService) -> (r: Result<
        (),
        SecretError,
    >)
        requires
            old(self).wf(),
        ensures
            final(self).wf(),
            final(self).key() == old(self).key(),
            match r {
                Ok(()) => exists|now: i64| #[trigger] rotation_of(
                    old(self).key(),
                    new_crypto_service@,
                    now,
                    old(self).records(),
                    final(self).records(),
                ),
                Err(e) => final(self).records() == old(self).records() && (exists|i: int|
                    0 <= i < old(self).records().len() && decrypt_spec(
                        old(self).key(),
                        (#[trigger] old(self).records()[i]).name,
                        old(self).records()[i].ciphertext,
                    ) == Err::<Seq<u8>, SecretError>(e)),
            },
    {
        let now = now_millis();
        let old_crypto = self.crypto_service.create_secret_crypto();
        let new_crypto = new_crypto_service.create_secret_crypto();
        match self.repo.reencrypt_all(&old_crypto, &new_crypto, now) {
            Ok(()) => {
                proof {
                    assert(rotation_of(
                        old(self).key(),
                        new_crypto_service@,
                        now,
                        old(self).records(),
                        final(self).records(),
                    ));
                }
                Ok(())
            },
            Err(e) => Err(e),
        }
    }
}


} // verus!
