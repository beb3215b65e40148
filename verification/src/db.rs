use vstd::prelude::*;

use crate::crypto::{decrypt_spec, SecretCrypto};
use crate::domain::clone_opt_string;
use crate::errors::SecretError;
use vstd::string::StrSliceExecFns;

verus! {

/// What lowercasing makes of a character sequence.
pub uninterp spec fn lower_of(s: Seq<char>) -> Seq<char>;

/// Relies on std's `str::to_lowercase`: the result is a function of the
/// characters alone, and empty input gives the empty string.
#[verifier::external_body]
fn str_to_lowercase(s: &str) -> (r: String)
    ensures
        r@ == lower_of(s@),
        s@.len() == 0 ==> r@.len() == 0,
{
    s.to_lowercase()
}

/// A persisted row of the store: a named, classified, annotated ciphertext
/// with its creation and last-update times.
pub struct SecretRecord {
    pub id: u128,
    pub name: String,
    pub kind: Option<String>,
    pub note: Option<String>,
    pub ciphertext: Vec<u8>,
    pub created_at: i64,
    pub updated_at: i64,
}

/// The mathematical shape of a record.
#[verifier::ext_equal]
pub ghost struct RecordView {
    pub id: u128,
    pub name: Seq<char>,
    pub kind: Option<Seq<char>>,
    pub note: Option<Seq<char>>,
    pub ciphertext: Seq<u8>,
    pub created_at: i64,
    pub updated_at: i64,
}

impl View for SecretRecord {
    type V = RecordView;

    open spec fn view(&self) -> RecordView {
        RecordView {
            id: self.id,
            name: self.name@,
            kind: self.kind.deep_view(),
            note: self.note.deep_view(),
            ciphertext: self.ciphertext@,
            created_at: self.created_at,
            updated_at: self.updated_at,
        }
    }
}

/// Copy a byte vector, keeping its contents.
fn clone_bytes(v: &Vec<u8>) -> (r: Vec<u8>)
    ensures
        r@ == v@,
{
    vstd::slice::slice_to_vec(v.as_slice())
}

impl Clone for SecretRecord {
    /// A clone carries every field unchanged.
    fn clone(&self) -> (r: Self)
        ensures
            r@ == self@,
    {
        SecretRecord {
            id: self.id,
            name: self.name.clone(),
            kind: clone_opt_string(&self.kind),
            note: clone_opt_string(&self.note),
            ciphertext: clone_bytes(&self.ciphertext),
            created_at: self.created_at,
            updated_at: self.updated_at,
        }
    }
}

/// Strict lexicographic order on names, by Unicode scalar value.
pub open spec fn lex_lt(a: Seq<char>, b: Seq<char>) -> bool
    decreases a.len(),
{
    if b.len() == 0 {
        false
    } else if a.len() == 0 {
        true
    } else if a[0] != b[0] {
        a[0] < b[0]
    } else {
        lex_lt(a.skip(1), b.skip(1))
    }
}

/// The order is irreflexive.
pub proof fn lemma_lex_lt_irrefl(a: Seq<char>)
    ensures
        !lex_lt(a, a),
    decreases a.len(),
{
    if a.len() != 0 {
        lemma_lex_lt_irrefl(a.skip(1));
    }
}

/// The order is transitive.
pub proof fn lemma_lex_lt_trans(a: Seq<char>, b: Seq<char>, c: Seq<char>)
    requires
        lex_lt(a, b),
        lex_lt(b, c),
    ensures
        lex_lt(a, c),
    decreases a.len() + b.len() + c.len(),
{
    if c.len() == 0 {
        assert(false);
    } else if b.len() == 0 {
        assert(false);
    } else if a.len() == 0 {
    } else {
        if a[0] == b[0] && b[0] == c[0] {
            lemma_lex_lt_trans(a.skip(1), b.skip(1), c.skip(1));
        }
    }
}

/// Any two names are ordered or equal.
pub proof fn lemma_lex_lt_total(a: Seq<char>, b: Seq<char>)
    ensures
        a == b || lex_lt(a, b) || lex_lt(b, a),
    decreases a.len(),
{
    if a.len() == 0 {
        if b.len() == 0 {
            assert(a =~= b);
        }
    } else if b.len() == 0 {
    } else if a[0] != b[0] {
    } else {
        lemma_lex_lt_total(a.skip(1), b.skip(1));
        if a.skip(1) == b.skip(1) {
            assert(a.skip(1).len() == a.len() - 1);
            assert(b.skip(1).len() == b.len() - 1);
            assert(a.len() == b.len());
            assert forall|i: int| 0 <= i < a.len() implies a[i] == b[i] by {
                if i >= 1 {
                    assert(a[i] == a.skip(1)[i - 1]);
                    assert(b[i] == b.skip(1)[i - 1]);
                }
            }
            assert(a =~= b);
        }
    }
}

/// Ordered names are distinct.
pub proof fn lemma_lex_lt_ne(a: Seq<char>, b: Seq<char>)
    requires
        lex_lt(a, b),
    ensures
        a != b,
{
    if a == b {
        lemma_lex_lt_irrefl(a);
    }
}

/// Compare two names in the lexicographic order.
pub fn str_lex_lt(a: &str, b: &str) -> (r: bool)
    ensures
        r == lex_lt(a@, b@),
{
    let la = a.unicode_len();
    let lb = b.unicode_len();
    let mut i: usize = 0;
    proof {
        assert(a@.skip(0) =~= a@);
        assert(b@.skip(0) =~= b@);
    }
    loop
        invariant_except_break
            i <= la,
            i <= lb,
            la == a@.len(),
            lb == b@.len(),
            forall|j: int| 0 <= j < i ==> a@[j] == b@[j],
            lex_lt(a@, b@) == lex_lt(a@.skip(i as int), b@.skip(i as int)),
        ensures
            ({
                let r: bool = lex_lt(a@, b@);
                r == (if i < la && i < lb {
                    a@[i as int] < b@[i as int]
                } else {
                    i >= la && i < lb
                })
            }),
            i <= la,
            i <= lb,
            la == a@.len(),
            lb == b@.len(),
        decreases la - i,
    {
        if i >= la || i >= lb {
            proof {
                lex_lt_at_end(a@, b@, i as int);
            }
            break;
        }
        let ca = a.get_char(i);
        let cb = b.get_char(i);
        if ca != cb {
            proof {
                lex_lt_at_diff(a@, b@, i as int);
            }
            break;
        }
        proof {
            lex_lt_step(a@, b@, i as int);
        }
        i = i + 1;
    }
    if i < la && i < lb {
        let ca = a.get_char(i);
        let cb = b.get_char(i);
        ca < cb
    } else {
        i >= la && i < lb
    }
}

/// Unfolding step: with equal prefixes, dropping one more equal character
/// keeps the order unchanged.
proof fn lex_lt_step(a: Seq<char>, b: Seq<char>, i: int)
    requires
        0 <= i < a.len(),
        i < b.len(),
        a[i] == b[i],
        lex_lt(a, b) == lex_lt(a.skip(i), b.skip(i)),
    ensures
        lex_lt(a, b) == lex_lt(a.skip(i + 1), b.skip(i + 1)),
{
    assert(a.skip(i).skip(1) =~= a.skip(i + 1));
    assert(b.skip(i).skip(1) =~= b.skip(i + 1));
    assert(a.skip(i)[0] == a[i]);
    assert(b.skip(i)[0] == b[i]);
}

/// With equal prefixes up to one side's end, the shorter name comes first.
proof fn lex_lt_at_end(a: Seq<char>, b: Seq<char>, i: int)
    requires
        0 <= i,
        i >= a.len() || i >= b.len(),
        i <= a.len(),
        i <= b.len(),
        lex_lt(a, b) == lex_lt(a.skip(i), b.skip(i)),
    ensures
        lex_lt(a, b) == (a.len() < b.len()),
{
    if i >= a.len() {
        assert(a.skip(i).len() == 0);
        if i >= b.len() {
            assert(b.skip(i).len() == 0);
        } else {
            assert(b.skip(i).len() > 0);
        }
    } else {
        assert(b.skip(i).len() == 0);
        assert(a.skip(i).len() > 0);
    }
}

/// With equal prefixes and a first differing character, that character decides.
proof fn lex_lt_at_diff(a: Seq<char>, b: Seq<char>, i: int)
    requires
        0 <= i < a.len(),
        i < b.len(),
        a[i] != b[i],
        lex_lt(a, b) == lex_lt(a.skip(i), b.skip(i)),
    ensures
        lex_lt(a, b) == (a[i] < b[i]),
{
    assert(a.skip(i)[0] == a[i]);
    assert(b.skip(i)[0] == b[i]);
    assert(a.skip(i).len() > 0);
    assert(b.skip(i).len() > 0);
}

/// Whether two names are the same sequence of characters.
pub fn str_same(a: &str, b: &str) -> (r: bool)
    ensures
        r == (a@ == b@),
{
    let ab = str_lex_lt(a, b);
    let ba = str_lex_lt(b, a);
    proof {
        lemma_lex_lt_total(a@, b@);
        if lex_lt(a@, b@) {
            lemma_lex_lt_ne(a@, b@);
        }
        if lex_lt(b@, a@) {
            lemma_lex_lt_ne(b@, a@);
        }
    }
    !ab && !ba
}


/// The index of the record with this name, if one exists: the first match.
pub open spec fn find_name(rs: Seq<RecordView>, name: Seq<char>) -> Option<int>
    decreases rs.len(),
{
    if rs.len() == 0 {
        None
    } else if rs[0].name == name {
        Some(0)
    } else {
        match find_name(rs.skip(1), name) {
            Some(i) => Some(i + 1),
            None => None,
        }
    }
}

/// Where a new name belongs in a name-sorted sequence: the first index whose
/// name is not below it.
pub open spec fn insert_pos(rs: Seq<RecordView>, name: Seq<char>) -> int
    decreases rs.len(),
{
    if rs.len() == 0 {
        0
    } else if lex_lt(rs[0].name, name) {
        1 + insert_pos(rs.skip(1), name)
    } else {
        0
    }
}

/// The records stand in strictly increasing name order, so names are unique.
pub open spec fn sorted_by_name(rs: Seq<RecordView>) -> bool {
    forall|i: int, j: int| 0 <= i < j < rs.len() ==> lex_lt(#[trigger] rs[i].name, #[trigger] rs[j].name)
}

/// What `find_name` finds: a first match within bounds, or no match at all.
pub proof fn lemma_find_name_props(rs: Seq<RecordView>, name: Seq<char>)
    ensures
        match find_name(rs, name) {
            Some(i) => 0 <= i < rs.len() && rs[i].name == name && (forall|j: int|
                0 <= j < i ==> rs[j].name != name),
            None => forall|j: int| 0 <= j < rs.len() ==> rs[j].name != name,
        },
    decreases rs.len(),
{
    if rs.len() != 0 && rs[0].name != name {
        lemma_find_name_props(rs.skip(1), name);
        assert(rs.skip(1).len() == rs.len() - 1);
        match find_name(rs.skip(1), name) {
            Some(i) => {
                assert(rs.skip(1)[i] == rs[i + 1]);
                assert forall|j: int| 0 <= j < i + 1 implies rs[j].name != name by {
                    if j >= 1 {
                        assert(rs.skip(1)[j - 1] == rs[j]);
                    }
                }
            },
            None => {
                assert forall|j: int| 0 <= j < rs.len() implies rs[j].name != name by {
                    if j >= 1 {
                        assert(rs.skip(1)[j - 1] == rs[j]);
                    }
                }
            },
        }
    }
}

/// A scan that saw every name below `p` ordered before the new name, and the
/// name at `p` (if any) not below it, found the insertion point.
pub proof fn lemma_insert_pos_at(rs: Seq<RecordView>, name: Seq<char>, p: int)
    requires
        0 <= p <= rs.len(),
        forall|j: int| 0 <= j < p ==> lex_lt(#[trigger] rs[j].name, name),
        p < rs.len() ==> !lex_lt(rs[p].name, name),
    ensures
        insert_pos(rs, name) == p,
    decreases rs.len(),
{
    if rs.len() != 0 && p != 0 {
        assert(rs.skip(1).len() == rs.len() - 1);
        assert forall|j: int| 0 <= j < rs.skip(1).len() implies rs.skip(1)[j] == rs[j + 1] by {}
        lemma_insert_pos_at(rs.skip(1), name, p - 1);
    }
}

/// The transactional store of encrypted records, held in strictly increasing
/// name order.
pub struct Repository {
    records: Vec<SecretRecord>,
}

impl View for Repository {
    type V = Seq<RecordView>;

    closed spec fn view(&self) -> Seq<RecordView> {
        Seq::new(self.records@.len(), |i: int| self.records@[i]@)
    }
}

/// The record an upsert stores over an existing row: fresh classification,
/// note, ciphertext and update time; identity and creation time kept.
pub open spec fn upserted_record(
    prev: RecordView,
    kind: Option<Seq<char>>,
    note: Option<Seq<char>>,
    ciphertext: Seq<u8>,
    now: i64,
) -> RecordView {
    RecordView {
        id: prev.id,
        name: prev.name,
        kind,
        note,
        ciphertext,
        created_at: prev.created_at,
        updated_at: now,
    }
}

/// What an upsert makes of the store: replace the record that carries the
/// name, or insert a fresh one at its sorted position.
pub open spec fn upsert_model(
    rs: Seq<RecordView>,
    name: Seq<char>,
    kind: Option<Seq<char>>,
    note: Option<Seq<char>>,
    ciphertext: Seq<u8>,
    id: u128,
    now: i64,
) -> Seq<RecordView> {
    match find_name(rs, name) {
        Some(i) => rs.update(i, upserted_record(rs[i], kind, note, ciphertext, now)),
        None => rs.insert(
            insert_pos(rs, name),
            (RecordView { id, name, kind, note, ciphertext, created_at: now, updated_at: now }),
        ),
    }
}

impl Repository {
    /// The store keeps its records sorted by name.
    pub open spec fn wf(&self) -> bool {
        sorted_by_name(self@)
    }

    /// An empty store.
    pub fn new() -> (r: Self)
        ensures
            r.wf(),
            r@ == Seq::<RecordView>::empty(),
    {
        let r = Repository { records: Vec::new() };
        proof {
            assert(r@ =~= Seq::<RecordView>::empty());
        }
        r
    }

    /// How many records the store holds.
    pub fn len(&self) -> (r: usize)
        ensures
            r == self@.len(),
    {
        self.records.len()
    }

    /// The position of the first record whose name is not below `name`,
    /// together with whether the record there carries `name` itself.
    fn locate(&self, name: &str) -> (r: (usize, bool))
        requires
            self.wf(),
        ensures
            r.0 <= self@.len(),
            forall|j: int| 0 <= j < r.0 ==> lex_lt(#[trigger] self@[j].name, name@),
            r.0 < self@.len() ==> !lex_lt(self@[r.0 as int].name, name@),
            r.1 == (r.0 < self@.len() && self@[r.0 as int].name == name@),
            r.1 == (find_name(self@, name@) == Some(r.0 as int)),
            !r.1 ==> find_name(self@, name@) is None,
    {
        let n = self.records.len();
        let mut p: usize = 0;
        loop
            invariant_except_break
                p <= n,
                n == self@.len(),
                self.wf(),
                forall|j: int| 0 <= j < p ==> lex_lt(#[trigger] self@[j].name, name@),
            ensures
                p <= n,
                n == self@.len(),
                forall|j: int| 0 <= j < p ==> lex_lt(#[trigger] self@[j].name, name@),
                p < n ==> !lex_lt(self@[p as int].name, name@),
            decreases n - p,
        {
            if p == n {
                break;
            }
            if !str_lex_lt(self.records[p].name.as_str(), name) {
                break;
            }
            assert(self@[p as int].name == self.records@[p as int]@.name);
            p = p + 1;
        }
        let hit = if p < n {
            str_same(self.records[p].name.as_str(), name)
        } else {
            false
        };
        proof {
            lemma_find_name_props(self@, name@);
            assert forall|j: int| 0 <= j < p implies self@[j].name != name@ by {
                lemma_lex_lt_ne(self@[j].name, name@);
            }
            if hit {
                match find_name(self@, name@) {
                    Some(i) => {
                        if i < p as int {
                            assert(false);
                        } else if i > p as int {
                            assert(self@[p as int].name != name@);
                            assert(false);
                        }
                    },
                    None => {
                        assert(self@[p as int].name != name@);
                        assert(false);
                    },
                }
            } else {
                if p < n {
                    lemma_lex_lt_total(self@[p as int].name, name@);
                    assert(lex_lt(name@, self@[p as int].name));
                    assert forall|j: int| p <= j < self@.len() implies self@[j].name != name@ by {
                        if j > p {
                            lemma_lex_lt_trans(name@, self@[p as int].name, self@[j].name);
                        }
                        lemma_lex_lt_ne(name@, self@[j].name);
                    }
                }
                match find_name(self@, name@) {
                    Some(i) => {
                        assert(self@[i].name == name@);
                        assert(false);
                    },
                    None => {},
                }
            }
        }
        (p, hit)
    }
}


impl Repository {
    /// Insert a new record under `name`, or replace the existing one: a
    /// replacement keeps the record's identity and creation time and takes
    /// fresh classification, note, ciphertext and update time. Returns the
    /// record as stored.
    pub fn upsert_secret(
        &mut self,
        name: &str,
        kind: Option<String>,
        note: Option<String>,
        ciphertext: &[u8],
        id: u128,
        now: i64,
    ) -> (r: SecretRecord)
        requires
            old(self).wf(),
        ensures
            final(self).wf(),
            final(self)@ == upsert_model(
                old(self)@,
                name@,
                kind.deep_view(),
                note.deep_view(),
                ciphertext@,
                id,
                now,
            ),
            match find_name(old(self)@, name@) {
                Some(i) => r@ == upserted_record(
                    old(self)@[i],
                    kind.deep_view(),
                    note.deep_view(),
                    ciphertext@,
                    now,
                ),
                None => r@ == (RecordView {
                    id,
                    name: name@,
                    kind: kind.deep_view(),
                    note: note.deep_view(),
                    ciphertext: ciphertext@,
                    created_at: now,
                    updated_at: now,
                }),
            },
    {
        let ghost prev = self@;
        let (p, hit) = self.locate(name);
        if hit {
            let prev_id = self.records[p].id;
            let prev_created = self.records[p].created_at;
            let prev_name = self.records[p].name.clone();
            let stored = SecretRecord {
                id: prev_id,
                name: prev_name,
                kind,
                note,
                ciphertext: vstd::slice::slice_to_vec(ciphertext),
                created_at: prev_created,
                updated_at: now,
            };
            let returned = stored.clone();
            self.records[p] = stored;
            proof {
                assert(self@ =~= prev.update(
                    p as int,
                    upserted_record(prev[p as int], kind.deep_view(), note.deep_view(), ciphertext@, now),
                ));
                assert forall|i: int, j: int| 0 <= i < j < self@.len() implies lex_lt(
                    #[trigger] self@[i].name,
                    #[trigger] self@[j].name,
                ) by {
                    assert(self@[i].name == prev[i].name);
                    assert(self@[j].name == prev[j].name);
                }
            }
            returned
        } else {
            let stored = SecretRecord {
                id,
                name: name.to_owned(),
                kind,
                note,
                ciphertext: vstd::slice::slice_to_vec(ciphertext),
                created_at: now,
                updated_at: now,
            };
            let returned = stored.clone();
            self.records.insert(p, stored);
            proof {
                lemma_insert_pos_at(prev, name@, p as int);
                let ghost target = prev.insert(
                    p as int,
                    (RecordView {
                        id,
                        name: name@,
                        kind: kind.deep_view(),
                        note: note.deep_view(),
                        ciphertext: ciphertext@,
                        created_at: now,
                        updated_at: now,
                    }),
                );
                assert(self@ =~= target);
                if (p as int) < prev.len() {
                    lemma_lex_lt_total(prev[p as int].name, name@);
                    assert(prev[p as int].name != name@);
                    assert(lex_lt(name@, prev[p as int].name));
                }
                assert forall|i: int, j: int| 0 <= i < j < self@.len() implies lex_lt(
                    #[trigger] self@[i].name,
                    #[trigger] self@[j].name,
                ) by {
                    if i < p as int && j == p as int {
                    } else if i == p as int && j > p as int {
                        if j - 1 > p as int {
                            lemma_lex_lt_trans(name@, prev[p as int].name, prev[j - 1].name);
                        }
                    } else if i < p as int && j > p as int {
                        assert(lex_lt(prev[i].name, prev[j - 1].name));
                    }
                }
            }
            returned
        }
    }

    /// The record carrying `name`, or nothing. Absence is not an error.
    pub fn fetch_secret(&self, name: &str) -> (r: Option<SecretRecord>)
        requires
            self.wf(),
        ensures
            match find_name(self@, name@) {
                Some(i) => r matches Some(rec) && rec@ == self@[i],
                None => r is None,
            },
    {
        let (p, hit) = self.locate(name);
        if hit {
            Some(self.records[p].clone())
        } else {
            None
        }
    }

    /// Every record, in increasing name order; ciphertexts are carried along
    /// but nothing is decrypted.
    pub fn list_secrets(&self) -> (r: Vec<SecretRecord>)
        requires
            self.wf(),
        ensures
            r@.len() == self@.len(),
            forall|i: int| 0 <= i < r@.len() ==> (#[trigger] r@[i])@ == self@[i],
    {
        let mut out: Vec<SecretRecord> = Vec::new();
        let mut i: usize = 0;
        let n = self.records.len();
        while i < n
            invariant
                i <= n,
                n == self@.len(),
                out@.len() == i,
                forall|j: int| 0 <= j < i ==> (#[trigger] out@[j])@ == self@[j],
            decreases n - i,
        {
            out.push(self.records[i].clone());
            i = i + 1;
        }
        out
    }

    /// Remove the record carrying `name`; report whether one was removed.
    /// Deleting an absent name is not an error.
    pub fn delete_secret(&mut self, name: &str) -> (r: bool)
        requires
            old(self).wf(),
        ensures
            final(self).wf(),
            match find_name(old(self)@, name@) {
                Some(i) => r == true && final(self)@ == old(self)@.remove(i),
                None => r == false && final(self)@ == old(self)@,
            },
    {
        let ghost prev = self@;
        let (p, hit) = self.locate(name);
        if hit {
            self.records.remove(p);
            proof {
                assert(self@ =~= prev.remove(p as int));
                assert forall|i: int, j: int| 0 <= i < j < self@.len() implies lex_lt(
                    #[trigger] self@[i].name,
                    #[trigger] self@[j].name,
                ) by {
                    let pi: int = if i < p as int { i } else { i + 1 };
                    let pj: int = if j < p as int { j } else { j + 1 };
                    assert(self@[i].name == prev[pi].name);
                    assert(self@[j].name == prev[pj].name);
                }
            }
            true
        } else {
            proof {
                assert(self@ =~= prev);
            }
            false
        }
    }
}


/// One character sequence occurs contiguously inside another.
pub open spec fn is_substring(needle: Seq<char>, hay: Seq<char>) -> bool {
    exists|i: int|
        0 <= i <= hay.len() - needle.len() && #[trigger] hay.subrange(i, i + needle.len())
            == needle
}

/// Whether `hay` contains `needle` as a contiguous run of characters.
pub fn str_contains(hay: &str, needle: &str) -> (r: bool)
    ensures
        r == is_substring(needle@, hay@),
{
    let ln = needle.unicode_len();
    let lh = hay.unicode_len();
    if ln > lh {
        return false;
    }
    let mut i: usize = 0;
    while i <= lh - ln
        invariant
            ln <= lh,
            i <= lh - ln + 1,
            lh == hay@.len(),
            ln == needle@.len(),
            forall|k: int| 0 <= k < i ==> #[trigger] hay@.subrange(k, k + needle@.len())
                != needle@,
        decreases lh - ln + 1 - i,
    {
        let mut j: usize = 0;
        let mut matched = true;
        while j < ln
            invariant
                j <= ln,
                i + ln <= lh,
                lh == hay@.len(),
                ln == needle@.len(),
                matched ==> (forall|k: int| 0 <= k < j ==> hay@[i + k] == #[trigger] needle@[k]),
                !matched ==> (exists|k: int| 0 <= k < j && hay@[i + k] != #[trigger] needle@[k]),
            decreases ln - j,
        {
            if matched && hay.get_char(i + j) != needle.get_char(j) {
                matched = false;
            }
            j = j + 1;
        }
        if matched {
            proof {
                assert(hay@.subrange(i as int, i + needle@.len()) =~= needle@);
            }
            return true;
        }
        proof {
            let k = choose|k: int| 0 <= k < ln && hay@[i + k] != #[trigger] needle@[k];
            assert(hay@.subrange(i as int, i + needle@.len())[k] == hay@[i + k]);
            assert(hay@.subrange(i as int, i + needle@.len()) != needle@);
        }
        i = i + 1;
    }
    proof {
        if is_substring(needle@, hay@) {
            let w = choose|w: int|
                0 <= w <= hay@.len() - needle@.len() && #[trigger] hay@.subrange(
                    w,
                    w + needle@.len(),
                ) == needle@;
            assert(hay@.subrange(w, w + needle@.len()) != needle@);
        }
    }
    false
}

/// Whether a record answers a query: its lowercased name, classification or
/// note contains the lowercased query.
pub open spec fn record_matches(rv: RecordView, query_lower: Seq<char>) -> bool {
    ||| is_substring(query_lower, lower_of(rv.name))
    ||| (rv.kind matches Some(k) && is_substring(query_lower, lower_of(k)))
    ||| (rv.note matches Some(t) && is_substring(query_lower, lower_of(t)))
}

/// The records answering a query, keeping their stored order.
pub open spec fn search_results(rs: Seq<RecordView>, query_lower: Seq<char>) -> Seq<RecordView>
    decreases rs.len(),
{
    if rs.len() == 0 {
        Seq::empty()
    } else {
        let rest = search_results(rs.drop_last(), query_lower);
        if record_matches(rs.last(), query_lower) {
            rest.push(rs.last())
        } else {
            rest
        }
    }
}

impl Repository {
    /// Whether one stored record answers the lowercased query.
    fn matches_query(rec: &SecretRecord, query_lower: &str) -> (r: bool)
        ensures
            r == record_matches(rec@, query_lower@),
    {
        let name_low = str_to_lowercase(rec.name.as_str());
        if str_contains(name_low.as_str(), query_lower) {
            return true;
        }
        if let Some(k) = &rec.kind {
            let k_low = str_to_lowercase(k.as_str());
            if str_contains(k_low.as_str(), query_lower) {
                return true;
            }
        }
        if let Some(t) = &rec.note {
            let t_low = str_to_lowercase(t.as_str());
            if str_contains(t_low.as_str(), query_lower) {
                return true;
            }
        }
        false
    }

    /// Case-insensitive substring search over name, classification and note,
    /// in the same increasing name order as `list_secrets`. An empty query
    /// answers every record.
    pub fn search_secrets(&self, query: &str) -> (r: Vec<SecretRecord>)
        requires
            self.wf(),
        ensures
            r@.len() == search_results(self@, lower_of(query@)).len(),
            forall|i: int| 0 <= i < r@.len() ==> (#[trigger] r@[i])@ == search_results(
                self@,
                lower_of(query@),
            )[i],
            query@.len() == 0 ==> search_results(self@, lower_of(query@)) == self@,
    {
        let query_lower = str_to_lowercase(query);
        proof {
            if query@.len() == 0 {
                assert(lower_of(query@) =~= Seq::<char>::empty());
                lemma_empty_query_matches_all(self@);
            }
        }
        let mut out: Vec<SecretRecord> = Vec::new();
        let mut i: usize = 0;
        let n = self.records.len();
        while i < n
            invariant
                i <= n,
                n == self@.len(),
                query_lower@ == lower_of(query@),
                out@.len() == search_results(self@.take(i as int), query_lower@).len(),
                forall|j: int| 0 <= j < out@.len() ==> (#[trigger] out@[j])@ == search_results(
                    self@.take(i as int),
                    query_lower@,
                )[j],
            decreases n - i,
        {
            proof {
                assert(self@.take(i + 1).drop_last() =~= self@.take(i as int));
                assert(self@.take(i + 1).last() == self@[i as int]);
            }
            if Self::matches_query(&self.records[i], query_lower.as_str()) {
                out.push(self.records[i].clone());
            }
            i = i + 1;
        }
        proof {
            assert(self@.take(n as int) =~= self@);
        }
        out
    }
}

/// A well-formed store's names are unique: order implies distinctness.
pub proof fn lemma_sorted_names_unique(rs: Seq<RecordView>)
    requires
        sorted_by_name(rs),
    ensures
        forall|i: int, j: int|
            #![trigger rs[i], rs[j]]
            0 <= i < j < rs.len() ==> rs[i].name != rs[j].name,
{
    assert forall|i: int, j: int|
        #![trigger rs[i], rs[j]]
        0 <= i < j < rs.len() implies rs[i].name != rs[j].name by {
        lemma_lex_lt_ne(rs[i].name, rs[j].name);
    }
}

/// Deleting a name deletes it entirely: once the record `find_name` points at
/// is removed from a well-formed store, no record carries the name any more.
pub proof fn lemma_remove_clears_name(rs: Seq<RecordView>, name: Seq<char>)
    requires
        sorted_by_name(rs),
        find_name(rs, name) is Some,
    ensures
        find_name(rs.remove(find_name(rs, name)->Some_0), name) is None,
{
    let i = find_name(rs, name)->Some_0;
    lemma_find_name_props(rs, name);
    lemma_sorted_names_unique(rs);
    let cut = rs.remove(i);
    rs.remove_ensures(i);
    lemma_find_name_props(cut, name);
    match find_name(cut, name) {
        Some(l) => {
            if l < i {
                assert(cut[l] == rs[l]);
            } else {
                assert(cut[l] == rs[l + 1]);
            }
            assert(false);
        },
        None => {},
    }
}

/// An empty query answers every record: the search returns the whole store in
/// its stored order.
pub proof fn lemma_empty_query_matches_all(rs: Seq<RecordView>)
    ensures
        search_results(rs, Seq::<char>::empty()) == rs,
    decreases rs.len(),
{
    if rs.len() != 0 {
        lemma_empty_query_matches_all(rs.drop_last());
        assert(is_substring(Seq::<char>::empty(), lower_of(rs.last().name))) by {
            let hay = lower_of(rs.last().name);
            let needle = Seq::<char>::empty();
            assert(hay.subrange(0, 0 + needle.len() as int) =~= needle);
        }
        assert(rs.drop_last().push(rs.last()) =~= rs);
    } else {
        assert(search_results(rs, Seq::<char>::empty()) =~= rs);
    }
}

/// How one record stands after a successful rotation: same identity, name,
/// classification, note and creation time; a fresh update time; and a new
/// ciphertext that yields under the new key exactly what the old ciphertext
/// yielded under the old key.
pub open spec fn rotated_record(
    old_key: Seq<u8>,
    new_key: Seq<u8>,
    now: i64,
    prev: RecordView,
    cur: RecordView,
) -> bool {
    &&& cur.id == prev.id
    &&& cur.name == prev.name
    &&& cur.kind == prev.kind
    &&& cur.note == prev.note
    &&& cur.created_at == prev.created_at
    &&& cur.updated_at == now
    &&& decrypt_spec(old_key, prev.name, prev.ciphertext) is Ok
    &&& decrypt_spec(new_key, cur.name, cur.ciphertext) == decrypt_spec(
        old_key,
        prev.name,
        prev.ciphertext,
    )
}

/// Rotation correctness: a record that a rotation produced decrypts under the
/// new key to exactly the plaintext its predecessor held under the old key,
/// and keeps its name, identity and creation time.
pub proof fn lemma_rotated_record_preserves_plaintext(
    old_key: Seq<u8>,
    new_key: Seq<u8>,
    now: i64,
    prev: RecordView,
    cur: RecordView,
)
    requires
        rotated_record(old_key, new_key, now, prev, cur),
    ensures
        decrypt_spec(old_key, prev.name, prev.ciphertext) is Ok,
        decrypt_spec(new_key, cur.name, cur.ciphertext) == decrypt_spec(
            old_key,
            prev.name,
            prev.ciphertext,
        ),
        cur.name == prev.name,
        cur.id == prev.id,
        cur.created_at == prev.created_at,
{
}

impl Repository {
    /// Re-encrypt every record under the new key, all or nothing: if any
    /// record fails to decrypt under the old key, the store is left exactly
    /// as it was and that record's error is returned; otherwise every record
    /// is replaced in place, decrypting under the new key to the same
    /// plaintext it held under the old key.
    pub fn reencrypt_all(
        &mut self,
        old_crypto: &SecretCrypto,
        new_crypto: &SecretCrypto,
        now: i64,
    ) -> (r: Result<(), SecretError>)
        requires
            old(self).wf(),
        ensures
            final(self).wf(),
            match r {
                Ok(()) => final(self)@.len() == old(self)@.len() && (forall|i: int|
                    0 <= i < old(self)@.len() ==> rotated_record(
                        old_crypto@,
                        new_crypto@,
                        now,
                        #[trigger] old(self)@[i],
                        final(self)@[i],
                    )),
                Err(e) => final(self)@ == old(self)@ && (exists|i: int|
                    0 <= i < old(self)@.len() && decrypt_spec(
                        old_crypto@,
                        (#[trigger] old(self)@[i]).name,
                        old(self)@[i].ciphertext,
                    ) == Err::<Seq<u8>, SecretError>(e)),
            },
    {
        let n = self.records.len();
        let mut fresh: Vec<SecretRecord> = Vec::new();
        let mut i: usize = 0;
        while i < n
            invariant
                i <= n,
                n == self@.len(),
                self.wf(),
                self@ == old(self)@,
                fresh@.len() == i,
                forall|j: int| 0 <= j < i ==> rotated_record(
                    old_crypto@,
                    new_crypto@,
                    now,
                    self@[j],
                    (#[trigger] fresh@[j])@,
                ),
            decreases n - i,
        {
            let plaintext = match old_crypto.decrypt(
                self.records[i].name.as_str(),
                self.records[i].ciphertext.as_slice(),
            ) {
                Ok(pt) => pt,
                Err(e) => {
                    proof {
                        assert(old(self)@[i as int].name == self.records@[i as int]@.name);
                        assert(decrypt_spec(
                            old_crypto@,
                            old(self)@[i as int].name,
                            old(self)@[i as int].ciphertext,
                        ) == Err::<Seq<u8>, SecretError>(e));
                    }
                    return Err(e);
                },
            };
            let new_ct = match new_crypto.encrypt(
                self.records[i].name.as_str(),
                plaintext.as_slice(),
            ) {
                Ok(ct) => ct,
                Err(e) => {
                    proof {
                        assert(false);
                    }
                    return Err(e);
                },
            };
            let stored = SecretRecord {
                id: self.records[i].id,
                name: self.records[i].name.clone(),
                kind: clone_opt_string(&self.records[i].kind),
                note: clone_opt_string(&self.records[i].note),
                ciphertext: new_ct,
                created_at: self.records[i].created_at,
                updated_at: now,
            };
            fresh.push(stored);
            i = i + 1;
        }
        let ghost prev = self@;
        self.records = fresh;
        proof {
            assert(self@.len() == prev.len());
            assert forall|i2: int, j2: int| 0 <= i2 < j2 < self@.len() implies lex_lt(
                #[trigger] self@[i2].name,
                #[trigger] self@[j2].name,
            ) by {
                assert(self@[i2].name == prev[i2].name);
                assert(self@[j2].name == prev[j2].name);
            }
        }
        Ok(())
    }
}


/// Where `insert_pos` points in a sorted sequence: past every name below the
/// new one, at the first name not below it.
pub proof fn lemma_insert_pos_props(rs: Seq<RecordView>, name: Seq<char>)
    ensures
        0 <= insert_pos(rs, name) <= rs.len(),
        forall|j: int| 0 <= j < insert_pos(rs, name) ==> lex_lt(#[trigger] rs[j].name, name),
        insert_pos(rs, name) < rs.len() ==> !lex_lt(rs[insert_pos(rs, name)].name, name),
    decreases rs.len(),
{
    if rs.len() != 0 && lex_lt(rs[0].name, name) {
        lemma_insert_pos_props(rs.skip(1), name);
        assert(rs.skip(1).len() == rs.len() - 1);
        assert forall|j: int| 0 <= j < insert_pos(rs, name) implies lex_lt(
            #[trigger] rs[j].name,
            name,
        ) by {
            if j >= 1 {
                assert(rs.skip(1)[j - 1] == rs[j]);
            }
        }
        if insert_pos(rs, name) < rs.len() {
            assert(rs.skip(1)[insert_pos(rs, name) - 1] == rs[insert_pos(rs, name)]);
        }
    }
}

/// Upserting a name, then upserting the same name again, leaves one record
/// for it: the second upsert keeps the identity and creation time the first
/// produced, installs the second ciphertext, classification, note and update
/// time, and touches no other record.
pub proof fn lemma_upsert_same_name_twice(
    rs: Seq<RecordView>,
    name: Seq<char>,
    kind1: Option<Seq<char>>,
    note1: Option<Seq<char>>,
    ct1: Seq<u8>,
    id1: u128,
    t1: i64,
    kind2: Option<Seq<char>>,
    note2: Option<Seq<char>>,
    ct2: Seq<u8>,
    id2: u128,
    t2: i64,
)
    requires
        sorted_by_name(rs),
    ensures
        ({
            let rs1 = upsert_model(rs, name, kind1, note1, ct1, id1, t1);
            let rs2 = upsert_model(rs1, name, kind2, note2, ct2, id2, t2);
            &&& find_name(rs1, name) is Some
            &&& {
                let j = find_name(rs1, name)->Some_0;
                &&& rs2.len() == rs1.len()
                &&& rs2[j].id == rs1[j].id
                &&& rs2[j].created_at == rs1[j].created_at
                &&& rs2[j].name == name
                &&& rs2[j].kind == kind2
                &&& rs2[j].note == note2
                &&& rs2[j].ciphertext == ct2
                &&& rs2[j].updated_at == t2
                &&& forall|l: int| 0 <= l < rs2.len() && l != j ==> rs2[l] == rs1[l]
            }
        }),
{
    let rs1 = upsert_model(rs, name, kind1, note1, ct1, id1, t1);
    lemma_find_name_props(rs, name);
    match find_name(rs, name) {
        Some(i) => {
            lemma_find_name_props(rs1, name);
            assert(rs1[i].name == name);
            match find_name(rs1, name) {
                Some(j) => {
                    if j < i {
                        assert(rs1[j].name == rs[j].name);
                        assert(false);
                    } else if j > i {
                        assert(false);
                    }
                },
                None => {
                    assert(false);
                },
            }
        },
        None => {
            lemma_insert_pos_props(rs, name);
            let p = insert_pos(rs, name);
            assert(rs1 == rs.insert(p, (RecordView {
                id: id1,
                name,
                kind: kind1,
                note: note1,
                ciphertext: ct1,
                created_at: t1,
                updated_at: t1,
            })));
            assert(rs1[p].name == name);
            lemma_find_name_props(rs1, name);
            match find_name(rs1, name) {
                Some(j) => {
                    if j < p {
                        assert(rs1[j] == rs[j]);
                        lemma_lex_lt_ne(rs[j].name, name);
                        assert(false);
                    } else if j > p {
                        assert(false);
                    }
                },
                None => {
                    assert(false);
                },
            }
        },
    }
}

/// Every one of the first `k` input records appears in the rebuilt store.
#[verifier::opaque]
pub open spec fn loaded_upto(records: Seq<SecretRecord>, repo: Seq<RecordView>, k: int) -> bool {
    forall|j: int| 0 <= j < k ==> exists|i: int|
        0 <= i < repo.len() && repo[i] == (#[trigger] records[j])@
}

/// Every record of the rebuilt store is one of the first `k` input records.
#[verifier::opaque]
pub open spec fn sourced_upto(records: Seq<SecretRecord>, repo: Seq<RecordView>, k: int) -> bool {
    forall|i: int| 0 <= i < repo.len() ==> exists|j: int|
        0 <= j < k && (#[trigger] repo[i]) == records[j]@
}

/// One load step: inserting the `k`-th input record into the rebuilt store
/// keeps both directions of the correspondence between inputs and store.
proof fn lemma_load_step(
    records: Seq<SecretRecord>,
    prev: Seq<RecordView>,
    cur: Seq<RecordView>,
    k: int,
    p: int,
    recv: RecordView,
)
    requires
        0 <= k < records.len(),
        recv == records[k]@,
        0 <= p <= prev.len(),
        cur == prev.insert(p, recv),
        loaded_upto(records, prev, k),
        sourced_upto(records, prev, k),
    ensures
        loaded_upto(records, cur, k + 1),
        sourced_upto(records, cur, k + 1),
{
    reveal(loaded_upto);
    reveal(sourced_upto);
    prev.insert_ensures(p, recv);
    assert forall|j: int| 0 <= j < k + 1 implies exists|i: int|
        0 <= i < cur.len() && cur[i] == (#[trigger] records[j])@ by {
        if j < k {
            let i0 = choose|i0: int| 0 <= i0 < prev.len() && prev[i0] == (#[trigger] records[j])@;
            if i0 < p {
                assert(cur[i0] == prev[i0]);
            } else {
                assert(cur[i0 + 1] == prev[i0]);
            }
        } else {
            assert(cur[p] == recv);
        }
    }
    assert forall|i: int| 0 <= i < cur.len() implies exists|j: int|
        0 <= j < k + 1 && (#[trigger] cur[i]) == records[j]@ by {
        if i < p {
            assert(cur[i] == prev[i]);
            let j0 = choose|j: int| 0 <= j < k && (#[trigger] prev[i]) == records[j]@;
            assert(cur[i] == records[j0]@);
        } else if i == p {
            assert(cur[i] == records[k]@);
        } else {
            assert(cur[i] == prev[i - 1]);
            let j0 = choose|j: int| 0 <= j < k && (#[trigger] prev[i - 1]) == records[j]@;
            assert(cur[i] == records[j0]@);
        }
    }
}

/// Two input records share a name.
pub open spec fn has_duplicate_name(records: Seq<SecretRecord>) -> bool {
    exists|i: int, j: int|
        #![trigger records[i], records[j]]
        0 <= i < j < records.len() && records[i]@.name == records[j]@.name
}

/// A failing load step: when the `k`-th input record's name is already in the
/// rebuilt store, two input records share a name.
proof fn lemma_load_duplicate(records: Seq<SecretRecord>, prev: Seq<RecordView>, k: int)
    requires
        0 <= k < records.len(),
        sourced_upto(records, prev, k),
        find_name(prev, records[k]@.name) is Some,
    ensures
        has_duplicate_name(records),
{
    reveal(sourced_upto);
    lemma_find_name_props(prev, records[k]@.name);
    let i0 = find_name(prev, records[k]@.name)->Some_0;
    assert(prev[i0].name == records[k]@.name);
    let j0 = choose|j: int| 0 <= j < k && (#[trigger] prev[i0]) == records[j]@;
    assert(records[j0]@.name == records[k]@.name);
}

impl Repository {
    /// Rebuild a store from records read back from persistence. The records
    /// may arrive in any order; the rebuild fails, as `DuplicateName`, exactly
    /// when two input records share a name.
    #[verifier::rlimit(60)]
    pub fn load(records: Vec<SecretRecord>) -> (r: Result<Repository, SecretError>)
        ensures
            match r {
                Ok(repo) => repo.wf() && repo@.len() == records@.len() && loaded_upto(
                    records@,
                    repo@,
                    records@.len() as int,
                ),
                Err(e) => e == SecretError::DuplicateName && has_duplicate_name(records@),
            },
    {
        let mut repo = Repository::new();
        let mut k: usize = 0;
        let n = records.len();
        proof {
            reveal(loaded_upto);
            reveal(sourced_upto);
            assert(loaded_upto(records@, repo@, 0));
            assert(sourced_upto(records@, repo@, 0));
        }
        while k < n
            invariant
                k <= n,
                n == records@.len(),
                repo.wf(),
                repo@.len() == k,
                loaded_upto(records@, repo@, k as int),
                sourced_upto(records@, repo@, k as int),
            decreases n - k,
        {
            let ghost prev = repo@;
            let rec = records[k].clone();
            let ghost recv = rec@;
            match repo.insert_record(rec) {
                Ok(()) => {},
                Err(e) => {
                    proof {
                        lemma_load_duplicate(records@, prev, k as int);
                    }
                    return Err(e);
                },
            }
            proof {
                let p = insert_pos(prev, recv.name);
                lemma_insert_pos_props(prev, recv.name);
                lemma_load_step(records@, prev, repo@, k as int, p, recv);
            }
            k = k + 1;
        }
        Ok(repo)
    }

    /// Insert a record as it stands, at its sorted position; a record whose
    /// name is already present is refused.
    fn insert_record(&mut self, rec: SecretRecord) -> (r: Result<(), SecretError>)
        requires
            old(self).wf(),
        ensures
            final(self).wf(),
            match r {
                Ok(()) => find_name(old(self)@, rec@.name) is None && final(self)@ == old(
                    self,
                )@.insert(insert_pos(old(self)@, rec@.name), rec@),
                Err(e) => e == SecretError::DuplicateName && find_name(old(self)@, rec@.name)
                    is Some && final(self)@ == old(self)@,
            },
    {
        let ghost prev = self@;
        let (p, hit) = self.locate(rec.name.as_str());
        if hit {
            return Err(SecretError::DuplicateName);
        }
        let ghost recv = rec@;
        self.records.insert(p, rec);
        proof {
            lemma_insert_pos_at(prev, recv.name, p as int);
            assert(self@ =~= prev.insert(p as int, recv));
            if (p as int) < prev.len() {
                lemma_lex_lt_total(prev[p as int].name, recv.name);
                assert(prev[p as int].name != recv.name);
                assert(lex_lt(recv.name, prev[p as int].name));
            }
            assert forall|i: int, j: int| 0 <= i < j < self@.len() implies lex_lt(
                #[trigger] self@[i].name,
                #[trigger] self@[j].name,
            ) by {
                if i < p as int && j == p as int {
                } else if i == p as int && j > p as int {
                    if j - 1 > p as int {
                        lemma_lex_lt_trans(recv.name, prev[p as int].name, prev[j - 1].name);
                    }
                } else if i < p as int && j > p as int {
                    assert(lex_lt(prev[i].name, prev[j - 1].name));
                }
            }
        }
        Ok(())
    }

    /// Borrow the stored records, in increasing name order, for persistence.
    pub fn records(&self) -> (r: &Vec<SecretRecord>)
        ensures
            r@.len() == self@.len(),
            forall|i: int| 0 <= i < r@.len() ==> (#[trigger] r@[i])@ == self@[i],
    {
        &self.records
    }
}

} // verus!
