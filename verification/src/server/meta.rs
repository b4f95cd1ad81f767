//! Metadata storage. Holds everything about a file that the server is
//! allowed to know: expiry, download budget, and hashes of the download and
//! owner tokens. Never any key material.
use vstd::prelude::*;

verus! {

/// Server-side record for one shared file.
#[derive(Debug)]
pub struct FileRecord {
    /// Share identifier.
    pub id: String,
    /// base64url AES-GCM ciphertext of the file's JSON metadata.
    pub metadata: String,
    /// base64url STREAM nonce prefix.
    pub nonce_prefix: String,
    /// base64url SHA-256 of the download auth key.
    pub auth_hash: String,
    /// base64url PBKDF2 salt; `Some` exactly when the file is password-protected.
    pub auth_salt: Option<String>,
    /// base64url SHA-256 of the owner token.
    pub owner_hash: String,
    /// Ciphertext length in bytes.
    pub size: u64,
    /// Downloads served so far.
    pub downloads: u32,
    /// Total download budget.
    pub max_downloads: u32,
    /// Upload time, seconds since the Unix epoch.
    pub created_at: u64,
    /// Absolute expiry, seconds since the Unix epoch.
    pub expires_at: u64,
    /// OIDC subject of the uploader, when the service runs behind auth.
    pub owner_subject: Option<String>,
}

/// A [`FileRecord`] as plain values.
pub struct FileRecordView {
    pub id: Seq<char>,
    pub metadata: Seq<char>,
    pub nonce_prefix: Seq<char>,
    pub auth_hash: Seq<char>,
    pub auth_salt: Option<Seq<char>>,
    pub owner_hash: Seq<char>,
    pub size: u64,
    pub downloads: u32,
    pub max_downloads: u32,
    pub created_at: u64,
    pub expires_at: u64,
    pub owner_subject: Option<Seq<char>>,
}

/// The plain value of an optional string.
pub open spec fn opt_view(s: Option<String>) -> Option<Seq<char>> {
    match s {
        Some(t) => Some(t@),
        None => None,
    }
}

/// A copy of an optional string.
pub fn clone_opt(s: &Option<String>) -> (c: Option<String>)
    ensures
        opt_view(c) == opt_view(*s),
{
    match s {
        Some(t) => Some(t.clone()),
        None => None,
    }
}

impl View for FileRecord {
    type V = FileRecordView;

    open spec fn view(&self) -> FileRecordView {
        FileRecordView {
            id: self.id@,
            metadata: self.metadata@,
            nonce_prefix: self.nonce_prefix@,
            auth_hash: self.auth_hash@,
            auth_salt: opt_view(self.auth_salt),
            owner_hash: self.owner_hash@,
            size: self.size,
            downloads: self.downloads,
            max_downloads: self.max_downloads,
            created_at: self.created_at,
            expires_at: self.expires_at,
            owner_subject: opt_view(self.owner_subject),
        }
    }
}

impl FileRecord {
    /// Whether a passphrase guards the download.
    pub fn has_password(&self) -> (guarded: bool)
        ensures
            guarded == self.auth_salt is Some,
    {
        self.auth_salt.is_some()
    }

    /// Downloads still allowed before the file is destroyed.
    pub fn downloads_remaining(&self) -> (left: u32)
        ensures
            left == if self.downloads < self.max_downloads { self.max_downloads - self.downloads } else { 0 },
    {
        self.max_downloads.saturating_sub(self.downloads)
    }

    /// A field-by-field copy of the record.
    pub fn duplicate(&self) -> (copy: FileRecord)
        ensures
            copy@ == self@,
    {
        FileRecord {
            id: self.id.clone(),
            metadata: self.metadata.clone(),
            nonce_prefix: self.nonce_prefix.clone(),
            auth_hash: self.auth_hash.clone(),
            auth_salt: clone_opt(&self.auth_salt),
            owner_hash: self.owner_hash.clone(),
            size: self.size,
            downloads: self.downloads,
            max_downloads: self.max_downloads,
            created_at: self.created_at,
            expires_at: self.expires_at,
            owner_subject: clone_opt(&self.owner_subject),
        }
    }
}

/// Result of atomically claiming one download slot.
#[derive(Debug, Clone, Copy, PartialEq, Eq, Structural)]
pub enum Claim {
    /// No such file (or it already expired).
    NotFound,
    /// The download budget was already spent.
    Exhausted,
    /// Slot claimed. `last` means this was the final allowed download and the
    /// file must be destroyed once the response body has been delivered.
    Granted {
        /// Downloads still allowed after this one.
        remaining: u32,
        /// This was the final allowed download.
        last: bool,
    },
}

} // verus!

verus! {

/// What claiming a download of `id` reports, given the records `files`.
pub open spec fn claim_outcome(files: Map<Seq<char>, FileRecordView>, id: Seq<char>) -> Claim {
    if !files.contains_key(id) {
        Claim::NotFound
    } else if files[id].downloads >= files[id].max_downloads {
        Claim::Exhausted
    } else {
        let remaining = (files[id].max_downloads - (files[id].downloads + 1)) as u32;
        Claim::Granted { remaining, last: remaining == 0 }
    }
}

/// The records after claiming a download of `id`: the counter moves by one
/// exactly when the claim is granted.
pub open spec fn after_claim(files: Map<Seq<char>, FileRecordView>, id: Seq<char>) -> Map<Seq<char>, FileRecordView> {
    if claim_outcome(files, id) is Granted {
        files.insert(id, FileRecordView { downloads: (files[id].downloads + 1) as u32, ..files[id] })
    } else {
        files
    }
}

/// The records after `count` successive claims of `id`.
pub open spec fn after_claims(files: Map<Seq<char>, FileRecordView>, id: Seq<char>, count: nat) -> Map<Seq<char>, FileRecordView>
    decreases count,
{
    if count == 0 {
        files
    } else {
        after_claim(after_claims(files, id, (count - 1) as nat), id)
    }
}

/// The download budget is enforced exactly: a share uploaded with a budget of
/// `max` and no downloads yet grants exactly `max` claims, the last of which
/// is marked final, and refuses every claim after that.
pub proof fn lemma_budget_enforced_exactly(files: Map<Seq<char>, FileRecordView>, id: Seq<char>, count: nat)
    requires
        files.contains_key(id),
        files[id].downloads == 0,
    ensures
        after_claims(files, id, count).contains_key(id),
        after_claims(files, id, count)[id].downloads == if count <= files[id].max_downloads { count } else { files[id].max_downloads as nat },
        count < files[id].max_downloads ==> claim_outcome(after_claims(files, id, count), id) == (Claim::Granted {
            remaining: (files[id].max_downloads - count - 1) as u32,
            last: count + 1 == files[id].max_downloads,
        }),
        count >= files[id].max_downloads ==> claim_outcome(after_claims(files, id, count), id) == Claim::Exhausted,
        after_claims(files, id, count)[id].max_downloads == files[id].max_downloads,
    decreases count,
{
    if count > 0 {
        lemma_budget_enforced_exactly(files, id, (count - 1) as nat);
    }
}

/// A claim never lifts the download counter past the budget of a record that
/// was within it, and touches no other record.
pub proof fn lemma_claim_keeps_budget(files: Map<Seq<char>, FileRecordView>, id: Seq<char>, other: Seq<char>)
    requires
        files.contains_key(id),
        files[id].downloads <= files[id].max_downloads,
    ensures
        after_claim(files, id)[id].downloads <= after_claim(files, id)[id].max_downloads,
        other != id ==> after_claim(files, id).contains_key(other) == files.contains_key(other),
        other != id && files.contains_key(other) ==> after_claim(files, id)[other] == files[other],
{
}

/// What the store reads back after a write: a record put under its id is
/// what a lookup of that id gives, a deleted id is gone, and neither
/// touches any other id.
pub proof fn lemma_read_after_write(files: Map<Seq<char>, FileRecordView>, record: FileRecordView, other: Seq<char>)
    ensures
        files.insert(record.id, record).contains_key(record.id),
        files.insert(record.id, record)[record.id] == record,
        !files.remove(record.id).contains_key(record.id),
        other != record.id ==> files.insert(record.id, record).contains_key(other) == files.contains_key(other),
        other != record.id && files.contains_key(other) ==> files.insert(record.id, record)[other] == files[other],
        other != record.id ==> files.remove(record.id).contains_key(other) == files.contains_key(other),
{
}

/// Process-local metadata store. Unsuitable for more than one replica.
pub struct MemoryMetaStore {
    files: Vec<FileRecord>,
}

/// No two records share an id.
pub open spec fn ids_unique(files: Seq<FileRecord>) -> bool {
    forall|i: int, j: int| 0 <= i < files.len() && 0 <= j < files.len() && i != j ==> files[i].id@ != files[j].id@
}

/// The records of `files`, keyed by id.
pub open spec fn records_by_id(files: Seq<FileRecord>) -> Map<Seq<char>, FileRecordView> {
    Map::new(
        |k: Seq<char>| exists|i: int| 0 <= i < files.len() && #[trigger] files[i].id@ == k,
        |k: Seq<char>| files[choose|i: int| 0 <= i < files.len() && #[trigger] files[i].id@ == k]@,
    )
}

/// With unique ids, the record stored at `i` is the one its id maps to.
proof fn lemma_lookup(files: Seq<FileRecord>, i: int)
    requires
        ids_unique(files),
        0 <= i < files.len(),
    ensures
        records_by_id(files).contains_key(files[i].id@),
        records_by_id(files)[files[i].id@] == files[i]@,
{
    let k = files[i].id@;
    assert(files[i].id@ == k);
    let j = choose|j: int| 0 <= j < files.len() && #[trigger] files[j].id@ == k;
    assert(j == i);
}

/// Replacing the record at `i` by one with the same id keeps ids unique and
/// updates exactly that id.
proof fn lemma_replace_at(before: Seq<FileRecord>, i: int, after: Seq<FileRecord>)
    requires
        ids_unique(before),
        0 <= i < before.len(),
        after.len() == before.len(),
        after[i].id@ == before[i].id@,
        forall|j: int| 0 <= j < before.len() && j != i ==> after[j] == before[j],
    ensures
        ids_unique(after),
        records_by_id(after) == records_by_id(before).insert(after[i].id@, after[i]@),
{
    let target = records_by_id(before).insert(after[i].id@, after[i]@);
    assert forall|k: Seq<char>| #![auto] records_by_id(after).contains_key(k) == target.contains_key(k) by {
        if records_by_id(before).contains_key(k) {
            let j = choose|j: int| 0 <= j < before.len() && #[trigger] before[j].id@ == k;
            assert(after[j].id@ == k);
        }
        if records_by_id(after).contains_key(k) {
            let j = choose|j: int| 0 <= j < after.len() && #[trigger] after[j].id@ == k;
            if j != i {
                assert(before[j].id@ == k);
            }
        }
    }
    assert forall|k: Seq<char>| #[trigger] records_by_id(after).contains_key(k) implies records_by_id(after)[k] == target[k] by {
        let j = choose|j: int| 0 <= j < after.len() && #[trigger] after[j].id@ == k;
        lemma_lookup(after, j);
        if j != i {
            lemma_lookup(before, j);
        }
    }
    assert(records_by_id(after) =~= target);
}

/// Appending a record whose id is new keeps ids unique and adds exactly it.
proof fn lemma_append(before: Seq<FileRecord>, after: Seq<FileRecord>)
    requires
        ids_unique(before),
        after.len() == before.len() + 1,
        forall|j: int| 0 <= j < before.len() ==> after[j] == before[j],
        forall|j: int| 0 <= j < before.len() ==> before[j].id@ != after[before.len() as int].id@,
    ensures
        ids_unique(after),
        records_by_id(after) == records_by_id(before).insert(after[before.len() as int].id@, after[before.len() as int]@),
{
    let n = before.len() as int;
    let target = records_by_id(before).insert(after[n].id@, after[n]@);
    assert(after[n].id@ == after[n].id@);
    assert forall|k: Seq<char>| #![auto] records_by_id(after).contains_key(k) == target.contains_key(k) by {
        if records_by_id(before).contains_key(k) {
            let j = choose|j: int| 0 <= j < before.len() && #[trigger] before[j].id@ == k;
            assert(after[j].id@ == k);
        }
        if records_by_id(after).contains_key(k) {
            let j = choose|j: int| 0 <= j < after.len() && #[trigger] after[j].id@ == k;
            if j != n {
                assert(before[j].id@ == k);
            }
        }
    }
    assert forall|k: Seq<char>| #[trigger] records_by_id(after).contains_key(k) implies records_by_id(after)[k] == target[k] by {
        let j = choose|j: int| 0 <= j < after.len() && #[trigger] after[j].id@ == k;
        lemma_lookup(after, j);
        if j != n {
            lemma_lookup(before, j);
        }
    }
    assert(records_by_id(after) =~= target);
}

/// Removing the record at `i` keeps ids unique and drops exactly its id.
proof fn lemma_remove_at(before: Seq<FileRecord>, i: int, after: Seq<FileRecord>)
    requires
        ids_unique(before),
        0 <= i < before.len(),
        after == before.remove(i),
    ensures
        ids_unique(after),
        records_by_id(after) == records_by_id(before).remove(before[i].id@),
{
    let gone = before[i].id@;
    let target = records_by_id(before).remove(gone);
    assert forall|a: int, b: int| 0 <= a < after.len() && 0 <= b < after.len() && a != b implies after[a].id@ != after[b].id@ by {
        let a0 = if a < i { a } else { a + 1 };
        let b0 = if b < i { b } else { b + 1 };
        assert(after[a] == before[a0]);
        assert(after[b] == before[b0]);
    }
    assert forall|k: Seq<char>| #![auto] records_by_id(after).contains_key(k) == target.contains_key(k) by {
        if target.contains_key(k) {
            let j = choose|j: int| 0 <= j < before.len() && #[trigger] before[j].id@ == k;
            assert(j != i);
            let j1 = if j < i { j } else { j - 1 };
            assert(after[j1] == before[j]);
            assert(after[j1].id@ == k);
        }
        if records_by_id(after).contains_key(k) {
            let j = choose|j: int| 0 <= j < after.len() && #[trigger] after[j].id@ == k;
            let j0 = if j < i { j } else { j + 1 };
            assert(after[j] == before[j0]);
            assert(before[j0].id@ == k);
        }
    }
    assert forall|k: Seq<char>| #[trigger] records_by_id(after).contains_key(k) implies records_by_id(after)[k] == target[k] by {
        let j = choose|j: int| 0 <= j < after.len() && #[trigger] after[j].id@ == k;
        let j0 = if j < i { j } else { j + 1 };
        assert(after[j] == before[j0]);
        lemma_lookup(after, j);
        lemma_lookup(before, j0);
    }
    assert(records_by_id(after) =~= target);
}

impl View for MemoryMetaStore {
    type V = Map<Seq<char>, FileRecordView>;

    closed spec fn view(&self) -> Map<Seq<char>, FileRecordView> {
        records_by_id(self.files@)
    }
}

impl MemoryMetaStore {
    /// The store's invariant: one record per id.
    pub closed spec fn wf(&self) -> bool {
        ids_unique(self.files@)
    }

    /// An empty store.
    pub fn new() -> (store: Self)
        ensures
            store.wf(),
            store@ == Map::<Seq<char>, FileRecordView>::empty(),
    {
        let store = MemoryMetaStore { files: Vec::new() };
        assert(store@ =~= Map::<Seq<char>, FileRecordView>::empty());
        store
    }

    /// Where the record for `id` sits, if there is one.
    fn find(&self, id: &str) -> (at: Option<usize>)
        requires
            self.wf(),
        ensures
            at matches Some(i) ==> i < self.files@.len() && self.files@[i as int].id@ == id@,
            at is None ==> forall|i: int| 0 <= i < self.files@.len() ==> self.files@[i].id@ != id@,
            at is None ==> !self@.contains_key(id@),
    {
        let key = id.to_owned();
        let mut i: usize = 0;
        while i < self.files.len()
            invariant
                key@ == id@,
                i <= self.files@.len(),
                forall|j: int| 0 <= j < i ==> self.files@[j].id@ != id@,
            decreases self.files@.len() - i,
        {
            if self.files[i].id == key {
                return Some(i);
            }
            i += 1;
        }
        None
    }

    /// Insert a new record, replacing any with the same id.
    pub fn put(&mut self, record: &FileRecord)
        requires
            old(self).wf(),
        ensures
            final(self).wf(),
            final(self)@ == old(self)@.insert(record.id@, record@),
    {
        let copy = record.duplicate();
        match self.find(record.id.as_str()) {
            Some(i) => {
                let ghost before = self.files@;
                self.files.set(i, copy);
                proof { lemma_replace_at(before, i as int, self.files@); }
            }
            None => {
                let ghost before = self.files@;
                self.files.push(copy);
                proof { lemma_append(before, self.files@); }
            }
        }
    }

    /// Look a record up, or `None` if there is no such share.
    pub fn get(&self, id: &str) -> (found: Option<FileRecord>)
        requires
            self.wf(),
        ensures
            found is Some <==> self@.contains_key(id@),
            found matches Some(r) ==> r@ == self@[id@],
    {
        match self.find(id) {
            Some(i) => {
                proof { lemma_lookup(self.files@, i as int); }
                Some(self.files[i].duplicate())
            }
            None => None,
        }
    }

    /// Atomically increment the download counter, refusing to exceed the
    /// budget.
    pub fn claim_download(&mut self, id: &str) -> (claim: Claim)
        requires
            old(self).wf(),
        ensures
            final(self).wf(),
            claim == claim_outcome(old(self)@, id@),
            final(self)@ == after_claim(old(self)@, id@),
    {
        let i = match self.find(id) {
            Some(i) => i,
            None => return Claim::NotFound,
        };
        proof { lemma_lookup(self.files@, i as int); }
        if self.files[i].downloads >= self.files[i].max_downloads {
            return Claim::Exhausted;
        }
        let mut updated = self.files[i].duplicate();
        updated.downloads = updated.downloads + 1;
        let remaining = updated.max_downloads - updated.downloads;
        let ghost before = self.files@;
        self.files.set(i, updated);
        proof {
            lemma_replace_at(before, i as int, self.files@);
            assert(self@ =~= after_claim(old(self)@, id@));
        }
        Claim::Granted { remaining, last: remaining == 0 }
    }

    /// Replace the download auth material. `auth_salt` is `Some` for a
    /// password-protected file, `None` to drop the password. Reports whether
    /// the record existed.
    pub fn set_auth(&mut self, id: &str, auth_hash: &str, auth_salt: Option<&str>) -> (updated: bool)
        requires
            old(self).wf(),
        ensures
            final(self).wf(),
            updated == old(self)@.contains_key(id@),
            updated ==> final(self)@ == old(self)@.insert(id@, FileRecordView {
                auth_hash: auth_hash@,
                auth_salt: match auth_salt { Some(s) => Some(s@), None => None },
                ..old(self)@[id@]
            }),
            !updated ==> final(self)@ == old(self)@,
    {
        let i = match self.find(id) {
            Some(i) => i,
            None => return false,
        };
        proof { lemma_lookup(self.files@, i as int); }
        let mut record = self.files[i].duplicate();
        record.auth_hash = auth_hash.to_owned();
        record.auth_salt = match auth_salt {
            Some(s) => Some(s.to_owned()),
            None => None,
        };
        let ghost before = self.files@;
        self.files.set(i, record);
        proof {
            lemma_replace_at(before, i as int, self.files@);
            assert(self@ =~= old(self)@.insert(id@, FileRecordView {
                auth_hash: auth_hash@,
                auth_salt: match auth_salt { Some(s) => Some(s@), None => None },
                ..old(self)@[id@]
            }));
        }
        true
    }

    /// Forget a record. Deleting a missing one is not an error.
    pub fn delete(&mut self, id: &str)
        requires
            old(self).wf(),
        ensures
            final(self).wf(),
            final(self)@ == old(self)@.remove(id@),
    {
        match self.find(id) {
            Some(i) => {
                let ghost before = self.files@;
                self.files.remove(i);
                proof { lemma_remove_at(before, i as int, self.files@); }
            }
            None => {
                assert(self@ =~= old(self)@.remove(id@));
            }
        }
    }

    /// Ids whose expiry has passed, at most `limit` of them: each one names
    /// a stored record that has expired, none twice, and when fewer than
    /// `limit` come back, every expired record is among them.
    pub fn expired(&self, now: u64, limit: usize) -> (ids: Vec<String>)
        requires
            self.wf(),
        ensures
            ids@.len() <= limit,
            forall|k: int| 0 <= k < ids@.len() ==> self@.contains_key(#[trigger] ids@[k]@)
                && self@[ids@[k]@].expires_at <= now,
            forall|a: int, b: int| 0 <= a < ids@.len() && 0 <= b < ids@.len() && a != b ==> ids@[a]@ != ids@[b]@,
            ids@.len() < limit ==> forall|k: Seq<char>| #[trigger] self@.contains_key(k) && self@[k].expires_at <= now
                ==> exists|m: int| 0 <= m < ids@.len() && ids@[m]@ == k,
    {
        let mut ids: Vec<String> = Vec::new();
        let ghost mut picked: Seq<int> = Seq::empty();
        let mut i: usize = 0;
        while i < self.files.len() && ids.len() < limit
            invariant
                self.wf(),
                i <= self.files@.len(),
                ids@.len() <= limit,
                picked.len() == ids@.len(),
                forall|k: int| 0 <= k < picked.len() ==> 0 <= #[trigger] picked[k] < i
                    && self.files@[picked[k]].expires_at <= now && ids@[k]@ == self.files@[picked[k]].id@,
                forall|a: int, b: int| 0 <= a < b < picked.len() ==> picked[a] < picked[b],
                forall|j: int| 0 <= j < i && #[trigger] self.files@[j].expires_at <= now
                    ==> exists|m: int| 0 <= m < picked.len() && picked[m] == j,
            decreases self.files@.len() - i,
        {
            if self.files[i].expires_at <= now {
                ids.push(self.files[i].id.clone());
                proof {
                    let old_picked = picked;
                    picked = picked.push(i as int);
                    assert forall|j: int| 0 <= j < i + 1 && #[trigger] self.files@[j].expires_at <= now
                        implies exists|m: int| 0 <= m < picked.len() && picked[m] == j by {
                        if j == i {
                            assert(picked[old_picked.len() as int] == j);
                        } else {
                            let m = choose|m: int| 0 <= m < old_picked.len() && old_picked[m] == j;
                            assert(picked[m] == j);
                        }
                    }
                }
            }
            i += 1;
        }
        proof {
            assert forall|k: int| 0 <= k < ids@.len() implies self@.contains_key(#[trigger] ids@[k]@)
                && self@[ids@[k]@].expires_at <= now by {
                assert(0 <= picked[k] < self.files@.len());
                lemma_lookup(self.files@, picked[k]);
            }
            assert forall|a: int, b: int| 0 <= a < ids@.len() && 0 <= b < ids@.len() && a != b implies ids@[a]@ != ids@[b]@ by {
                assert(0 <= picked[a] < self.files@.len());
                assert(0 <= picked[b] < self.files@.len());
                if a < b {
                    assert(picked[a] < picked[b]);
                } else {
                    assert(picked[b] < picked[a]);
                }
            }
            if ids@.len() < limit {
                assert forall|k: Seq<char>| #[trigger] self@.contains_key(k) && self@[k].expires_at <= now
                    implies exists|m: int| 0 <= m < ids@.len() && ids@[m]@ == k by {
                    let j = choose|j: int| 0 <= j < self.files@.len() && #[trigger] self.files@[j].id@ == k;
                    lemma_lookup(self.files@, j);
                    assert(self.files@[j].expires_at <= now);
                    let m = choose|m: int| 0 <= m < picked.len() && picked[m] == j;
                    assert(ids@[m]@ == k);
                }
            }
        }
        ids
    }
}

} // verus!

verus! {

broadcast use vstd::string::group_string_axioms;

/// Which metadata store a URI names.
#[derive(Debug, Clone, Copy, PartialEq, Eq, Structural)]
pub enum MetaBackend {
    /// `memory:`, `memory` or `memory://`: a single-process store.
    Memory,
    /// `redis://`, `rediss://`, `redis-cluster://`, `redis+sentinel://` or
    /// `unix://`.
    Redis,
}

/// What a metadata URI names.
pub open spec fn backend_of(uri: Seq<char>) -> Option<MetaBackend> {
    if uri == "memory:"@ || uri == "memory"@ || uri == "memory://"@ {
        Some(MetaBackend::Memory)
    } else if crate::server::blob::starts_with(uri, "redis://"@) || crate::server::blob::starts_with(uri, "rediss://"@)
        || crate::server::blob::starts_with(uri, "redis-cluster://"@)
        || crate::server::blob::starts_with(uri, "redis+sentinel://"@)
        || crate::server::blob::starts_with(uri, "unix://"@) {
        Some(MetaBackend::Redis)
    } else {
        None
    }
}

/// Read a metadata URI.
pub fn parse_meta_uri(uri: &str) -> (backend: Option<MetaBackend>)
    ensures
        backend == backend_of(uri@),
{
    let text = uri.to_owned();
    if text == "memory:".to_owned() || text == "memory".to_owned() || text == "memory://".to_owned() {
        return Some(MetaBackend::Memory);
    }
    let v = crate::text::chars_of(uri);
    let schemes = ["redis://", "rediss://", "redis-cluster://", "redis+sentinel://", "unix://"];
    let r0 = crate::text::occurs_at(v.as_slice(), crate::text::chars_of(schemes[0]).as_slice(), 0);
    let r1 = crate::text::occurs_at(v.as_slice(), crate::text::chars_of(schemes[1]).as_slice(), 0);
    let r2 = crate::text::occurs_at(v.as_slice(), crate::text::chars_of(schemes[2]).as_slice(), 0);
    let r3 = crate::text::occurs_at(v.as_slice(), crate::text::chars_of(schemes[3]).as_slice(), 0);
    let r4 = crate::text::occurs_at(v.as_slice(), crate::text::chars_of(schemes[4]).as_slice(), 0);
    if r0 || r1 || r2 || r3 || r4 {
        Some(MetaBackend::Redis)
    } else {
        None
    }
}

/// The Redis key of a file's hash: `senders:f:<id>`.
pub open spec fn redis_file_key(id: Seq<char>) -> Seq<char> {
    "senders:f:"@ + id
}

/// The Redis key of a file's hash.
pub fn file_key(id: &str) -> (key: String)
    ensures
        key@ == redis_file_key(id@),
{
    let mut key = "senders:f:".to_owned();
    key.append(id);
    key
}

/// The sorted set that indexes files by expiry.
pub const EXPIRY_ZSET: &'static str = "senders:exp";

/// What the atomic claim script's `{status, remaining}` reply means:
/// `-1` no such file, `0` budget spent, anything else a granted slot with
/// `remaining` (never below zero) downloads left after it, the last one
/// when none are.
pub fn claim_from_reply(status: i64, remaining: i64) -> (claim: Claim)
    ensures
        status == -1 ==> claim == Claim::NotFound,
        status == 0 ==> claim == Claim::Exhausted,
        status != -1 && status != 0 ==> claim == (Claim::Granted {
            remaining: (if remaining < 0 { 0 } else { remaining }) as u32,
            last: remaining <= 0,
        }),
{
    if status == -1 {
        Claim::NotFound
    } else if status == 0 {
        Claim::Exhausted
    } else {
        let kept: i64 = if remaining < 0 { 0 } else { remaining };
        Claim::Granted { remaining: kept as u32, last: remaining <= 0 }
    }
}

/// Seconds a record still has to live, never less than one.
pub open spec fn record_ttl(expires_at: u64, now: u64) -> int {
    if expires_at > now + 1 { expires_at - now } else { 1 }
}

/// The Redis TTL a stored record gets: its remaining life plus an hour of
/// grace, so the reaper (the only path that also removes the blob), not the
/// TTL, is what normally deletes it.
pub fn redis_ttl(expires_at: u64, now: u64) -> (ttl: i64)
    requires
        record_ttl(expires_at, now) + 3600 <= u64::MAX,
    ensures
        ttl == (record_ttl(expires_at, now) + 3600) as i64,
{
    let left = if expires_at > now { expires_at - now } else { 0 };
    let left = if left < 1 { 1 } else { left };
    (left + 3600) as i64
}

} // verus!

verus! {

/// Where the facts about a share live: expiry, budget, and token hashes.
/// Each operation is stated over the records the store holds, keyed by id.
pub trait MetaStore {
    /// The store's own invariant.
    spec fn inv(&self) -> bool;

    /// The records held, keyed by id.
    spec fn records(&self) -> Map<Seq<char>, FileRecordView>;

    /// Insert a record, replacing any with the same id.
    fn put(&mut self, record: &FileRecord)
        requires
            old(self).inv(),
        ensures
            final(self).inv(),
            final(self).records() == old(self).records().insert(record.id@, record@);

    /// Look a record up, or `None` if there is no such share.
    fn get(&self, id: &str) -> (found: Option<FileRecord>)
        requires
            self.inv(),
        ensures
            found is Some <==> self.records().contains_key(id@),
            found matches Some(r) ==> r@ == self.records()[id@];

    /// Atomically claim one download, refusing to exceed the budget.
    fn claim_download(&mut self, id: &str) -> (claim: Claim)
        requires
            old(self).inv(),
        ensures
            final(self).inv(),
            claim == claim_outcome(old(self).records(), id@),
            final(self).records() == after_claim(old(self).records(), id@);

    /// Replace the download auth material; reports whether the record existed.
    fn set_auth(&mut self, id: &str, auth_hash: &str, auth_salt: Option<&str>) -> (updated: bool)
        requires
            old(self).inv(),
        ensures
            final(self).inv(),
            updated == old(self).records().contains_key(id@),
            updated ==> final(self).records() == old(self).records().insert(id@, FileRecordView {
                auth_hash: auth_hash@,
                auth_salt: match auth_salt { Some(s) => Some(s@), None => None },
                ..old(self).records()[id@]
            }),
            !updated ==> final(self).records() == old(self).records();

    /// Forget a record; deleting a missing one is not an error.
    fn delete(&mut self, id: &str)
        requires
            old(self).inv(),
        ensures
            final(self).inv(),
            final(self).records() == old(self).records().remove(id@);

    /// Ids whose expiry has passed, at most `limit` of them, none twice, and
    /// every expired one when fewer than `limit` come back.
    fn expired(&self, now: u64, limit: usize) -> (ids: Vec<String>)
        requires
            self.inv(),
        ensures
            ids@.len() <= limit,
            forall|k: int| 0 <= k < ids@.len() ==> self.records().contains_key(#[trigger] ids@[k]@)
                && self.records()[ids@[k]@].expires_at <= now,
            forall|a: int, b: int| 0 <= a < ids@.len() && 0 <= b < ids@.len() && a != b ==> ids@[a]@ != ids@[b]@,
            ids@.len() < limit ==> forall|k: Seq<char>| #[trigger] self.records().contains_key(k)
                && self.records()[k].expires_at <= now ==> exists|m: int| 0 <= m < ids@.len() && ids@[m]@ == k;
}

impl MetaStore for MemoryMetaStore {
    open spec fn inv(&self) -> bool {
        self.wf()
    }

    open spec fn records(&self) -> Map<Seq<char>, FileRecordView> {
        self@
    }

    fn put(&mut self, record: &FileRecord) {
        MemoryMetaStore::put(self, record)
    }

    fn get(&self, id: &str) -> (found: Option<FileRecord>) {
        MemoryMetaStore::get(self, id)
    }

    fn claim_download(&mut self, id: &str) -> (claim: Claim) {
        MemoryMetaStore::claim_download(self, id)
    }

    fn set_auth(&mut self, id: &str, auth_hash: &str, auth_salt: Option<&str>) -> (updated: bool) {
        MemoryMetaStore::set_auth(self, id, auth_hash, auth_salt)
    }

    fn delete(&mut self, id: &str) {
        MemoryMetaStore::delete(self, id)
    }

    fn expired(&self, now: u64, limit: usize) -> (ids: Vec<String>) {
        MemoryMetaStore::expired(self, now, limit)
    }
}

} // verus!
