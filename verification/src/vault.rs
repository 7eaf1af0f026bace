//! The command level: an explicitly owned session holding the verified
//! master-password hash, and the operations that tie the session, the
//! crypto envelope and the store together.
//!
//! When a master password is configured, lockbox content is encrypted with
//! the session hash as key material before it is stored; without one the
//! vault runs in an explicit degraded mode and stores plaintext. Reading a
//! lockbox decrypts opportunistically: a read never fails because
//! decryption failed — it degrades to returning the stored content,
//! and says so in its result.

use vstd::prelude::*;
use vstd::utf8::encode_utf8;

use crate::crypto::{
    self, decrypt_result, is_envelope_of, password_hash_of, CryptoError, MAX_PLAINTEXT_BYTES,
};
use crate::store::{
    applied_update, contains_id, contains_name, index_of_id_spec, CreateLockboxRequest, Database,
    StoreError, UpdateLockboxRequest, UpdateRequestV,
};
use crate::timelock::{Lockbox, LockboxV, MAX_DELAY_SECONDS, MAX_INSTANT_MS};

verus! {

/// How a vault operation fails: in the envelope or in the store.
#[derive(Clone, Copy, Debug, PartialEq, Eq, Structural)]
pub enum VaultError {
    Crypto(CryptoError),
    Store(StoreError),
    ImportFormatError,
}

/// The settings key the master-password verification hash is stored
/// under; its absence means no master password is configured.
pub open spec fn master_password_key() -> Seq<char> {
    "master_password_hash"@
}

/// The in-memory session: the verified master-password hash, kept once a
/// password has been set or verified, cleared on demand. The hash doubles
/// as the key material for every per-lockbox encryption.
pub struct Session {
    master_password_hash: Option<String>,
}

impl Session {
    /// The session key material, if any.
    pub closed spec fn hash_of(&self) -> Option<Seq<char>> {
        match self.master_password_hash {
            Option::Some(ref h) => Option::Some(h@),
            Option::None => Option::None,
        }
    }

    /// A fresh session holds nothing.
    pub fn new() -> (r: Session)
        ensures
            r.hash_of() is None,
    {
        Session { master_password_hash: None }
    }

    /// Forgets the session key material.
    pub fn clear(&mut self)
        ensures
            final(self).hash_of() is None,
    {
        self.master_password_hash = None;
    }

    /// Whether key material is present.
    pub fn is_set(&self) -> (r: bool)
        ensures
            r == (self.hash_of() is Some),
    {
        self.master_password_hash.is_some()
    }

    /// A copy of the key material, if any.
    pub fn hash_copy(&self) -> (r: Option<String>)
        ensures
            r matches Some(h) ==> self.hash_of() == Option::Some(h@),
            r is None <==> self.hash_of() is None,
    {
        match self.master_password_hash {
            Option::Some(ref h) => Option::Some(h.clone()),
            Option::None => Option::None,
        }
    }

    fn put(&mut self, h: String)
        ensures
            final(self).hash_of() == Option::Some(h@),
    {
        self.master_password_hash = Some(h);
    }
}

/// Sets the master password: stores its verification hash durably and
/// keeps the same hash as the session key material.
pub fn set_master_password(db: &mut Database, session: &mut Session, password: &str)
    requires
        old(db).wf(),
    ensures
        final(db).wf(),
        final(db).setting_of(master_password_key()) == Option::Some(password_hash_of(password@)),
        forall|k: Seq<char>|
            k != master_password_key() ==> final(db).setting_of(k) == old(db).setting_of(k),
        final(db).recs() == old(db).recs(),
        final(db).next_id_spec() == old(db).next_id_spec(),
        final(session).hash_of() == Option::Some(password_hash_of(password@)),
{
    let hash = crypto::hash_password(password);
    db.set_setting("master_password_hash", hash.as_str());
    session.put(hash);
}

/// Verifies a password against the stored hash. On success the stored
/// hash becomes the session key material; on failure (or with no stored
/// hash) the session is untouched.
pub fn verify_master_password(db: &Database, session: &mut Session, password: &str) -> (r: bool)
    ensures
        r == (db.setting_of(master_password_key()) matches Some(h) && h == password_hash_of(
            password@,
        )),
        r ==> final(session).hash_of() == Option::Some(password_hash_of(password@)),
        !r ==> *final(session) == *old(session),
{
    match db.get_setting("master_password_hash") {
        Some(stored) => {
            let valid = crypto::verify_password(password, stored.as_str());
            if valid {
                session.put(stored);
            }
            valid
        },
        None => false,
    }
}

/// Whether a master password has been configured.
pub fn is_master_password_set(db: &Database) -> (r: bool)
    ensures
        r == (db.setting_of(master_password_key()) is Some),
{
    match db.get_setting("master_password_hash") {
        Some(_) => true,
        None => false,
    }
}

/// The stored form of a lockbox's content: plaintext when no key material
/// is configured, an envelope for it under the key material otherwise.
pub open spec fn stored_content_for(
    stored: Seq<char>,
    plain: Seq<char>,
    hash: Option<Seq<char>>,
) -> bool {
    match hash {
        Option::None => stored == plain,
        Option::Some(h) => exists|salt: Seq<u8>, nonce: Seq<u8>|
            is_envelope_of(stored, plain, h, salt, nonce),
    }
}

/// What a read hands back for the content field: the decrypted plaintext,
/// or the stored content as it is — because the box is locked, no key
/// material is present, or decryption failed.
#[derive(Debug, Clone)]
pub enum ContentReading {
    Decrypted(String),
    StillEncrypted(String),
}

/// One read result: the record as stored, and its content reading.
#[derive(Debug, Clone)]
pub struct LockboxReading {
    pub lockbox: Lockbox,
    pub content: ContentReading,
}

/// Reads one lockbox. The record itself is returned as stored; the
/// content is decrypted exactly when the box is unlocked, key material is
/// present and the envelope opens under it — in every other case the
/// stored content is handed back unchanged, marked `StillEncrypted`.
pub fn get_lockbox(db: &Database, session: &Session, id: i64) -> (r: Option<LockboxReading>)
    ensures
        r is None <==> !contains_id(db.recs(), id as int),
        r matches Some(rd) ==> db.recs().contains(rd.lockbox@) && rd.lockbox@.id == id,
        r matches Some(rd) ==> (if rd.lockbox@.is_locked || session.hash_of() is None {
            rd.content matches ContentReading::StillEncrypted(c) && c@ == rd.lockbox@.content
        } else {
            match decrypt_result(rd.lockbox@.content, session.hash_of()->Some_0) {
                Ok(p) => rd.content matches ContentReading::Decrypted(d) && d@ == p,
                Err(_) => rd.content matches ContentReading::StillEncrypted(c) && c@
                    == rd.lockbox@.content,
            }
        }),
{
    let lockbox = match db.get_lockbox(id) {
        Some(l) => l,
        None => {
            return None;
        },
    };
    let hash = session.hash_copy();
    let content = if lockbox.is_locked {
        ContentReading::StillEncrypted(lockbox.content.clone())
    } else {
        match hash {
            Some(h) => match crypto::decrypt(lockbox.content.as_str(), h.as_str()) {
                Ok(p) => ContentReading::Decrypted(p),
                Err(_) => ContentReading::StillEncrypted(lockbox.content.clone()),
            },
            None => ContentReading::StillEncrypted(lockbox.content.clone()),
        }
    };
    Some(LockboxReading { lockbox, content })
}

/// Creates a lockbox. With key material present the content is first
/// sealed in an envelope under it (failing with `EncryptionFailed` on
/// oversized content); without, it is stored as given. The store then
/// refuses a taken name with `DuplicateName` and exhausted ids with
/// `StoreUnavailable`; otherwise the new record is created locked, with
/// no timers and both audit timestamps at `now`.
pub fn create_lockbox(
    db: &mut Database,
    session: &Session,
    name: String,
    content: String,
    category: Option<String>,
    unlock_delay_seconds: i64,
    relock_delay_seconds: i64,
    now: i64,
) -> (r: Result<Lockbox, VaultError>)
    requires
        old(db).wf(),
        0 <= now <= MAX_INSTANT_MS,
        0 <= unlock_delay_seconds <= MAX_DELAY_SECONDS,
        0 <= relock_delay_seconds <= MAX_DELAY_SECONDS,
    ensures
        final(db).wf(),
        r is Err ==> *final(db) == *old(db),
        r == Err::<Lockbox, VaultError>(VaultError::Crypto(CryptoError::EncryptionFailed)) <==> (
        session.hash_of() is Some && encode_utf8(content@).len() > MAX_PLAINTEXT_BYTES),
        r == Err::<Lockbox, VaultError>(VaultError::Store(StoreError::DuplicateName)) <==> (!(
        session.hash_of() is Some && encode_utf8(content@).len() > MAX_PLAINTEXT_BYTES)
            && contains_name(old(db).recs(), name@)),
        r matches Err(e) ==> e == VaultError::Crypto(CryptoError::EncryptionFailed) || e
            == VaultError::Store(StoreError::DuplicateName) || (e == VaultError::Store(
            StoreError::StoreUnavailable,
        ) && old(db).next_id_spec() == i64::MAX),
        r matches Ok(l) ==> ({
            &&& l@.id == old(db).next_id_spec()
            &&& l@.name == name@
            &&& stored_content_for(l@.content, content@, session.hash_of())
            &&& l@.category == (match category {
                Option::Some(ref c) => Option::Some(c@),
                Option::None => Option::None::<Seq<char>>,
            })
            &&& l@.is_locked
            &&& l@.unlock_delay_seconds == unlock_delay_seconds as int
            &&& l@.relock_delay_seconds == relock_delay_seconds as int
            &&& l@.unlock_timestamp is None
            &&& l@.relock_timestamp is None
            &&& l@.created_at == now as int
            &&& l@.updated_at == now as int
            &&& final(db).recs().len() == old(db).recs().len() + 1
            &&& final(db).recs().contains(l@)
            &&& final(db).next_id_spec() == old(db).next_id_spec() + 1
        }),
        r is Ok ==> forall|v: LockboxV|
            old(db).recs().contains(v) ==> final(db).recs().contains(v),
        r matches Ok(l) ==> forall|v: LockboxV|
            final(db).recs().contains(v) ==> v == l@ || old(db).recs().contains(v),
        forall|k: Seq<char>| final(db).setting_of(k) == old(db).setting_of(k),
{
    let ghost gcontent = content@;
    let hash = session.hash_copy();
    let stored_content = match hash {
        Some(h) => match crypto::encrypt(content.as_str(), h.as_str()) {
            Ok(c) => {
                proof {
                    let (salt, nonce) = choose|salt: Seq<u8>, nonce: Seq<u8>|
                        is_envelope_of(c@, gcontent, h@, salt, nonce);
                    assert(is_envelope_of(c@, gcontent, session.hash_of()->Some_0, salt, nonce));
                    assert(stored_content_for(c@, gcontent, session.hash_of()));
                }
                c
            },
            Err(e) => {
                return Err(VaultError::Crypto(e));
            },
        },
        None => content,
    };
    let req = CreateLockboxRequest {
        name: name,
        content: stored_content,
        category: category,
        unlock_delay_seconds: unlock_delay_seconds,
        relock_delay_seconds: relock_delay_seconds,
    };
    match db.create_lockbox(req, now) {
        Ok(l) => Ok(l),
        Err(e) => Err(VaultError::Store(e)),
    }
}

/// The update carries new content that is too large to seal while key
/// material is present.
pub open spec fn update_content_oversized(req: UpdateRequestV, hash: Option<Seq<char>>) -> bool {
    hash is Some && (req.content matches Some(c) && encode_utf8(c).len() > MAX_PLAINTEXT_BYTES)
}

/// Applies a partial update. A present content field is sealed first,
/// exactly as in `create_lockbox`; the store then decides `RecordNotFound`
/// and `DuplicateName` as it does for a direct update.
pub fn update_lockbox(
    db: &mut Database,
    session: &Session,
    req: UpdateLockboxRequest,
    now: i64,
) -> (r: Result<Lockbox, VaultError>)
    requires
        old(db).wf(),
        0 <= now <= MAX_INSTANT_MS,
        req@.unlock_delay_seconds matches Some(d) ==> 0 <= d <= MAX_DELAY_SECONDS,
        req@.relock_delay_seconds matches Some(d) ==> 0 <= d <= MAX_DELAY_SECONDS,
    ensures
        final(db).wf(),
        r is Err ==> *final(db) == *old(db),
        r == Err::<Lockbox, VaultError>(VaultError::Crypto(CryptoError::EncryptionFailed))
            <==> update_content_oversized(req@, session.hash_of()),
        r == Err::<Lockbox, VaultError>(VaultError::Store(StoreError::RecordNotFound)) <==> (
        !update_content_oversized(req@, session.hash_of()) && !contains_id(
            old(db).recs(),
            req@.id,
        )),
        r == Err::<Lockbox, VaultError>(VaultError::Store(StoreError::DuplicateName)) <==> (
        !update_content_oversized(req@, session.hash_of()) && contains_id(old(db).recs(), req@.id)
            && (req@.name matches Some(n) && n != old(db).recs()[index_of_id_spec(
            old(db).recs(),
            req@.id,
        )].name && contains_name(old(db).recs(), n))),
        r matches Err(e) ==> e == VaultError::Crypto(CryptoError::EncryptionFailed) || e
            == VaultError::Store(StoreError::RecordNotFound) || e == VaultError::Store(
            StoreError::DuplicateName,
        ),
        r matches Ok(l) ==> (match req@.content {
            Option::None => l@ == applied_update(
                old(db).recs()[index_of_id_spec(old(db).recs(), req@.id)],
                req@,
                now as int,
            ),
            Option::Some(c) => exists|sc: Seq<char>|
                #![auto]
                stored_content_for(sc, c, session.hash_of()) && l@ == applied_update(
                    old(db).recs()[index_of_id_spec(old(db).recs(), req@.id)],
                    UpdateRequestV { content: Option::Some(sc), ..req@ },
                    now as int,
                ),
        }),
        r matches Ok(l) ==> final(db).recs().len() == old(db).recs().len() && (forall|v: LockboxV|
            final(db).recs().contains(v) <==> ((old(db).recs().contains(v) && v.id != req@.id) || v
                == l@)),
        forall|k: Seq<char>| final(db).setting_of(k) == old(db).setting_of(k),
        final(db).next_id_spec() == old(db).next_id_spec(),
{
    let ghost greq = req@;
    let hash = session.hash_copy();
    let content2: Option<String> = match req.content {
        Some(c) => {
            let ghost gc = c@;
            match hash {
                Some(h) => match crypto::encrypt(c.as_str(), h.as_str()) {
                    Ok(e) => {
                        proof {
                            let (salt, nonce) = choose|salt: Seq<u8>, nonce: Seq<u8>|
                                is_envelope_of(e@, gc, h@, salt, nonce);
                            assert(is_envelope_of(
                                e@,
                                gc,
                                session.hash_of()->Some_0,
                                salt,
                                nonce,
                            ));
                            assert(stored_content_for(e@, gc, session.hash_of()));
                        }
                        Some(e)
                    },
                    Err(e2) => {
                        return Err(VaultError::Crypto(e2));
                    },
                },
                None => {
                    proof {
                        assert(stored_content_for(c@, gc, session.hash_of()));
                    }
                    Some(c)
                },
            }
        },
        None => None,
    };
    let ghost gc2: Option<Seq<char>> = match content2 {
        Option::Some(ref e) => Option::Some(e@),
        Option::None => Option::None,
    };
    proof {
        assert(greq.content matches Some(c) ==> gc2 matches Some(sc) && stored_content_for(
            sc,
            c,
            session.hash_of(),
        ));
        assert(greq.content is None ==> gc2 is None);
    }
    let req2 = UpdateLockboxRequest {
        id: req.id,
        name: req.name,
        content: content2,
        category: req.category,
        unlock_delay_seconds: req.unlock_delay_seconds,
        relock_delay_seconds: req.relock_delay_seconds,
    };
    proof {
        assert(req2@ == UpdateRequestV { content: gc2, ..greq });
    }
    match db.update_lockbox(req2, now) {
        Ok(l) => {
            proof {
                if greq.content is Some {
                    let c = greq.content->Some_0;
                    let sc0 = gc2->Some_0;
                    assert(stored_content_for(sc0, c, session.hash_of()) && l@ == applied_update(
                        old(db).recs()[index_of_id_spec(old(db).recs(), greq.id)],
                        UpdateRequestV { content: Option::Some(sc0), ..greq },
                        now as int,
                    ));
                }
            }
            Ok(l)
        },
        Err(e) => Err(VaultError::Store(e)),
    }
}

/// The exported form of one lockbox: everything but the id, the phase and
/// the audit fields; content exactly as stored (still encrypted if it was
/// encrypted).
#[derive(Debug)]
pub struct ExportLockbox {
    pub name: String,
    pub content: String,
    pub category: Option<String>,
    pub unlock_delay_seconds: i64,
    pub relock_delay_seconds: i64,
}

/// The mathematical image of an [`ExportLockbox`].
pub ghost struct ExportLockboxV {
    pub name: Seq<char>,
    pub content: Seq<char>,
    pub category: Option<Seq<char>>,
    pub unlock_delay_seconds: int,
    pub relock_delay_seconds: int,
}

impl View for ExportLockbox {
    type V = ExportLockboxV;

    open spec fn view(&self) -> ExportLockboxV {
        ExportLockboxV {
            name: self.name@,
            content: self.content@,
            category: match self.category {
                Option::Some(ref c) => Option::Some(c@),
                Option::None => Option::None,
            },
            unlock_delay_seconds: self.unlock_delay_seconds as int,
            relock_delay_seconds: self.relock_delay_seconds as int,
        }
    }
}

/// The export/import document: a version marker, the export instant, and
/// the entries.
#[derive(Debug)]
pub struct ExportData {
    pub version: String,
    pub exported_at: i64,
    pub lockboxes: Vec<ExportLockbox>,
}

impl ExportData {
    /// The entries as their mathematical images, in document order.
    pub open spec fn entries(&self) -> Seq<ExportLockboxV> {
        self.lockboxes@.map_values(|e: ExportLockbox| e@)
    }
}

/// The entry a record exports to.
pub open spec fn export_entry_of(v: LockboxV) -> ExportLockboxV {
    ExportLockboxV {
        name: v.name,
        content: v.content,
        category: v.category,
        unlock_delay_seconds: v.unlock_delay_seconds,
        relock_delay_seconds: v.relock_delay_seconds,
    }
}

/// Builds the export document at `now`: every record, in name order, with
/// its content verbatim as stored.
pub fn export_lockboxes(db: &Database, now: i64) -> (r: ExportData)
    ensures
        r.version@ == "2.0.0"@,
        r.exported_at == now,
        r.entries().len() == db.recs().len(),
        forall|i: int|
            0 <= i < db.recs().len() ==> r.entries()[i] == export_entry_of(db.recs()[i]),
{
    let records = db.get_all_lockboxes();
    let n: usize = records.len();
    let mut entries: Vec<ExportLockbox> = Vec::new();
    let mut i: usize = 0;
    while i < n
        invariant
            n == records@.len(),
            records@.map_values(|l: Lockbox| l@) == db.recs(),
            0 <= i <= n,
            entries@.len() == i,
            forall|j: int|
                0 <= j < i ==> (#[trigger] entries@[j])@ == export_entry_of(db.recs()[j]),
        decreases n - i,
    {
        let rec = &records[i];
        let entry = ExportLockbox {
            name: rec.name.clone(),
            content: rec.content.clone(),
            category: match rec.category {
                Option::Some(ref c) => Option::Some(c.clone()),
                Option::None => Option::None,
            },
            unlock_delay_seconds: rec.unlock_delay_seconds,
            relock_delay_seconds: rec.relock_delay_seconds,
        };
        proof {
            assert(records@[i as int]@ == db.recs()[i as int]);
        }
        entries.push(entry);
        i += 1;
    }
    ExportData { version: "2.0.0".to_owned(), exported_at: now, lockboxes: entries }
}

/// Every entry's delays are within the accepted range.
pub open spec fn entries_wf(entries: Seq<ExportLockboxV>) -> bool {
    forall|k: int|
        0 <= k < entries.len() ==> 0 <= (#[trigger] entries[k]).unlock_delay_seconds
            <= MAX_DELAY_SECONDS && 0 <= entries[k].relock_delay_seconds <= MAX_DELAY_SECONDS
}

/// Entry `k` is one that import creates: no existing record carries its
/// name, and no earlier entry carries the same name. Every other entry is
/// skipped, without error.
pub open spec fn entry_is_imported(
    entries: Seq<ExportLockboxV>,
    existing: Seq<LockboxV>,
    k: int,
) -> bool {
    &&& 0 <= k < entries.len()
    &&& !contains_name(existing, entries[k].name)
    &&& forall|j: int| 0 <= j < k ==> (#[trigger] entries[j]).name != entries[k].name
}

/// The names import reports back: those of the imported entries, in
/// document order.
pub open spec fn imported_names(entries: Seq<ExportLockboxV>, existing: Seq<LockboxV>) -> Seq<
    Seq<char>,
>
    decreases entries.len(),
{
    if entries.len() == 0 {
        Seq::empty()
    } else {
        let prefix = imported_names(entries.drop_last(), existing);
        if entry_is_imported(entries, existing, entries.len() - 1) {
            prefix.push(entries.last().name)
        } else {
            prefix
        }
    }
}

/// The record entry `e` becomes when imported at `now`: locked, no
/// timers, content copied verbatim.
pub open spec fn matches_entry(v: LockboxV, e: ExportLockboxV, now: int) -> bool {
    &&& v.name == e.name
    &&& v.content == e.content
    &&& v.category == e.category
    &&& v.is_locked
    &&& v.unlock_delay_seconds == e.unlock_delay_seconds
    &&& v.relock_delay_seconds == e.relock_delay_seconds
    &&& v.unlock_timestamp is None
    &&& v.relock_timestamp is None
    &&& v.created_at == now
    &&& v.updated_at == now
}

proof fn lemma_contains_name_iff(s: Seq<LockboxV>, nm: Seq<char>)
    ensures
        contains_name(s, nm) <==> exists|v: LockboxV| #[trigger] s.contains(v) && v.name == nm,
{
    if contains_name(s, nm) {
        let i = choose|i: int| 0 <= i < s.len() && s[i].name == nm;
        assert(s.contains(s[i]) && s[i].name == nm);
    }
    if exists|v: LockboxV| #[trigger] s.contains(v) && v.name == nm {
        let v = choose|v: LockboxV| #[trigger] s.contains(v) && v.name == nm;
        let i = choose|i: int| 0 <= i < s.len() && s[i] == v;
        assert(0 <= i < s.len() && s[i].name == nm);
    }
}

/// If a name is neither taken by an existing record nor the name of an
/// imported entry before `i`, then no entry before `i` carries it at all.
proof fn lemma_no_earlier_same_name(
    entries: Seq<ExportLockboxV>,
    existing: Seq<LockboxV>,
    nm: Seq<char>,
    i: int,
)
    requires
        0 <= i <= entries.len(),
        !contains_name(existing, nm),
        forall|k: int|
            0 <= k < i ==> !(entry_is_imported(entries, existing, k) && (
            #[trigger] entries[k]).name == nm),
    ensures
        forall|j: int| 0 <= j < i ==> (#[trigger] entries[j]).name != nm,
    decreases i,
{
    if i > 0 {
        lemma_no_earlier_same_name(entries, existing, nm, i - 1);
        if entries[i - 1].name == nm {
            assert(entry_is_imported(entries, existing, i - 1));
            assert(false);
        }
    }
}

/// One step of `imported_names` along a growing prefix.
proof fn lemma_imported_names_step(
    entries: Seq<ExportLockboxV>,
    existing: Seq<LockboxV>,
    i: int,
)
    requires
        0 <= i < entries.len(),
    ensures
        imported_names(entries.take(i + 1), existing) == (if entry_is_imported(
            entries,
            existing,
            i,
        ) {
            imported_names(entries.take(i), existing).push(entries[i].name)
        } else {
            imported_names(entries.take(i), existing)
        }),
{
    let t = entries.take(i + 1);
    assert(t.drop_last() =~= entries.take(i));
    assert(t.last() == entries[i]);
    assert forall|j: int| 0 <= j <= i implies t[j] == entries[j] by {}
    if entry_is_imported(entries, existing, i) {
        assert(entry_is_imported(t, existing, i));
    }
    if entry_is_imported(t, existing, i) {
        assert(entry_is_imported(entries, existing, i));
    }
}

fn entry_delays_in_range(data: &ExportData) -> (r: bool)
    ensures
        r == entries_wf(data.entries()),
{
    let n: usize = data.lockboxes.len();
    let mut i: usize = 0;
    while i < n
        invariant
            n == data.lockboxes@.len(),
            0 <= i <= n,
            forall|j: int|
                0 <= j < i ==> 0 <= (#[trigger] data.entries()[j]).unlock_delay_seconds
                    <= MAX_DELAY_SECONDS && 0 <= data.entries()[j].relock_delay_seconds
                    <= MAX_DELAY_SECONDS,
        decreases n - i,
    {
        let e = &data.lockboxes[i];
        if e.unlock_delay_seconds < 0 || e.unlock_delay_seconds > MAX_DELAY_SECONDS
            || e.relock_delay_seconds < 0 || e.relock_delay_seconds > MAX_DELAY_SECONDS {
            proof {
                assert(data.entries()[i as int] == e@);
            }
            return false;
        }
        i += 1;
    }
    true
}

/// Imports a document at `now`. Entries with delays outside the accepted
/// range fail fast with `ImportFormatError`, and a document that could
/// exhaust the ids is refused whole, both before anything changes. An
/// entry whose name already exists — in the store or earlier in the
/// document — is skipped without error and without touching the existing
/// record; every other entry is created as a locked record with its
/// content verbatim. Returns the created names in document order.
pub fn import_lockboxes(db: &mut Database, data: ExportData, now: i64) -> (r: Result<
    Vec<String>,
    VaultError,
>)
    requires
        old(db).wf(),
        0 <= now <= MAX_INSTANT_MS,
    ensures
        final(db).wf(),
        r is Err ==> *final(db) == *old(db),
        r == Err::<Vec<String>, VaultError>(VaultError::ImportFormatError) <==> !entries_wf(
            data.entries(),
        ),
        r == Err::<Vec<String>, VaultError>(VaultError::Store(StoreError::StoreUnavailable)) <==> (
        entries_wf(data.entries()) && old(db).next_id_spec() + data.entries().len() > i64::MAX),
        r is Ok <==> (entries_wf(data.entries()) && old(db).next_id_spec() + data.entries().len()
            <= i64::MAX),
        r matches Ok(names) ==> names@.map_values(|s: String| s@) == imported_names(
            data.entries(),
            old(db).recs(),
        ),
        r is Ok ==> forall|v: LockboxV|
            old(db).recs().contains(v) ==> final(db).recs().contains(v),
        r is Ok ==> forall|v: LockboxV|
            final(db).recs().contains(v) ==> old(db).recs().contains(v) || (exists|k: int|
                entry_is_imported(data.entries(), old(db).recs(), k) && matches_entry(
                    v,
                    data.entries()[k],
                    now as int,
                )),
        r is Ok ==> forall|k: int|
            entry_is_imported(data.entries(), old(db).recs(), k) ==> (exists|v: LockboxV|
                final(db).recs().contains(v) && matches_entry(v, data.entries()[k], now as int)),
        forall|kk: Seq<char>| final(db).setting_of(kk) == old(db).setting_of(kk),
{
    let n: usize = data.lockboxes.len();
    if !entry_delays_in_range(&data) {
        return Err(VaultError::ImportFormatError);
    }
    if !db.can_create(n) {
        return Err(VaultError::Store(StoreError::StoreUnavailable));
    }
    let ghost gentries = data.entries();
    let ghost olds = old(db).recs();
    let mut imported: Vec<String> = Vec::new();
    let mut i: usize = 0;
    proof {
        assert(gentries.take(0) =~= Seq::<ExportLockboxV>::empty());
        assert(imported@.map_values(|s: String| s@) =~= imported_names(gentries.take(0), olds));
    }
    while i < n
        invariant
            db.wf(),
            n == data.lockboxes@.len(),
            gentries == data.entries(),
            olds == old(db).recs(),
            entries_wf(gentries),
            0 <= i <= n,
            old(db).next_id_spec() + n <= i64::MAX,
            old(db).next_id_spec() <= db.next_id_spec() <= old(db).next_id_spec() + i,
            forall|v: LockboxV| olds.contains(v) ==> db.recs().contains(v),
            forall|v: LockboxV|
                db.recs().contains(v) ==> olds.contains(v) || (exists|k: int|
                    0 <= k < i && entry_is_imported(gentries, olds, k) && matches_entry(
                        v,
                        gentries[k],
                        now as int,
                    )),
            forall|k: int|
                0 <= k < i && entry_is_imported(gentries, olds, k) ==> (exists|v: LockboxV|
                    db.recs().contains(v) && matches_entry(v, gentries[k], now as int)),
            imported@.map_values(|s: String| s@) == imported_names(gentries.take(i as int), olds),
            forall|kk: Seq<char>| db.setting_of(kk) == old(db).setting_of(kk),
            0 <= now <= MAX_INSTANT_MS,
        decreases n - i,
    {
        let ghost gi = i as int;
        let e = &data.lockboxes[i];
        proof {
            assert(e@ == gentries[gi]);
        }
        if db.has_name(e.name.as_str()) {
            proof {
                lemma_contains_name_iff(db.recs(), gentries[gi].name);
                let v = choose|v: LockboxV| #[trigger]
                    db.recs().contains(v) && v.name == gentries[gi].name;
                if !contains_name(olds, gentries[gi].name) {
                    lemma_contains_name_iff(olds, gentries[gi].name);
                    assert(!olds.contains(v));
                    let k = choose|k: int|
                        0 <= k < gi && entry_is_imported(gentries, olds, k) && matches_entry(
                            v,
                            gentries[k],
                            now as int,
                        );
                    assert(gentries[k].name == gentries[gi].name);
                    assert(!entry_is_imported(gentries, olds, gi));
                }
                lemma_imported_names_step(gentries, olds, gi);
                assert(imported@.map_values(|s: String| s@) == imported_names(
                    gentries.take(gi + 1),
                    olds,
                ));
            }
        } else {
            proof {
                lemma_contains_name_iff(db.recs(), gentries[gi].name);
                lemma_contains_name_iff(olds, gentries[gi].name);
                if contains_name(olds, gentries[gi].name) {
                    let v = choose|v: LockboxV| #[trigger]
                        olds.contains(v) && v.name == gentries[gi].name;
                    assert(db.recs().contains(v));
                    assert(false);
                }
                assert forall|k: int|
                    0 <= k < gi implies !(entry_is_imported(gentries, olds, k) && (
                #[trigger] gentries[k]).name == gentries[gi].name) by {
                    if entry_is_imported(gentries, olds, k) && gentries[k].name == gentries[
                        gi
                    ].name {
                        let v = choose|v: LockboxV|
                            db.recs().contains(v) && matches_entry(v, gentries[k], now as int);
                        assert(db.recs().contains(v) && v.name == gentries[gi].name);
                    }
                }
                lemma_no_earlier_same_name(gentries, olds, gentries[gi].name, gi);
                assert(entry_is_imported(gentries, olds, gi));
            }
            let ghost before = db.recs();
            let req = CreateLockboxRequest {
                name: e.name.clone(),
                content: e.content.clone(),
                category: match e.category {
                    Option::Some(ref c) => Option::Some(c.clone()),
                    Option::None => Option::None,
                },
                unlock_delay_seconds: e.unlock_delay_seconds,
                relock_delay_seconds: e.relock_delay_seconds,
            };
            match db.create_lockbox(req, now) {
                Ok(l) => {
                    proof {
                        assert(matches_entry(l@, gentries[gi], now as int));
                        assert forall|v: LockboxV|
                            db.recs().contains(v) implies olds.contains(v) || (exists|k: int|
                            0 <= k < gi + 1 && entry_is_imported(gentries, olds, k)
                                && matches_entry(v, gentries[k], now as int)) by {
                            if v == l@ {
                                assert(0 <= gi < gi + 1 && entry_is_imported(gentries, olds, gi)
                                    && matches_entry(v, gentries[gi], now as int));
                            } else {
                                assert(before.contains(v));
                            }
                        }
                        assert forall|k: int|
                            0 <= k < gi + 1 && entry_is_imported(gentries, olds, k) implies (
                        exists|v: LockboxV|
                            db.recs().contains(v) && matches_entry(v, gentries[k], now as int)) by {
                            if k == gi {
                                assert(db.recs().contains(l@) && matches_entry(
                                    l@,
                                    gentries[gi],
                                    now as int,
                                ));
                            } else {
                                let v = choose|v: LockboxV|
                                    before.contains(v) && matches_entry(v, gentries[k], now as int);
                                assert(db.recs().contains(v) && matches_entry(
                                    v,
                                    gentries[k],
                                    now as int,
                                ));
                            }
                        }
                        lemma_imported_names_step(gentries, olds, gi);
                    }
                    let ghost prev_names = imported@;
                    let name_copy = e.name.clone();
                    proof {
                        assert(name_copy@ == gentries[gi].name);
                    }
                    imported.push(name_copy);
                    proof {
                        assert(imported@.map_values(|s: String| s@) =~= prev_names.map_values(
                            |s: String| s@,
                        ).push(gentries[gi].name));
                        assert(imported@.map_values(|s: String| s@) == imported_names(
                            gentries.take(gi + 1),
                            olds,
                        ));
                    }
                },
                Err(_) => {
                    proof {
                        assert(false);
                    }
                    return Err(VaultError::Store(StoreError::StoreUnavailable));
                },
            }
        }
        i += 1;
    }
    proof {
        assert(gentries.take(n as int) =~= gentries);
        assert forall|v: LockboxV|
            db.recs().contains(v) implies olds.contains(v) || (exists|k: int|
            entry_is_imported(gentries, olds, k) && matches_entry(v, gentries[k], now as int)) by {
        }
        assert forall|k: int|
            entry_is_imported(gentries, olds, k) implies (exists|v: LockboxV|
            db.recs().contains(v) && matches_entry(v, gentries[k], now as int)) by {
        }
    }
    Ok(imported)
}

} // verus!
