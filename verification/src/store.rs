//! The lockbox store: an in-memory model of the durable layer with the
//! invariants it relies on — unique ids that are never reused, unique
//! names, records kept in ascending name order (the order the durable
//! schema lists them in), well-formed time-lock state on every record, and
//! a small key-value settings table with unique keys.
//!
//! Every operation takes the current instant as an argument; the store
//! never reads a clock.

use vstd::prelude::*;

use crate::text::{bytes_le, name_le, name_le_exec, str_eq};
use crate::text::{lemma_bytes_le_total, lemma_bytes_le_transitive};
use crate::timelock::{
    relocked, ticked, unlock_completed, unlock_requested, Lockbox, LockboxV, MAX_DELAY_SECONDS,
    MAX_INSTANT_MS,
};
use vstd::pervasive::VecAdditionalExecFns;

verus! {

/// How a store operation fails: the name is already taken, the record does
/// not exist, or the store can accept no further record.
#[derive(Clone, Copy, Debug, PartialEq, Eq, Structural)]
pub enum StoreError {
    DuplicateName,
    RecordNotFound,
    StoreUnavailable,
}

/// The fields a new lockbox is created from.
#[derive(Debug)]
pub struct CreateLockboxRequest {
    pub name: String,
    pub content: String,
    pub category: Option<String>,
    pub unlock_delay_seconds: i64,
    pub relock_delay_seconds: i64,
}

/// The mathematical image of a [`CreateLockboxRequest`].
pub ghost struct CreateRequestV {
    pub name: Seq<char>,
    pub content: Seq<char>,
    pub category: Option<Seq<char>>,
    pub unlock_delay_seconds: int,
    pub relock_delay_seconds: int,
}

impl View for CreateLockboxRequest {
    type V = CreateRequestV;

    open spec fn view(&self) -> CreateRequestV {
        CreateRequestV {
            name: self.name@,
            content: self.content@,
            category: match self.category {
                Option::Some(ref c) => Option::Some(c@),
                Option::None => Option::None,
            },
            unlock_delay_seconds: self.unlock_delay_seconds as int,
            relock_delay_seconds: self.relock_delay_seconds as int,
        }
    }
}

/// A partial update: a field that is `None` keeps the stored value. An
/// absent `category` also keeps the stored value — there is no way to
/// clear a category through an update.
#[derive(Debug)]
pub struct UpdateLockboxRequest {
    pub id: i64,
    pub name: Option<String>,
    pub content: Option<String>,
    pub category: Option<String>,
    pub unlock_delay_seconds: Option<i64>,
    pub relock_delay_seconds: Option<i64>,
}

/// The mathematical image of an [`UpdateLockboxRequest`].
pub ghost struct UpdateRequestV {
    pub id: int,
    pub name: Option<Seq<char>>,
    pub content: Option<Seq<char>>,
    pub category: Option<Seq<char>>,
    pub unlock_delay_seconds: Option<int>,
    pub relock_delay_seconds: Option<int>,
}

impl View for UpdateLockboxRequest {
    type V = UpdateRequestV;

    open spec fn view(&self) -> UpdateRequestV {
        UpdateRequestV {
            id: self.id as int,
            name: match self.name {
                Option::Some(ref n) => Option::Some(n@),
                Option::None => Option::None,
            },
            content: match self.content {
                Option::Some(ref c) => Option::Some(c@),
                Option::None => Option::None,
            },
            category: match self.category {
                Option::Some(ref c) => Option::Some(c@),
                Option::None => Option::None,
            },
            unlock_delay_seconds: match self.unlock_delay_seconds {
                Option::Some(d) => Option::Some(d as int),
                Option::None => Option::None,
            },
            relock_delay_seconds: match self.relock_delay_seconds {
                Option::Some(d) => Option::Some(d as int),
                Option::None => Option::None,
            },
        }
    }
}

/// Some record in `s` carries this name.
pub open spec fn contains_name(s: Seq<LockboxV>, name: Seq<char>) -> bool {
    exists|i: int| 0 <= i < s.len() && s[i].name == name
}

/// Some record in `s` carries this id.
pub open spec fn contains_id(s: Seq<LockboxV>, id: int) -> bool {
    exists|i: int| 0 <= i < s.len() && s[i].id == id
}

/// The record a new lockbox starts as: locked, no timers, both audit
/// timestamps at the creation instant.
pub open spec fn new_record(req: CreateRequestV, id: int, now: int) -> LockboxV {
    LockboxV {
        id: id,
        name: req.name,
        content: req.content,
        category: req.category,
        is_locked: true,
        unlock_delay_seconds: req.unlock_delay_seconds,
        relock_delay_seconds: req.relock_delay_seconds,
        unlock_timestamp: Option::None,
        relock_timestamp: Option::None,
        created_at: now,
        updated_at: now,
    }
}

/// The record a partial update turns `r` into: present fields replace the
/// stored ones, absent fields (and an absent category) keep them; the
/// phase, the timers, the id and `created_at` are untouched and
/// `updated_at` moves to `now`.
pub open spec fn applied_update(r: LockboxV, req: UpdateRequestV, now: int) -> LockboxV {
    LockboxV {
        name: match req.name {
            Option::Some(n) => n,
            Option::None => r.name,
        },
        content: match req.content {
            Option::Some(c) => c,
            Option::None => r.content,
        },
        category: match req.category {
            Option::Some(c) => Option::Some(c),
            Option::None => r.category,
        },
        unlock_delay_seconds: match req.unlock_delay_seconds {
            Option::Some(d) => d,
            Option::None => r.unlock_delay_seconds,
        },
        relock_delay_seconds: match req.relock_delay_seconds {
            Option::Some(d) => d,
            Option::None => r.relock_delay_seconds,
        },
        updated_at: now,
        ..r
    }
}

/// First-match lookup in an association list of views.
pub open spec fn assoc_lookup(s: Seq<(Seq<char>, Seq<char>)>, key: Seq<char>) -> Option<Seq<char>>
    decreases s.len(),
{
    if s.len() == 0 {
        Option::None
    } else if s[0].0 == key {
        Option::Some(s[0].1)
    } else {
        assoc_lookup(s.drop_first(), key)
    }
}

proof fn lemma_assoc_lookup_update(
    s: Seq<(Seq<char>, Seq<char>)>,
    i: int,
    value: Seq<char>,
    key2: Seq<char>,
)
    requires
        0 <= i < s.len(),
        forall|j: int| 0 <= j < i ==> s[j].0 != s[i].0,
    ensures
        assoc_lookup(s.update(i, (s[i].0, value)), key2) == (if key2 == s[i].0 {
            Option::Some(value)
        } else {
            assoc_lookup(s, key2)
        }),
    decreases s.len(),
{
    let t = s.update(i, (s[i].0, value));
    if i == 0 {
        assert(t.drop_first() =~= s.drop_first());
    } else {
        assert(t[0] == s[0]);
        if s[0].0 == key2 {
        } else {
            assert(t.drop_first() =~= s.drop_first().update(i - 1, (s[i].0, value)));
            assert(s.drop_first()[i - 1] == s[i]);
            lemma_assoc_lookup_update(s.drop_first(), i - 1, value, key2);
        }
    }
}

proof fn lemma_assoc_lookup_push(
    s: Seq<(Seq<char>, Seq<char>)>,
    p: (Seq<char>, Seq<char>),
    key2: Seq<char>,
)
    ensures
        assoc_lookup(s.push(p), key2) == (if assoc_lookup(s, key2) is Some {
            assoc_lookup(s, key2)
        } else if key2 == p.0 {
            Option::Some(p.1)
        } else {
            Option::None
        }),
    decreases s.len(),
{
    if s.len() == 0 {
        assert(s.push(p)[0] == p);
        assert(s.push(p).drop_first() =~= Seq::<(Seq<char>, Seq<char>)>::empty());
    } else {
        assert(s.push(p)[0] == s[0]);
        if s[0].0 == key2 {
        } else {
            assert(s.push(p).drop_first() =~= s.drop_first().push(p));
            lemma_assoc_lookup_push(s.drop_first(), p, key2);
        }
    }
}

/// The in-memory store: the lockbox records in ascending name order, the
/// settings table, and the next id to hand out.
pub struct Database {
    lockboxes: Vec<Lockbox>,
    settings: Vec<(String, String)>,
    next_id: i64,
}

impl Database {
    /// The stored records, as their mathematical images, in list order.
    pub closed spec fn recs(&self) -> Seq<LockboxV> {
        self.lockboxes@.map_values(|l: Lockbox| l@)
    }

    /// The id the next created lockbox will get.
    pub closed spec fn next_id_spec(&self) -> int {
        self.next_id as int
    }

    spec fn setting_pairs(&self) -> Seq<(Seq<char>, Seq<char>)> {
        self.settings@.map_values(|p: (String, String)| (p.0@, p.1@))
    }

    /// The value stored under `key`, if any.
    pub closed spec fn setting_of(&self, key: Seq<char>) -> Option<Seq<char>> {
        assoc_lookup(self.setting_pairs(), key)
    }

    /// The store's invariant: well-formed records; ids positive, unique and
    /// below the next id; names unique and in ascending byte-lexicographic
    /// order; settings keys unique.
    pub closed spec fn wf(&self) -> bool {
        &&& forall|i: int| 0 <= i < self.recs().len() ==> (#[trigger] self.recs()[i]).wf()
        &&& forall|i: int|
            0 <= i < self.recs().len() ==> 0 < (#[trigger] self.recs()[i]).id
                < self.next_id_spec()
        &&& forall|i: int, j: int|
            0 <= i < j < self.recs().len() ==> (#[trigger] self.recs()[i]).id != (
            #[trigger] self.recs()[j]).id
        &&& forall|i: int, j: int|
            0 <= i < j < self.recs().len() ==> (#[trigger] self.recs()[i]).name != (
            #[trigger] self.recs()[j]).name
        &&& forall|i: int, j: int|
            0 <= i < j < self.recs().len() ==> name_le(
                (#[trigger] self.recs()[i]).name,
                (#[trigger] self.recs()[j]).name,
            )
        &&& forall|i: int, j: int|
            0 <= i < j < self.setting_pairs().len() ==> (#[trigger] self.setting_pairs()[i]).0 != (
            #[trigger] self.setting_pairs()[j]).0
        &&& 0 < self.next_id_spec() <= i64::MAX
    }

    /// A fresh, empty store.
    pub fn new() -> (r: Database)
        ensures
            r.wf(),
            r.recs().len() == 0,
            forall|k: Seq<char>| r.setting_of(k) is None,
            r.next_id_spec() == 1,
    {
        let r = Database { lockboxes: Vec::new(), settings: Vec::new(), next_id: 1 };
        proof {
            assert(r.recs() =~= Seq::<LockboxV>::empty());
            assert(r.setting_pairs() =~= Seq::<(Seq<char>, Seq<char>)>::empty());
        }
        r
    }

    /// Whether some record already carries `name`.
    pub fn has_name(&self, name: &str) -> (r: bool)
        ensures
            r == contains_name(self.recs(), name@),
    {
        let n: usize = self.lockboxes.len();
        let mut i: usize = 0;
        while i < n
            invariant
                n == self.lockboxes@.len(),
                0 <= i <= n,
                forall|j: int| 0 <= j < i ==> (#[trigger] self.recs()[j]).name != name@,
            decreases n - i,
        {
            if str_eq(self.lockboxes[i].name.as_str(), name) {
                assert(self.recs()[i as int].name == name@);
                return true;
            }
            i += 1;
        }
        false
    }

    fn index_of_id(&self, id: i64) -> (r: Option<usize>)
        ensures
            r matches Some(i) ==> i < self.recs().len() && self.recs()[i as int].id == id,
            r is None ==> !contains_id(self.recs(), id as int),
    {
        let n: usize = self.lockboxes.len();
        let mut i: usize = 0;
        while i < n
            invariant
                n == self.lockboxes@.len(),
                0 <= i <= n,
                forall|j: int| 0 <= j < i ==> (#[trigger] self.recs()[j]).id != id,
            decreases n - i,
        {
            if self.lockboxes[i].id == id {
                return Some(i);
            }
            i += 1;
        }
        None
    }

    /// The record with this id, as a copy, or `None` when there is none.
    pub fn get_lockbox(&self, id: i64) -> (r: Option<Lockbox>)
        ensures
            r matches Some(l) ==> self.recs().contains(l@) && l@.id == id,
            r is None <==> !contains_id(self.recs(), id as int),
    {
        match self.index_of_id(id) {
            Some(i) => {
                let l = self.lockboxes[i].clone();
                proof {
                    assert(self.recs()[i as int] == l@);
                }
                Some(l)
            },
            None => None,
        }
    }

    /// All records, copied, in ascending name order (the stored order).
    pub fn get_all_lockboxes(&self) -> (r: Vec<Lockbox>)
        ensures
            r@.map_values(|l: Lockbox| l@) == self.recs(),
            self.wf() ==> forall|i: int, j: int|
                0 <= i < j < r@.len() ==> name_le(
                    (#[trigger] r@[i])@.name,
                    (#[trigger] r@[j])@.name,
                ),
    {
        let r = self.lockboxes.clone();
        proof {
            assert(r@.map_values(|l: Lockbox| l@) =~= self.recs());
            if self.wf() {
                assert forall|i: int, j: int| 0 <= i < j < r@.len() implies name_le(
                    (#[trigger] r@[i])@.name,
                    (#[trigger] r@[j])@.name,
                ) by {
                    assert(r@[i]@ == self.recs()[i]);
                    assert(r@[j]@ == self.recs()[j]);
                }
            }
        }
        r
    }

    /// The value stored under `key`, or `None`.
    pub fn get_setting(&self, key: &str) -> (r: Option<String>)
        ensures
            r matches Some(v) ==> self.setting_of(key@) == Option::Some(v@),
            r is None <==> self.setting_of(key@) is None,
    {
        let n: usize = self.settings.len();
        let mut i: usize = 0;
        proof {
            assert(self.setting_pairs().skip(0) =~= self.setting_pairs());
        }
        while i < n
            invariant
                n == self.settings@.len(),
                0 <= i <= n,
                assoc_lookup(self.setting_pairs(), key@) == assoc_lookup(
                    self.setting_pairs().skip(i as int),
                    key@,
                ),
            decreases n - i,
        {
            if str_eq(self.settings[i].0.as_str(), key) {
                let v = self.settings[i].1.clone();
                proof {
                    assert(self.setting_pairs().skip(i as int)[0] == self.setting_pairs()[i as int]);
                }
                return Some(v);
            }
            proof {
                assert(self.setting_pairs().skip(i as int)[0] == self.setting_pairs()[i as int]);
                assert(self.setting_pairs().skip(i as int).drop_first() =~= self.setting_pairs().skip(
                    i + 1,
                ));
            }
            i += 1;
        }
        proof {
            assert(self.setting_pairs().skip(n as int) =~= Seq::<(Seq<char>, Seq<char>)>::empty());
        }
        None
    }

    /// Stores `value` under `key`, inserting or replacing; every other key
    /// and all records are untouched.
    pub fn set_setting(&mut self, key: &str, value: &str)
        requires
            old(self).wf(),
        ensures
            final(self).wf(),
            final(self).setting_of(key@) == Option::Some(value@),
            forall|k: Seq<char>| k != key@ ==> final(self).setting_of(k) == old(self).setting_of(k),
            final(self).recs() == old(self).recs(),
            final(self).next_id_spec() == old(self).next_id_spec(),
    {
        let ghost orig = self.setting_pairs();
        let pair = (key.to_owned(), value.to_owned());
        match self.index_of_setting(key) {
            Some(i) => {
                let ghost gi = i as int;
                assert(self.setting_pairs()[gi].0 == key@);
                self.settings.set(i, pair);
                proof {
                    assert(self.setting_pairs() =~= orig.update(gi, (key@, value@)));
                    assert((orig[gi].0, value@) == (key@, value@));
                    assert forall|k2: Seq<char>|
                        self.setting_of(k2) == (if k2 == key@ {
                            Option::Some(value@)
                        } else {
                            assoc_lookup(orig, k2)
                        }) by {
                        lemma_assoc_lookup_update(orig, gi, value@, k2);
                    }
                }
            },
            None => {
                self.settings.push(pair);
                proof {
                    assert(self.setting_pairs() =~= orig.push((key@, value@)));
                    lemma_assoc_lookup_none(orig, key@);
                    assert forall|k2: Seq<char>|
                        self.setting_of(k2) == (if k2 == key@ {
                            Option::Some(value@)
                        } else {
                            assoc_lookup(orig, k2)
                        }) by {
                        lemma_assoc_lookup_push(orig, (key@, value@), k2);
                    }
                }
            },
        }
    }

    fn index_of_setting(&self, key: &str) -> (r: Option<usize>)
        ensures
            r matches Some(i) ==> i < self.setting_pairs().len() && self.setting_pairs()[
                i as int
            ].0 == key@,
            r is None ==> forall|j: int|
                0 <= j < self.setting_pairs().len() ==> (#[trigger] self.setting_pairs()[j]).0
                    != key@,
    {
        let n: usize = self.settings.len();
        let mut i: usize = 0;
        while i < n
            invariant
                n == self.settings@.len(),
                0 <= i <= n,
                forall|j: int| 0 <= j < i ==> (#[trigger] self.setting_pairs()[j]).0 != key@,
            decreases n - i,
        {
            if str_eq(self.settings[i].0.as_str(), key) {
                assert(self.setting_pairs()[i as int].0 == key@);
                return Some(i);
            }
            i += 1;
        }
        None
    }

    fn insertion_index(&self, name: &str) -> (r: usize)
        ensures
            r <= self.recs().len(),
            forall|j: int| 0 <= j < r ==> !name_le(name@, (#[trigger] self.recs()[j]).name),
            r < self.recs().len() ==> name_le(name@, self.recs()[r as int].name),
    {
        let n: usize = self.lockboxes.len();
        let mut i: usize = 0;
        while i < n
            invariant
                n == self.lockboxes@.len(),
                0 <= i <= n,
                forall|j: int| 0 <= j < i ==> !name_le(name@, (#[trigger] self.recs()[j]).name),
            decreases n - i,
        {
            if name_le_exec(name, self.lockboxes[i].name.as_str()) {
                return i;
            }
            i += 1;
        }
        i
    }

    /// Inserts a record with a fresh id and a fresh name at its place in
    /// the name order.
    fn insert_sorted(&mut self, rec: Lockbox)
        requires
            old(self).wf(),
            rec@.wf(),
            0 < rec@.id < old(self).next_id_spec(),
            !contains_id(old(self).recs(), rec@.id),
            !contains_name(old(self).recs(), rec@.name),
        ensures
            final(self).wf(),
            final(self).recs().len() == old(self).recs().len() + 1,
            final(self).recs().contains(rec@),
            forall|v: LockboxV|
                old(self).recs().contains(v) ==> final(self).recs().contains(v),
            forall|v: LockboxV|
                final(self).recs().contains(v) ==> v == rec@ || old(self).recs().contains(v),
            forall|k: Seq<char>| final(self).setting_of(k) == old(self).setting_of(k),
            final(self).next_id_spec() == old(self).next_id_spec(),
    {
        let ghost olds = self.recs();
        let ghost v = rec@;
        let idx = self.insertion_index(rec.name.as_str());
        let ghost gidx = idx as int;
        self.lockboxes.insert(idx, rec);
        proof {
            old(self).lockboxes@.insert_ensures(gidx, rec);
            olds.insert_ensures(gidx, v);
            assert(self.recs() =~= olds.insert(gidx, v));
            let t = self.recs();
            // The new record is present, and every old record keeps a slot.
            assert(t[gidx] == v);
            assert(t.contains(v));
            assert forall|w: LockboxV| olds.contains(w) implies t.contains(w) by {
                let k = choose|k: int| 0 <= k < olds.len() && olds[k] == w;
                if k < gidx {
                    assert(t[k] == w);
                } else {
                    assert(t[k + 1] == w);
                }
            }
            assert forall|w: LockboxV| t.contains(w) implies w == v || olds.contains(w) by {
                let k = choose|k: int| 0 <= k < t.len() && t[k] == w;
                if k < gidx {
                    assert(olds[k] == w);
                } else if k > gidx {
                    assert(olds[k - 1] == w);
                }
            }
            // Name order around the insertion point.
            assert forall|i: int, j: int| 0 <= i < j < t.len() implies name_le(
                (#[trigger] t[i]).name,
                (#[trigger] t[j]).name,
            ) by {
                if i < gidx && j < gidx {
                    assert(t[i] == olds[i] && t[j] == olds[j]);
                } else if i > gidx && j > gidx {
                    assert(t[i] == olds[i - 1] && t[j] == olds[j - 1]);
                } else if i < gidx && j > gidx {
                    assert(t[i] == olds[i] && t[j] == olds[j - 1]);
                } else if j == gidx {
                    assert(t[i] == olds[i]);
                    lemma_bytes_le_total(
                        vstd::utf8::encode_utf8(v.name),
                        vstd::utf8::encode_utf8(olds[i].name),
                    );
                } else {
                    assert(i == gidx && j > gidx);
                    assert(t[j] == olds[j - 1]);
                    assert(gidx < olds.len());
                    assert(name_le(v.name, olds[gidx].name));
                    if j - 1 > gidx {
                        lemma_bytes_le_transitive(
                            vstd::utf8::encode_utf8(v.name),
                            vstd::utf8::encode_utf8(olds[gidx].name),
                            vstd::utf8::encode_utf8(olds[j - 1].name),
                        );
                    }
                }
            }
            assert forall|i: int, j: int| 0 <= i < j < t.len() implies (#[trigger] t[i]).name != (
            #[trigger] t[j]).name by {
                if i == gidx {
                    assert(t[j] == olds[j - 1]);
                } else if j == gidx {
                    assert(t[i] == olds[i]);
                } else if i < gidx && j > gidx {
                    assert(t[i] == olds[i] && t[j] == olds[j - 1]);
                } else if i < gidx {
                    assert(t[i] == olds[i] && t[j] == olds[j]);
                } else {
                    assert(t[i] == olds[i - 1] && t[j] == olds[j - 1]);
                }
            }
            assert forall|i: int, j: int| 0 <= i < j < t.len() implies (#[trigger] t[i]).id != (
            #[trigger] t[j]).id by {
                if i == gidx {
                    assert(t[j] == olds[j - 1]);
                } else if j == gidx {
                    assert(t[i] == olds[i]);
                } else if i < gidx && j > gidx {
                    assert(t[i] == olds[i] && t[j] == olds[j - 1]);
                } else if i < gidx {
                    assert(t[i] == olds[i] && t[j] == olds[j]);
                } else {
                    assert(t[i] == olds[i - 1] && t[j] == olds[j - 1]);
                }
            }
            assert forall|i: int| 0 <= i < t.len() implies (#[trigger] t[i]).wf() && 0 < t[i].id
                < self.next_id_spec() by {
                if i < gidx {
                    assert(t[i] == olds[i]);
                } else if i > gidx {
                    assert(t[i] == olds[i - 1]);
                }
            }
        }
    }

    /// Creates a lockbox: fails with `DuplicateName` exactly when the name
    /// is taken and with `StoreUnavailable` exactly when the ids are
    /// exhausted; otherwise adds the locked, timerless record under a
    /// fresh id with both audit timestamps at `now`, and returns a copy.
    pub fn create_lockbox(&mut self, req: CreateLockboxRequest, now: i64) -> (r: Result<
        Lockbox,
        StoreError,
    >)
        requires
            old(self).wf(),
            0 <= now <= MAX_INSTANT_MS,
            0 <= req@.unlock_delay_seconds <= MAX_DELAY_SECONDS,
            0 <= req@.relock_delay_seconds <= MAX_DELAY_SECONDS,
        ensures
            final(self).wf(),
            contains_name(old(self).recs(), req@.name) <==> r == Err::<Lockbox, StoreError>(
                StoreError::DuplicateName,
            ),
            r is Err ==> *final(self) == *old(self),
            r matches Err(e) ==> e == StoreError::DuplicateName || (e == StoreError::StoreUnavailable
                && old(self).next_id_spec() == i64::MAX),
            r matches Ok(l) ==> l@ == new_record(req@, old(self).next_id_spec(), now as int)
                && final(self).next_id_spec() == old(self).next_id_spec() + 1
                && final(self).recs().len() == old(self).recs().len() + 1
                && final(self).recs().contains(l@),
            r is Ok ==> forall|v: LockboxV|
                old(self).recs().contains(v) ==> final(self).recs().contains(v),
            r matches Ok(l) ==> forall|v: LockboxV|
                final(self).recs().contains(v) ==> v == l@ || old(self).recs().contains(v),
            forall|k: Seq<char>| final(self).setting_of(k) == old(self).setting_of(k),
    {
        if self.has_name(req.name.as_str()) {
            return Err(StoreError::DuplicateName);
        }
        if self.next_id == i64::MAX {
            return Err(StoreError::StoreUnavailable);
        }
        let id = self.next_id;
        let rec = Lockbox {
            id: id,
            name: req.name,
            content: req.content,
            category: req.category,
            is_locked: true,
            unlock_delay_seconds: req.unlock_delay_seconds,
            relock_delay_seconds: req.relock_delay_seconds,
            unlock_timestamp: None,
            relock_timestamp: None,
            created_at: now,
            updated_at: now,
        };
        let result = rec.clone();
        self.next_id = id + 1;
        assert(self.recs() =~= old(self).recs());
        assert(self.setting_pairs() =~= old(self).setting_pairs());
        self.insert_sorted(rec);
        Ok(result)
    }

    /// Applies a partial update to the record with `req.id`: fails with
    /// `RecordNotFound` exactly when no record has that id, and with
    /// `DuplicateName` exactly when it renames the record to a name some
    /// other record holds; otherwise present fields replace stored ones
    /// and the updated record is returned as a copy.
    pub fn update_lockbox(&mut self, req: UpdateLockboxRequest, now: i64) -> (r: Result<
        Lockbox,
        StoreError,
    >)
        requires
            old(self).wf(),
            0 <= now <= MAX_INSTANT_MS,
            req@.unlock_delay_seconds matches Some(d) ==> 0 <= d <= MAX_DELAY_SECONDS,
            req@.relock_delay_seconds matches Some(d) ==> 0 <= d <= MAX_DELAY_SECONDS,
        ensures
            final(self).wf(),
            !contains_id(old(self).recs(), req@.id) <==> r == Err::<Lockbox, StoreError>(
                StoreError::RecordNotFound,
            ),
            r is Err ==> *final(self) == *old(self),
            r matches Err(e) ==> e == StoreError::RecordNotFound || e == StoreError::DuplicateName,
            r == Err::<Lockbox, StoreError>(StoreError::DuplicateName) <==> contains_id(
                old(self).recs(),
                req@.id,
            ) && (req@.name matches Some(n)
                && n != old(self).recs()[index_of_id_spec(old(self).recs(), req@.id)].name
                && contains_name(old(self).recs(), n)),
            r matches Ok(l) ==> l@ == applied_update(
                old(self).recs()[index_of_id_spec(old(self).recs(), req@.id)],
                req@,
                now as int,
            ) && final(self).recs().len() == old(self).recs().len(),
            r matches Ok(l) ==> forall|v: LockboxV|
                final(self).recs().contains(v) <==> ((old(self).recs().contains(v) && v.id
                    != req@.id) || v == l@),
            forall|k: Seq<char>| final(self).setting_of(k) == old(self).setting_of(k),
            final(self).next_id_spec() == old(self).next_id_spec(),
    {
        let i = match self.index_of_id(req.id) {
            Some(i) => i,
            None => {
                return Err(StoreError::RecordNotFound);
            },
        };
        let ghost olds = self.recs();
        let ghost gi = i as int;
        proof {
            assert(olds[gi].id == req@.id);
            lemma_index_of_id_pins(olds, req@.id, gi);
        }
        let current = self.lockboxes[i].clone();
        if let Some(ref n) = req.name {
            if !str_eq(n.as_str(), current.name.as_str()) && self.has_name(n.as_str()) {
                return Err(StoreError::DuplicateName);
            }
        }
        self.lockboxes.remove(i);
        proof {
            old(self).lockboxes@.remove_ensures(gi);
            olds.remove_ensures(gi);
            assert(self.recs() =~= olds.remove(gi));
            lemma_remove_keeps_wf(olds, gi, old(self).next_id_spec());
            assert(self.setting_pairs() =~= old(self).setting_pairs());
        }
        let ghost mids = self.recs();
        let updated = Lockbox {
            id: current.id,
            name: match req.name {
                Some(n) => n,
                None => current.name,
            },
            content: match req.content {
                Some(c) => c,
                None => current.content,
            },
            category: match req.category {
                Some(c) => Some(c),
                None => current.category,
            },
            is_locked: current.is_locked,
            unlock_delay_seconds: match req.unlock_delay_seconds {
                Some(d) => d,
                None => current.unlock_delay_seconds,
            },
            relock_delay_seconds: match req.relock_delay_seconds {
                Some(d) => d,
                None => current.relock_delay_seconds,
            },
            unlock_timestamp: current.unlock_timestamp,
            relock_timestamp: current.relock_timestamp,
            created_at: current.created_at,
            updated_at: now,
        };
        let result = updated.clone();
        proof {
            assert(updated@ == applied_update(olds[gi], req@, now as int));
            assert forall|j: int| 0 <= j < mids.len() implies (#[trigger] mids[j]).id
                != updated@.id by {
                if j < gi {
                    assert(mids[j] == olds[j]);
                } else {
                    assert(mids[j] == olds[j + 1]);
                }
            }
            assert forall|j: int| 0 <= j < mids.len() implies (#[trigger] mids[j]).name
                != updated@.name by {
                let w = if j < gi { olds[j] } else { olds[j + 1] };
                assert(mids[j] == w);
            }
            assert(!contains_id(mids, updated@.id));
            assert(!contains_name(mids, updated@.name));
        }
        self.insert_sorted(updated);
        proof {
            assert forall|v: LockboxV|
                self.recs().contains(v) <==> ((olds.contains(v) && v.id != req@.id) || v
                    == result@) by {
                lemma_remove_contains(olds, gi, v);
            }
        }
        Ok(result)
    }

    /// Removes the record with `id`; removing an absent id is not an
    /// error and changes nothing.
    pub fn delete_lockbox(&mut self, id: i64)
        requires
            old(self).wf(),
        ensures
            final(self).wf(),
            forall|v: LockboxV|
                final(self).recs().contains(v) <==> (old(self).recs().contains(v) && v.id
                    != id as int),
            !contains_id(old(self).recs(), id as int) ==> *final(self) == *old(self),
            contains_id(old(self).recs(), id as int) ==> final(self).recs().len() == old(
                self,
            ).recs().len() - 1,
            forall|k: Seq<char>| final(self).setting_of(k) == old(self).setting_of(k),
            final(self).next_id_spec() == old(self).next_id_spec(),
    {
        let i = match self.index_of_id(id) {
            Some(i) => i,
            None => {
                proof {
                    assert forall|v: LockboxV| #[trigger]
                        self.recs().contains(v) implies v.id != id as int by {
                        let k = choose|k: int| 0 <= k < self.recs().len() && self.recs()[k] == v;
                        if v.id == id as int {
                            assert(contains_id(self.recs(), id as int));
                        }
                    }
                }
                return ;
            },
        };
        let ghost olds = self.recs();
        let ghost gi = i as int;
        proof {
            lemma_index_of_id_pins(olds, id as int, gi);
        }
        self.lockboxes.remove(i);
        proof {
            old(self).lockboxes@.remove_ensures(gi);
            olds.remove_ensures(gi);
            assert(self.recs() =~= olds.remove(gi));
            lemma_remove_keeps_wf(olds, gi, old(self).next_id_spec());
            assert(self.setting_pairs() =~= old(self).setting_pairs());
            assert forall|v: LockboxV|
                self.recs().contains(v) <==> (olds.contains(v) && v.id != id as int) by {
                lemma_remove_contains(olds, gi, v);
                if olds.contains(v) && v.id != id as int {
                    let k = choose|k: int| 0 <= k < olds.len() && olds[k] == v;
                    if k < gi {
                        assert(self.recs()[k] == v);
                    } else {
                        assert(self.recs()[k - 1] == v);
                    }
                }
            }
        }
    }

    /// Rebuilds a store from durable rows: every record well-formed with
    /// a positive id below the maximum, ids and names pairwise distinct.
    /// Returns `None` exactly when the rows do not satisfy that; the
    /// loaded store holds exactly the given records and no settings.
    pub fn from_records(records: Vec<Lockbox>) -> (r: Option<Database>)
        ensures
            r is Some <==> loadable(records@.map_values(|l: Lockbox| l@)),
            r matches Some(db) ==> ({
                &&& db.wf()
                &&& db.recs().len() == records@.len()
                &&& forall|v: LockboxV|
                    db.recs().contains(v) <==> records@.map_values(|l: Lockbox| l@).contains(v)
                &&& forall|k: Seq<char>| db.setting_of(k) is None
            }),
    {
        let ghost rv = records@.map_values(|l: Lockbox| l@);
        let n: usize = records.len();
        let mut max_id: i64 = 0;
        let mut i: usize = 0;
        while i < n
            invariant
                n == records@.len(),
                rv == records@.map_values(|l: Lockbox| l@),
                0 <= i <= n,
                0 <= max_id < i64::MAX,
                forall|j: int|
                    0 <= j < i ==> (#[trigger] records@[j])@.wf() && 0 < records@[j]@.id
                        < i64::MAX && records@[j]@.id <= max_id,
            decreases n - i,
        {
            let rec = &records[i];
            if rec.id <= 0 || rec.id == i64::MAX || rec.unlock_delay_seconds < 0
                || rec.unlock_delay_seconds > MAX_DELAY_SECONDS || rec.relock_delay_seconds < 0
                || rec.relock_delay_seconds > MAX_DELAY_SECONDS || (rec.is_locked
                && rec.relock_timestamp.is_some()) || (!rec.is_locked
                && rec.unlock_timestamp.is_some()) {
                proof {
                    assert(!(rv[i as int].wf() && 0 < rv[i as int].id < i64::MAX));
                    assert(!loadable(rv));
                }
                return None;
            }
            if rec.id > max_id {
                max_id = rec.id;
            }
            i += 1;
        }
        let mut i: usize = 0;
        while i < n
            invariant
                n == records@.len(),
                rv == records@.map_values(|l: Lockbox| l@),
                0 <= i <= n,
                forall|p: int, q: int|
                    0 <= p < q < i ==> (#[trigger] records@[p])@.id != (
                    #[trigger] records@[q])@.id && records@[p]@.name != records@[q]@.name,
            decreases n - i,
        {
            let mut j: usize = 0;
            while j < i
                invariant
                    n == records@.len(),
                    rv == records@.map_values(|l: Lockbox| l@),
                    0 <= j <= i < n,
                    forall|p: int|
                        0 <= p < j ==> (#[trigger] records@[p])@.id != records@[i as int]@.id
                            && records@[p]@.name != records@[i as int]@.name,
                decreases i - j,
            {
                if records[j].id == records[i].id {
                    proof {
                        assert(rv[j as int].id == rv[i as int].id);
                        assert(!loadable(rv));
                    }
                    return None;
                }
                if str_eq(records[j].name.as_str(), records[i].name.as_str()) {
                    proof {
                        assert(rv[j as int].name == rv[i as int].name);
                        assert(!loadable(rv));
                    }
                    return None;
                }
                j += 1;
            }
            i += 1;
        }
        proof {
            assert(loadable(rv));
        }
        let mut db = Database { lockboxes: Vec::new(), settings: Vec::new(), next_id: max_id + 1 };
        proof {
            assert(db.recs() =~= Seq::<LockboxV>::empty());
            assert(db.setting_pairs() =~= Seq::<(Seq<char>, Seq<char>)>::empty());
            assert forall|k: Seq<char>| db.setting_of(k) is None by {
                lemma_assoc_lookup_none(db.setting_pairs(), k);
            }
        }
        let mut i: usize = 0;
        while i < n
            invariant
                n == records@.len(),
                rv == records@.map_values(|l: Lockbox| l@),
                0 <= i <= n,
                db.wf(),
                db.next_id_spec() == max_id + 1,
                0 <= max_id < i64::MAX,
                forall|j: int|
                    0 <= j < n ==> (#[trigger] records@[j])@.wf() && 0 < records@[j]@.id
                        <= max_id,
                forall|p: int, q: int|
                    0 <= p < q < n ==> (#[trigger] records@[p])@.id != (
                    #[trigger] records@[q])@.id && records@[p]@.name != records@[q]@.name,
                db.recs().len() == i,
                forall|j: int| 0 <= j < i ==> db.recs().contains(#[trigger] records@[j]@),
                forall|v: LockboxV|
                    db.recs().contains(v) ==> exists|j: int| 0 <= j < i && records@[j]@ == v,
                forall|k: Seq<char>| db.setting_of(k) is None,
            decreases n - i,
        {
            let ghost gi = i as int;
            let rec = records[i].clone();
            proof {
                assert(rec@ == rv[gi]);
                if contains_id(db.recs(), rec@.id) {
                    let k = choose|k: int|
                        0 <= k < db.recs().len() && db.recs()[k].id == rec@.id;
                    assert(db.recs().contains(db.recs()[k]));
                    let j = choose|j: int| 0 <= j < gi && records@[j]@ == db.recs()[k];
                    assert(false);
                }
                if contains_name(db.recs(), rec@.name) {
                    let k = choose|k: int|
                        0 <= k < db.recs().len() && db.recs()[k].name == rec@.name;
                    assert(db.recs().contains(db.recs()[k]));
                    let j = choose|j: int| 0 <= j < gi && records@[j]@ == db.recs()[k];
                    assert(false);
                }
            }
            let ghost before = db.recs();
            db.insert_sorted(rec);
            proof {
                assert forall|j: int| 0 <= j < gi + 1 implies db.recs().contains(
                    #[trigger] records@[j]@,
                ) by {
                    if j < gi {
                        assert(before.contains(records@[j]@));
                    }
                }
                assert forall|v: LockboxV| db.recs().contains(v) implies exists|j: int|
                    0 <= j < gi + 1 && records@[j]@ == v by {
                    if v == rv[gi] {
                        assert(records@[gi]@ == v);
                    } else {
                        assert(before.contains(v));
                        let j = choose|j: int| 0 <= j < gi && records@[j]@ == v;
                        assert(records@[j]@ == v);
                    }
                }
            }
            i += 1;
        }
        proof {
            assert forall|v: LockboxV| db.recs().contains(v) <==> rv.contains(v) by {
                if db.recs().contains(v) {
                    let j = choose|j: int| 0 <= j < n && records@[j]@ == v;
                    assert(rv[j] == v);
                }
                if rv.contains(v) {
                    let j = choose|j: int| 0 <= j < rv.len() && rv[j] == v;
                    assert(db.recs().contains(records@[j]@));
                }
            }
        }
        Some(db)
    }

    /// What the store invariant says of the records, for callers: every
    /// record is well-formed (so a locked record carries no relock timer
    /// and an unlocked one no unlock timer), every id is positive, below
    /// the next id to be assigned, and unique, names are unique, and the
    /// list is in ascending name order.
    pub proof fn lemma_wf_records(&self)
        requires
            self.wf(),
        ensures
            forall|i: int| 0 <= i < self.recs().len() ==> (#[trigger] self.recs()[i]).wf(),
            forall|i: int|
                0 <= i < self.recs().len() ==> 0 < (#[trigger] self.recs()[i]).id
                    < self.next_id_spec(),
            forall|i: int, j: int|
                0 <= i < j < self.recs().len() ==> (#[trigger] self.recs()[i]).id != (
                #[trigger] self.recs()[j]).id,
            forall|i: int, j: int|
                0 <= i < j < self.recs().len() ==> (#[trigger] self.recs()[i]).name != (
                #[trigger] self.recs()[j]).name,
            forall|i: int, j: int|
                0 <= i < j < self.recs().len() ==> name_le(
                    (#[trigger] self.recs()[i]).name,
                    (#[trigger] self.recs()[j]).name,
                ),
            self.next_id_spec() <= i64::MAX,
    {
    }

    /// Whether `count` more records can still get fresh ids.
    pub fn can_create(&self, count: usize) -> (r: bool)
        requires
            self.wf(),
        ensures
            r == (self.next_id_spec() + count <= i64::MAX),
    {
        let left: u64 = (i64::MAX - self.next_id) as u64;
        left >= count as u64
    }

    /// Replaces the record at a known position with one that carries the
    /// same id and name, so order and uniqueness are untouched.
    fn replace_at(&mut self, i: usize, rec: Lockbox)
        requires
            old(self).wf(),
            i < old(self).recs().len(),
            rec@.wf(),
            rec@.id == old(self).recs()[i as int].id,
            rec@.name == old(self).recs()[i as int].name,
        ensures
            final(self).wf(),
            final(self).recs() == old(self).recs().update(i as int, rec@),
            forall|k: Seq<char>| final(self).setting_of(k) == old(self).setting_of(k),
            final(self).next_id_spec() == old(self).next_id_spec(),
    {
        let ghost olds = self.recs();
        self.lockboxes.set(i, rec);
        proof {
            assert(self.recs() =~= olds.update(i as int, rec@));
            assert(self.setting_pairs() =~= old(self).setting_pairs());
            let t = self.recs();
            assert forall|p: int, q: int| 0 <= p < q < t.len() implies (#[trigger] t[p]).id != (
            #[trigger] t[q]).id && t[p].name != t[q].name && name_le(t[p].name, t[q].name) by {
                assert(olds[p].id == t[p].id && olds[p].name == t[p].name);
                assert(olds[q].id == t[q].id && olds[q].name == t[q].name);
            }
            assert forall|p: int| 0 <= p < t.len() implies (#[trigger] t[p]).wf() && 0 < t[p].id
                < self.next_id_spec() by {
                if p != i as int {
                    assert(t[p] == olds[p]);
                }
            }
        }
    }

    /// Requests an unlock: a locked record gets its unlock timer armed a
    /// full delay from `now` (re-requesting re-arms it); an unlocked
    /// record is left as it is. Fails with `RecordNotFound` exactly when
    /// no record has the id. Returns a copy of the record.
    pub fn unlock_lockbox(&mut self, id: i64, now: i64) -> (r: Result<Lockbox, StoreError>)
        requires
            old(self).wf(),
            0 <= now <= MAX_INSTANT_MS,
        ensures
            final(self).wf(),
            !contains_id(old(self).recs(), id as int) <==> r == Err::<Lockbox, StoreError>(
                StoreError::RecordNotFound,
            ),
            r is Err <==> !contains_id(old(self).recs(), id as int),
            r is Err ==> *final(self) == *old(self),
            r matches Ok(l) ==> ({
                let i = index_of_id_spec(old(self).recs(), id as int);
                let cur = old(self).recs()[i];
                &&& l@ == (if cur.is_locked {
                    unlock_requested(cur, now as int)
                } else {
                    cur
                })
                &&& final(self).recs() == old(self).recs().update(i, l@)
            }),
            forall|k: Seq<char>| final(self).setting_of(k) == old(self).setting_of(k),
            final(self).next_id_spec() == old(self).next_id_spec(),
    {
        let i = match self.index_of_id(id) {
            Some(i) => i,
            None => {
                return Err(StoreError::RecordNotFound);
            },
        };
        proof {
            lemma_index_of_id_pins(self.recs(), id as int, i as int);
        }
        let mut rec = self.lockboxes[i].clone();
        if rec.is_locked {
            rec.unlock_timestamp = Some(now + rec.unlock_delay_seconds * 1000);
            rec.updated_at = now;
        }
        let result = rec.clone();
        if rec.is_locked {
            self.replace_at(i, rec);
        } else {
            proof {
                assert(self.recs() =~= self.recs().update(i as int, result@));
            }
        }
        Ok(result)
    }

    /// Completes an unlock out of turn: the record becomes unlocked and
    /// its relock timer is armed a full relock delay from `now`,
    /// whatever phase it was in. Fails with `RecordNotFound` exactly when
    /// no record has the id.
    pub fn complete_unlock(&mut self, id: i64, now: i64) -> (r: Result<Lockbox, StoreError>)
        requires
            old(self).wf(),
            0 <= now <= MAX_INSTANT_MS,
        ensures
            final(self).wf(),
            !contains_id(old(self).recs(), id as int) <==> r == Err::<Lockbox, StoreError>(
                StoreError::RecordNotFound,
            ),
            r is Err <==> !contains_id(old(self).recs(), id as int),
            r is Err ==> *final(self) == *old(self),
            r matches Ok(l) ==> ({
                let i = index_of_id_spec(old(self).recs(), id as int);
                &&& l@ == unlock_completed(old(self).recs()[i], now as int)
                &&& final(self).recs() == old(self).recs().update(i, l@)
            }),
            forall|k: Seq<char>| final(self).setting_of(k) == old(self).setting_of(k),
            final(self).next_id_spec() == old(self).next_id_spec(),
    {
        let i = match self.index_of_id(id) {
            Some(i) => i,
            None => {
                return Err(StoreError::RecordNotFound);
            },
        };
        proof {
            lemma_index_of_id_pins(self.recs(), id as int, i as int);
        }
        let mut rec = self.lockboxes[i].clone();
        rec.is_locked = false;
        rec.unlock_timestamp = None;
        rec.relock_timestamp = Some(now + rec.relock_delay_seconds * 1000);
        rec.updated_at = now;
        let result = rec.clone();
        self.replace_at(i, rec);
        Ok(result)
    }

    /// Relocks a record by hand: back to `Locked`, both timers cleared,
    /// whatever phase it was in — this cancels a pending unlock or an
    /// open unlocked period at once. Fails with `RecordNotFound` exactly
    /// when no record has the id.
    pub fn relock_lockbox(&mut self, id: i64, now: i64) -> (r: Result<Lockbox, StoreError>)
        requires
            old(self).wf(),
            0 <= now <= MAX_INSTANT_MS,
        ensures
            final(self).wf(),
            !contains_id(old(self).recs(), id as int) <==> r == Err::<Lockbox, StoreError>(
                StoreError::RecordNotFound,
            ),
            r is Err <==> !contains_id(old(self).recs(), id as int),
            r is Err ==> *final(self) == *old(self),
            r matches Ok(l) ==> ({
                let i = index_of_id_spec(old(self).recs(), id as int);
                &&& l@ == relocked(old(self).recs()[i], now as int)
                &&& final(self).recs() == old(self).recs().update(i, l@)
            }),
            forall|k: Seq<char>| final(self).setting_of(k) == old(self).setting_of(k),
            final(self).next_id_spec() == old(self).next_id_spec(),
    {
        let i = match self.index_of_id(id) {
            Some(i) => i,
            None => {
                return Err(StoreError::RecordNotFound);
            },
        };
        proof {
            lemma_index_of_id_pins(self.recs(), id as int, i as int);
        }
        let mut rec = self.lockboxes[i].clone();
        rec.is_locked = true;
        rec.unlock_timestamp = None;
        rec.relock_timestamp = None;
        rec.updated_at = now;
        let result = rec.clone();
        self.replace_at(i, rec);
        Ok(result)
    }

    /// One reconciliation pass at `now`: every record is advanced by one
    /// tick of the state machine, and the resulting records are returned
    /// as a copied list in name order.
    pub fn check_and_update_states(&mut self, now: i64) -> (r: Vec<Lockbox>)
        requires
            old(self).wf(),
            0 <= now <= MAX_INSTANT_MS,
        ensures
            final(self).wf(),
            final(self).recs().len() == old(self).recs().len(),
            forall|i: int|
                0 <= i < old(self).recs().len() ==> final(self).recs()[i] == ticked(
                    old(self).recs()[i],
                    now as int,
                ),
            r@.map_values(|l: Lockbox| l@) == final(self).recs(),
            forall|i: int, j: int|
                0 <= i < j < r@.len() ==> name_le(
                    (#[trigger] r@[i])@.name,
                    (#[trigger] r@[j])@.name,
                ),
            forall|k: Seq<char>| final(self).setting_of(k) == old(self).setting_of(k),
            final(self).next_id_spec() == old(self).next_id_spec(),
    {
        let n: usize = self.lockboxes.len();
        let mut i: usize = 0;
        while i < n
            invariant
                self.wf(),
                n == self.lockboxes@.len(),
                0 <= i <= n,
                old(self).recs().len() == n,
                forall|j: int|
                    0 <= j < i ==> self.recs()[j] == ticked(old(self).recs()[j], now as int),
                forall|j: int| i <= j < n ==> self.recs()[j] == old(self).recs()[j],
                forall|k: Seq<char>| self.setting_of(k) == old(self).setting_of(k),
                self.next_id_spec() == old(self).next_id_spec(),
                0 <= now <= MAX_INSTANT_MS,
            decreases n - i,
        {
            let mut rec = self.lockboxes[i].clone();
            proof {
                assert(rec@ == old(self).recs()[i as int]);
                assert(rec@.wf());
            }
            if rec.is_locked {
                if let Some(t) = rec.unlock_timestamp {
                    if t <= now {
                        rec.is_locked = false;
                        rec.unlock_timestamp = None;
                        rec.relock_timestamp = Some(now + rec.relock_delay_seconds * 1000);
                        rec.updated_at = now;
                    }
                }
            }
            proof {
                assert(rec@ == crate::timelock::tick_unlock(old(self).recs()[i as int], now as int));
            }
            if !rec.is_locked {
                if let Some(t) = rec.relock_timestamp {
                    if t <= now {
                        rec.is_locked = true;
                        rec.unlock_timestamp = None;
                        rec.relock_timestamp = None;
                        rec.updated_at = now;
                    }
                }
            }
            proof {
                assert(rec@ == ticked(old(self).recs()[i as int], now as int));
            }
            self.replace_at(i, rec);
            proof {
                assert(self.recs().len() == n);
            }
            i += 1;
        }
        self.get_all_lockboxes()
    }
}

/// With unique ids, the index `index_of_id_spec` chooses is the only one
/// whose record carries the id.
proof fn lemma_index_of_id_pins(s: Seq<LockboxV>, id: int, i: int)
    requires
        0 <= i < s.len(),
        s[i].id == id,
        forall|p: int, q: int|
            0 <= p < q < s.len() ==> (#[trigger] s[p]).id != (#[trigger] s[q]).id,
    ensures
        index_of_id_spec(s, id) == i,
        contains_id(s, id),
{
    assert(contains_id(s, id));
    let j = index_of_id_spec(s, id);
    assert(0 <= j < s.len() && s[j].id == id);
    if j < i {
        assert(s[j].id != s[i].id);
    } else if j > i {
        assert(s[i].id != s[j].id);
    }
}

/// Removing one index keeps every well-formedness bound of the rest.
proof fn lemma_remove_keeps_wf(s: Seq<LockboxV>, i: int, next_id: int)
    requires
        0 <= i < s.len(),
        forall|p: int| 0 <= p < s.len() ==> (#[trigger] s[p]).wf(),
        forall|p: int| 0 <= p < s.len() ==> 0 < (#[trigger] s[p]).id < next_id,
        forall|p: int, q: int|
            0 <= p < q < s.len() ==> (#[trigger] s[p]).id != (#[trigger] s[q]).id,
        forall|p: int, q: int|
            0 <= p < q < s.len() ==> (#[trigger] s[p]).name != (#[trigger] s[q]).name,
        forall|p: int, q: int|
            0 <= p < q < s.len() ==> name_le((#[trigger] s[p]).name, (#[trigger] s[q]).name),
    ensures
        forall|p: int| 0 <= p < s.remove(i).len() ==> (#[trigger] s.remove(i)[p]).wf(),
        forall|p: int| 0 <= p < s.remove(i).len() ==> 0 < (#[trigger] s.remove(i)[p]).id < next_id,
        forall|p: int, q: int|
            0 <= p < q < s.remove(i).len() ==> (#[trigger] s.remove(i)[p]).id != (
            #[trigger] s.remove(i)[q]).id,
        forall|p: int, q: int|
            0 <= p < q < s.remove(i).len() ==> (#[trigger] s.remove(i)[p]).name != (
            #[trigger] s.remove(i)[q]).name,
        forall|p: int, q: int|
            0 <= p < q < s.remove(i).len() ==> name_le(
                (#[trigger] s.remove(i)[p]).name,
                (#[trigger] s.remove(i)[q]).name,
            ),
{
    s.remove_ensures(i);
    let t = s.remove(i);
    assert forall|p: int| 0 <= p < t.len() implies (#[trigger] t[p]).wf() && 0 < t[p].id
        < next_id by {
        if p < i {
            assert(t[p] == s[p]);
        } else {
            assert(t[p] == s[p + 1]);
        }
    }
    assert forall|p: int, q: int| 0 <= p < q < t.len() implies (#[trigger] t[p]).id != (
    #[trigger] t[q]).id && t[p].name != t[q].name && name_le(t[p].name, t[q].name) by {
        let sp = if p < i { p } else { p + 1 };
        let sq = if q < i { q } else { q + 1 };
        assert(t[p] == s[sp]);
        assert(t[q] == s[sq]);
    }
}

/// Membership in a sequence with one index removed, for a sequence with
/// unique ids: exactly the old members that do not carry the removed id.
proof fn lemma_remove_contains(s: Seq<LockboxV>, i: int, v: LockboxV)
    requires
        0 <= i < s.len(),
        forall|p: int, q: int|
            0 <= p < q < s.len() ==> (#[trigger] s[p]).id != (#[trigger] s[q]).id,
    ensures
        s.remove(i).contains(v) <==> (s.contains(v) && v.id != s[i].id),
{
    s.remove_ensures(i);
    let t = s.remove(i);
    if t.contains(v) {
        let k = choose|k: int| 0 <= k < t.len() && t[k] == v;
        if k < i {
            assert(s[k] == v);
            assert(v.id != s[i].id);
        } else {
            assert(s[k + 1] == v);
            assert(v.id != s[i].id);
        }
        assert(s.contains(v));
    }
    if s.contains(v) && v.id != s[i].id {
        let k = choose|k: int| 0 <= k < s.len() && s[k] == v;
        assert(k != i);
        if k < i {
            assert(t[k] == v);
        } else {
            assert(t[k - 1] == v);
        }
        assert(t.contains(v));
    }
}

/// Rows that can rebuild a store: every record well-formed with a
/// positive id below the maximum, and ids and names pairwise distinct.
pub open spec fn loadable(records: Seq<LockboxV>) -> bool {
    &&& forall|i: int|
        0 <= i < records.len() ==> (#[trigger] records[i]).wf() && 0 < records[i].id < i64::MAX
    &&& forall|i: int, j: int|
        0 <= i < j < records.len() ==> (#[trigger] records[i]).id != (#[trigger] records[j]).id
            && records[i].name != records[j].name
}

/// The index of the record carrying `id`, when one exists.
pub open spec fn index_of_id_spec(s: Seq<LockboxV>, id: int) -> int {
    choose|i: int| 0 <= i < s.len() && (#[trigger] s[i]).id == id
}

/// A key that matches no entry looks up to `None`.
proof fn lemma_assoc_lookup_none(s: Seq<(Seq<char>, Seq<char>)>, key: Seq<char>)
    requires
        forall|j: int| 0 <= j < s.len() ==> (#[trigger] s[j]).0 != key,
    ensures
        assoc_lookup(s, key) is None,
    decreases s.len(),
{
    if s.len() > 0 {
        assert(s.drop_first() =~= s.skip(1));
        lemma_assoc_lookup_none(s.drop_first(), key);
    }
}

} // verus!
