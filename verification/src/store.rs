use vstd::prelude::*;
use crate::assoc::{
    assoc_map, assoc_keys_distinct, assoc_insert, assoc_remove, assoc_get, assoc_contains_key,
    assoc_keys, assoc_values, lemma_assoc_map_index, lemma_assoc_map_absent,
    lemma_assoc_insert_found, lemma_assoc_insert_absent, lemma_assoc_insert_distinct,
    lemma_assoc_remove_found, lemma_assoc_remove_distinct, lemma_assoc_map_insert,
    lemma_assoc_map_remove, lemma_assoc_get_at_index, lemma_assoc_get_absent,
};
use crate::convert::{
    assoc_index_of, lemma_vec_deep_view_index, lemma_vec_deep_view_push, lemma_vec_deep_view_update,
    lemma_vec_deep_view_remove, lemma_deque_deep_view_push, vec_contains_string, find_string_index,
    strings_intersect, strings_union, strings_difference, member_of, non_member_of, pairs_insert,
    pairs_remove, pairs_keys, pairs_values,
};
use crate::value_entry::{
    ValueEntry, EntryModel, entry_wf, spec_entry_expired, res_string_view, res_bytes_view,
    res_strings_view, res_pairs_view,
};
use crate::types::{ValueType, ValueModel, as_integer, as_bytes, as_text, as_list, as_hset, as_hmap};
use crate::errors::{ValueError, TypeConversionError, as_mutable_error, as_reference_error, try_from_int_error, integer_overflow_error};
use crate::clock::now_millis;

verus! {

/// A single typed key-value store: a name, an optional default time-to-live in
/// milliseconds, and a keyed collection of rows. Reads mask expired rows
/// lazily; only `pop`, `remove`, `clear` and the sweep delete them.
pub struct KeyValueStore {
    name: String,
    data: Vec<(String, ValueEntry)>,
    default_ttl: Option<u64>,
}

/// The mathematical shape of a store.
pub struct StoreModel {
    pub name: Seq<char>,
    pub default_ttl: Option<u64>,
    pub data: Map<Seq<char>, EntryModel>,
}

impl View for KeyValueStore {
    type V = StoreModel;

    closed spec fn view(&self) -> StoreModel {
        StoreModel {
            name: self.name@,
            default_ttl: self.default_ttl,
            data: assoc_map(self.data.deep_view()),
        }
    }
}

impl DeepView for KeyValueStore {
    type V = StoreModel;

    open spec fn deep_view(&self) -> StoreModel {
        self.view()
    }
}

// ---------------------------------------------------------------------------
// Model-level behaviour of each operation
// ---------------------------------------------------------------------------
/// Addition that stops at the largest representable instant.
pub open spec fn sat_add(a: u64, b: u64) -> u64 {
    if a + b > u64::MAX {
        u64::MAX
    } else {
        (a + b) as u64
    }
}

/// The deadline a row inserted at `now` receives: the explicit time-to-live if
/// one is given, else the store's default, else none (it never expires).
pub open spec fn spec_deadline(default_ttl: Option<u64>, ttl: Option<u64>, now: u64) -> Option<
    u64,
> {
    match ttl {
        Some(t) => Some(sat_add(now, t)),
        None => match default_ttl {
            Some(t) => Some(sat_add(now, t)),
            None => None,
        },
    }
}

/// Unconditional insertion: last write wins.
pub open spec fn spec_set(
    m: StoreModel,
    k: Seq<char>,
    value: ValueModel,
    ttl: Option<u64>,
    now: u64,
) -> StoreModel {
    StoreModel {
        data: m.data.insert(
            k,
            EntryModel { value, expiration: spec_deadline(m.default_ttl, ttl, now) },
        ),
        ..m
    }
}

/// The row a read at instant `now` sees: none when the key is absent or the
/// row is expired.
pub open spec fn spec_lookup(m: StoreModel, k: Seq<char>, now: u64) -> Option<EntryModel> {
    if m.data.contains_key(k) && !spec_entry_expired(m.data[k], now) {
        Some(m.data[k])
    } else {
        None
    }
}

/// Unconditional deletion.
pub open spec fn spec_remove(m: StoreModel, k: Seq<char>) -> StoreModel {
    StoreModel { data: m.data.remove(k), ..m }
}

/// The active sweep: every row expired at `now` is deleted, the rest stay.
pub open spec fn spec_sweep(m: StoreModel, now: u64) -> StoreModel {
    StoreModel {
        data: Map::new(
            |k: Seq<char>| m.data.contains_key(k) && !spec_entry_expired(m.data[k], now),
            |k: Seq<char>| m.data[k],
        ),
        ..m
    }
}

/// What a typed read returns: absent-or-expired masks to `None`, a visible row
/// is coerced by `f`.
pub open spec fn spec_read<A>(
    m: StoreModel,
    k: Seq<char>,
    now: u64,
    f: spec_fn(ValueModel) -> Result<A, ValueError>,
) -> Option<Result<A, ValueError>> {
    match spec_lookup(m, k, now) {
        Some(e) => Some(f(e.value)),
        None => None,
    }
}

pub open spec fn spec_get_i64(m: StoreModel, k: Seq<char>, now: u64) -> Option<
    Result<i64, ValueError>,
> {
    spec_read(m, k, now, |v: ValueModel| as_integer(v))
}

pub open spec fn spec_get_bytes(m: StoreModel, k: Seq<char>, now: u64) -> Option<
    Result<Seq<u8>, ValueError>,
> {
    spec_read(m, k, now, |v: ValueModel| as_bytes(v))
}

pub open spec fn spec_get_string(m: StoreModel, k: Seq<char>, now: u64) -> Option<
    Result<Seq<char>, ValueError>,
> {
    spec_read(m, k, now, |v: ValueModel| as_text(v))
}

pub open spec fn spec_get_list(m: StoreModel, k: Seq<char>, now: u64) -> Option<
    Result<Seq<Seq<char>>, ValueError>,
> {
    spec_read(m, k, now, |v: ValueModel| as_list(v))
}

pub open spec fn spec_get_hset(m: StoreModel, k: Seq<char>, now: u64) -> Option<
    Result<Seq<Seq<char>>, ValueError>,
> {
    spec_read(m, k, now, |v: ValueModel| as_hset(v))
}

pub open spec fn spec_get_hmap(m: StoreModel, k: Seq<char>, now: u64) -> Option<
    Result<Seq<(Seq<char>, Seq<char>)>, ValueError>,
> {
    spec_read(m, k, now, |v: ValueModel| as_hmap(v))
}

// ---------------------------------------------------------------------------
// Views of executable results
// ---------------------------------------------------------------------------
pub open spec fn opt_res_string_view(r: Option<Result<String, ValueError>>) -> Option<
    Result<Seq<char>, ValueError>,
> {
    match r {
        Some(x) => Some(res_string_view(x)),
        None => None,
    }
}

pub open spec fn opt_res_bytes_view(r: Option<Result<Vec<u8>, ValueError>>) -> Option<
    Result<Seq<u8>, ValueError>,
> {
    match r {
        Some(x) => Some(res_bytes_view(x)),
        None => None,
    }
}

pub open spec fn opt_res_strings_view(r: Option<Result<Vec<String>, ValueError>>) -> Option<
    Result<Seq<Seq<char>>, ValueError>,
> {
    match r {
        Some(x) => Some(res_strings_view(x)),
        None => None,
    }
}

pub open spec fn opt_res_pairs_view(r: Option<Result<Vec<(String, String)>, ValueError>>) -> Option<
    Result<Seq<(Seq<char>, Seq<char>)>, ValueError>,
> {
    match r {
        Some(x) => Some(res_pairs_view(x)),
        None => None,
    }
}

impl KeyValueStore {
    /// Distinct keys, and every stored row well-formed.
    pub closed spec fn wf(self) -> bool {
        &&& assoc_keys_distinct(self.data.deep_view())
        &&& forall|i: int|
            0 <= i < self.data.deep_view().len() ==> entry_wf(
                (#[trigger] self.data.deep_view()[i]).1,
            )
    }

    /// A fresh, empty store.
    pub fn new(name: &str, default_ttl: Option<u64>) -> (r: Self)
        ensures
            r.wf(),
            r@ == (StoreModel { name: name@, default_ttl, data: Map::<Seq<char>, EntryModel>::empty() }),
    {
        let s = KeyValueStore { name: name.to_owned(), data: Vec::new(), default_ttl };
        proof {
            assert(s.data.deep_view() =~= Seq::<(Seq<char>, EntryModel)>::empty());
            assert(assoc_map(s.data.deep_view()) =~= Map::<Seq<char>, EntryModel>::empty());
        }
        s
    }

    /// The position of the row keyed by `key`, with what it means for the view.
    fn index_of(&self, key: &str) -> (r: Option<usize>)
        requires
            self.wf(),
        ensures
            match r {
                Some(i) => {
                    &&& i < self.data@.len()
                    &&& self.data.deep_view()[i as int].0 == key@
                    &&& self@.data.contains_key(key@)
                    &&& self@.data[key@] == self.data.deep_view()[i as int].1
                    &&& entry_wf(self@.data[key@])
                },
                None => !self@.data.contains_key(key@),
            },
    {
        let r = assoc_index_of(&self.data, key);
        proof {
            match r {
                Some(i) => {
                    lemma_assoc_map_index(self.data.deep_view(), i as int);
                },
                None => {
                    lemma_assoc_map_absent(self.data.deep_view(), key@);
                },
            }
        }
        r
    }

    /// The row a read at instant `now` sees, if any.
    fn entry_at(&self, key: &str, now: u64) -> (r: Option<&ValueEntry>)
        requires
            self.wf(),
        ensures
            match r {
                Some(e) => spec_lookup(self@, key@, now) == Some(e@) && entry_wf(e@),
                None => spec_lookup(self@, key@, now) is None,
            },
    {
        match self.index_of(key) {
            Some(i) => {
                let e = &self.data[i].1;
                proof {
                    lemma_vec_deep_view_index(self.data, i as int);
                    assert(self.data.deep_view()[i as int].1 == e@);
                }
                if e.is_expired_entry(now) {
                    None
                } else {
                    Some(e)
                }
            },
            None => None,
        }
    }

    /// Inserts or overwrites the row at `key`.
    fn insert_entry(&mut self, key: &str, entry: ValueEntry)
        requires
            old(self).wf(),
            entry_wf(entry@),
        ensures
            final(self).wf(),
            final(self)@.name == old(self)@.name,
            final(self)@.default_ttl == old(self)@.default_ttl,
            final(self)@.data == old(self)@.data.insert(key@, entry@),
    {
        let ghost prevlist = self.data.deep_view();
        let ghost e2 = entry@;
        match assoc_index_of(&self.data, key) {
            Some(i) => {
                let ghost prev = self.data;
                let p: &mut (String, ValueEntry) = &mut self.data[i];
                p.1 = entry;
                proof {
                    let newpair = (prev@[i as int].0, self.data@[i as int].1);
                    assert(self.data@ == prev@.update(i as int, newpair));
                    lemma_vec_deep_view_index(prev, i as int);
                    lemma_vec_deep_view_update(prev, self.data, i as int, newpair);
                    assert(newpair.deep_view() == (prevlist[i as int].0, e2));
                    lemma_assoc_insert_found(prevlist, i as int, e2);
                    assert(self.data.deep_view() =~= assoc_insert(prevlist, key@, e2));
                    lemma_assoc_insert_distinct(prevlist, key@, e2);
                    lemma_assoc_map_insert(prevlist, key@, e2);
                    assert forall|j: int| 0 <= j < self.data.deep_view().len() implies entry_wf(
                        (#[trigger] self.data.deep_view()[j]).1,
                    ) by {
                        if j != i {
                            assert(self.data.deep_view()[j] == prevlist[j]);
                        }
                    }
                }
            },
            None => {
                let ghost prev = self.data;
                let ks: String = key.to_owned();
                let x = (ks, entry);
                self.data.push(x);
                proof {
                    lemma_vec_deep_view_push(prev, self.data, x);
                    assert(x.deep_view() == (key@, e2));
                    lemma_assoc_insert_absent(prevlist, key@, e2);
                    assert(self.data.deep_view() =~= assoc_insert(prevlist, key@, e2));
                    lemma_assoc_insert_distinct(prevlist, key@, e2);
                    lemma_assoc_map_insert(prevlist, key@, e2);
                    assert forall|j: int| 0 <= j < self.data.deep_view().len() implies entry_wf(
                        (#[trigger] self.data.deep_view()[j]).1,
                    ) by {
                        if j < prevlist.len() {
                            assert(self.data.deep_view()[j] == prevlist[j]);
                        } else {
                            assert(self.data.deep_view()[j] == (key@, e2));
                        }
                    }
                }
            },
        }
    }

    /// Deletes and returns the row at `key`, whether or not it is expired.
    fn take_entry(&mut self, key: &str) -> (r: Option<ValueEntry>)
        requires
            old(self).wf(),
        ensures
            final(self).wf(),
            final(self)@.name == old(self)@.name,
            final(self)@.default_ttl == old(self)@.default_ttl,
            match r {
                Some(e) => {
                    &&& old(self)@.data.contains_key(key@)
                    &&& e@ == old(self)@.data[key@]
                    &&& entry_wf(e@)
                    &&& final(self)@.data == old(self)@.data.remove(key@)
                },
                None => !old(self)@.data.contains_key(key@) && final(self)@ == old(self)@,
            },
    {
        let ghost prevlist = self.data.deep_view();
        match self.index_of(key) {
            Some(i) => {
                let ghost prev = self.data;
                let pair = self.data.remove(i);
                proof {
                    lemma_vec_deep_view_remove(prev, self.data, i as int);
                    lemma_assoc_remove_found(prevlist, i as int);
                    assert(self.data.deep_view() =~= assoc_remove(prevlist, key@));
                    lemma_assoc_remove_distinct(prevlist, key@);
                    lemma_assoc_map_remove(prevlist, key@);
                    lemma_vec_deep_view_index(prev, i as int);
                    assert forall|j: int| 0 <= j < self.data.deep_view().len() implies entry_wf(
                        (#[trigger] self.data.deep_view()[j]).1,
                    ) by {
                        if j < i {
                            assert(self.data.deep_view()[j] == prevlist[j]);
                        } else {
                            assert(self.data.deep_view()[j] == prevlist[j + 1]);
                        }
                    }
                }
                Some(pair.1)
            },
            None => None,
        }
    }

    /// Whether the key is physically present, expired or not.
    pub fn contains_key(&self, key: &str) -> (r: bool)
        requires
            self.wf(),
        ensures
            r == self@.data.contains_key(key@),
    {
        self.index_of(key).is_some()
    }

    /// Whether the row at `key` is expired at instant `now`; absent keys give
    /// `None`.
    pub fn is_expired_at(&self, key: &str, now: u64) -> (r: Option<bool>)
        requires
            self.wf(),
        ensures
            r == match spec_is_expired(self@, key@, now) {
                Some(b) => Some(b),
                None => None::<bool>,
            },
    {
        match self.index_of(key) {
            Some(i) => {
                let e = &self.data[i].1;
                proof {
                    lemma_vec_deep_view_index(self.data, i as int);
                    assert(self.data.deep_view()[i as int].1 == e@);
                }
                Some(e.is_expired_entry(now))
            },
            None => None,
        }
    }

    /// Whether the row at `key` is expired now; absent keys give `None`.
    pub fn is_expired(&self, key: &str) -> (r: Option<bool>)
        requires
            self.wf(),
        ensures
            exists|now: u64| r == spec_is_expired(self@, key@, now),
    {
        let now = now_millis();
        self.is_expired_at(key, now)
    }

    /// Unconditionally deletes the row at `key`; a no-op when absent.
    pub fn remove(&mut self, key: &str)
        requires
            old(self).wf(),
        ensures
            final(self).wf(),
            final(self)@.name == old(self)@.name,
            final(self)@.default_ttl == old(self)@.default_ttl,
            final(self)@.data == old(self)@.data.remove(key@),
    {
        let r = self.take_entry(key);
        proof {
            if r is None {
                assert(self@.data =~= old(self)@.data.remove(key@));
            }
        }
    }

    /// Deletes every row.
    pub fn clear(&mut self)
        requires
            old(self).wf(),
        ensures
            final(self).wf(),
            final(self)@.name == old(self)@.name,
            final(self)@.default_ttl == old(self)@.default_ttl,
            final(self)@.data == Map::<Seq<char>, EntryModel>::empty(),
    {
        self.data.clear();
        proof {
            assert(self.data.deep_view() =~= Seq::<(Seq<char>, EntryModel)>::empty());
            assert(assoc_map(self.data.deep_view()) =~= Map::<Seq<char>, EntryModel>::empty());
        }
    }
}

impl KeyValueStore {    /// The deadline a row inserted now receives, per the precedence: explicit
    /// time-to-live, else the store default, else none.
    fn deadline_for(&self, ttl: Option<u64>, now: u64) -> (r: Option<u64>)
        ensures
            r == spec_deadline(self@.default_ttl, ttl, now),
    {
        let millis = match ttl {
            Some(t) => Some(t),
            None => match self.default_ttl {
                Some(t) => Some(t),
                None => None,
            },
        };
        match millis {
            Some(t) => match now.checked_add(t) {
                Some(d) => Some(d),
                None => Some(u64::MAX),
            },
            None => None,
        }
    }

    /// Inserts a byte row at `key`; an existing row is overwritten.
    pub fn set_bytes_at(&mut self, key: &str, value: Vec<u8>, ttl: Option<u64>, now: u64)
        requires
            old(self).wf(),
        ensures
            final(self).wf(),
            final(self)@ == spec_set(old(self)@, key@, ValueModel::Bytes(value@), ttl, now),
    {
        let deadline = self.deadline_for(ttl, now);
        let entry = ValueEntry::from_bytes(value, deadline);
        self.insert_entry(key, entry);
    }

    /// Inserts a byte row at `key`, reading the clock for the deadline.
    pub fn set_bytes(&mut self, key: &str, value: Vec<u8>, ttl: Option<u64>)
        requires
            old(self).wf(),
        ensures
            final(self).wf(),
            exists|now: u64|
                final(self)@ == spec_set(old(self)@, key@, ValueModel::Bytes(value@), ttl, now),
    {
        let now = now_millis();
        self.set_bytes_at(key, value, ttl, now);
    }

    /// Inserts a text row at `key`; an existing row is overwritten.
    pub fn set_string_at(&mut self, key: &str, value: String, ttl: Option<u64>, now: u64)
        requires
            old(self).wf(),
        ensures
            final(self).wf(),
            final(self)@ == spec_set(old(self)@, key@, ValueModel::Text(value@), ttl, now),
    {
        let deadline = self.deadline_for(ttl, now);
        let entry = ValueEntry::from_string(value, deadline);
        self.insert_entry(key, entry);
    }

    /// Inserts a text row at `key`, reading the clock for the deadline.
    pub fn set_string(&mut self, key: &str, value: String, ttl: Option<u64>)
        requires
            old(self).wf(),
        ensures
            final(self).wf(),
            exists|now: u64|
                final(self)@ == spec_set(old(self)@, key@, ValueModel::Text(value@), ttl, now),
    {
        let now = now_millis();
        self.set_string_at(key, value, ttl, now);
    }

    /// Inserts an integer row at `key`; an existing row is overwritten.
    pub fn set_i64_at(&mut self, key: &str, value: i64, ttl: Option<u64>, now: u64)
        requires
            old(self).wf(),
        ensures
            final(self).wf(),
            final(self)@ == spec_set(old(self)@, key@, ValueModel::Integer(value), ttl, now),
    {
        let deadline = self.deadline_for(ttl, now);
        let entry = ValueEntry::from_i64(value, deadline);
        self.insert_entry(key, entry);
    }

    /// Inserts an integer row at `key`, reading the clock for the deadline.
    pub fn set_i64(&mut self, key: &str, value: i64, ttl: Option<u64>)
        requires
            old(self).wf(),
        ensures
            final(self).wf(),
            exists|now: u64|
                final(self)@ == spec_set(old(self)@, key@, ValueModel::Integer(value), ttl, now),
    {
        let now = now_millis();
        self.set_i64_at(key, value, ttl, now);
    }

    /// Inserts a sequence row at `key`; an existing row is overwritten.
    pub fn set_list_at(&mut self, key: &str, value: Vec<String>, ttl: Option<u64>, now: u64)
        requires
            old(self).wf(),
        ensures
            final(self).wf(),
            final(self)@ == spec_set(
                old(self)@,
                key@,
                ValueModel::Deque(value.deep_view()),
                ttl,
                now,
            ),
    {
        let deadline = self.deadline_for(ttl, now);
        let entry = ValueEntry::from_list(value, deadline);
        self.insert_entry(key, entry);
    }

    /// Inserts a sequence row at `key`, reading the clock for the deadline.
    pub fn set_list(&mut self, key: &str, value: Vec<String>, ttl: Option<u64>)
        requires
            old(self).wf(),
        ensures
            final(self).wf(),
            exists|now: u64|
                final(self)@ == spec_set(
                    old(self)@,
                    key@,
                    ValueModel::Deque(value.deep_view()),
                    ttl,
                    now,
                ),
    {
        let now = now_millis();
        self.set_list_at(key, value, ttl, now);
    }

    /// Inserts a set row at `key`: the given elements, duplicates dropped.
    pub fn set_hset_at(&mut self, key: &str, value: Vec<String>, ttl: Option<u64>, now: u64)
        requires
            old(self).wf(),
        ensures
            final(self).wf(),
            final(self)@ == spec_set(
                old(self)@,
                key@,
                ValueModel::Hset(crate::types::spec_dedup_first(value.deep_view())),
                ttl,
                now,
            ),
    {
        let deadline = self.deadline_for(ttl, now);
        let entry = ValueEntry::from_hset(value, deadline);
        self.insert_entry(key, entry);
    }

    /// Inserts a set row at `key`, reading the clock for the deadline.
    pub fn set_hset(&mut self, key: &str, value: Vec<String>, ttl: Option<u64>)
        requires
            old(self).wf(),
        ensures
            final(self).wf(),
            exists|now: u64|
                final(self)@ == spec_set(
                    old(self)@,
                    key@,
                    ValueModel::Hset(crate::types::spec_dedup_first(value.deep_view())),
                    ttl,
                    now,
                ),
    {
        let now = now_millis();
        self.set_hset_at(key, value, ttl, now);
    }

    /// Inserts a mapping row at `key` from a listing of pairs: a repeated key
    /// keeps its first position and takes the latest value.
    pub fn set_hmap_at(
        &mut self,
        key: &str,
        value: Vec<(String, String)>,
        ttl: Option<u64>,
        now: u64,
    )
        requires
            old(self).wf(),
        ensures
            final(self).wf(),
            final(self)@ == spec_set(
                old(self)@,
                key@,
                ValueModel::Hmap(crate::types::spec_pairs_from_list(value.deep_view())),
                ttl,
                now,
            ),
    {
        let deadline = self.deadline_for(ttl, now);
        let entry = ValueEntry::from_hashmap(value, deadline);
        self.insert_entry(key, entry);
    }

    /// Inserts a mapping row at `key`, reading the clock for the deadline.
    pub fn set_hmap(&mut self, key: &str, value: Vec<(String, String)>, ttl: Option<u64>)
        requires
            old(self).wf(),
        ensures
            final(self).wf(),
            exists|now: u64|
                final(self)@ == spec_set(
                    old(self)@,
                    key@,
                    ValueModel::Hmap(crate::types::spec_pairs_from_list(value.deep_view())),
                    ttl,
                    now,
                ),
    {
        let now = now_millis();
        self.set_hmap_at(key, value, ttl, now);
    }

    /// The row at `key` read as bytes at instant `now`.
    pub fn get_bytes_at(&self, key: &str, now: u64) -> (r: Option<Result<Vec<u8>, ValueError>>)
        requires
            self.wf(),
        ensures
            opt_res_bytes_view(r) == spec_get_bytes(self@, key@, now),
    {
        match self.entry_at(key, now) {
            Some(e) => Some(e.get_value_as_bytes()),
            None => None,
        }
    }

    /// The row at `key` read as bytes now.
    pub fn get_bytes(&self, key: &str) -> (r: Option<Result<Vec<u8>, ValueError>>)
        requires
            self.wf(),
        ensures
            exists|now: u64| opt_res_bytes_view(r) == spec_get_bytes(self@, key@, now),
    {
        let now = now_millis();
        self.get_bytes_at(key, now)
    }

    /// The row at `key` read as text at instant `now`.
    pub fn get_string_at(&self, key: &str, now: u64) -> (r: Option<Result<String, ValueError>>)
        requires
            self.wf(),
        ensures
            opt_res_string_view(r) == spec_get_string(self@, key@, now),
    {
        match self.entry_at(key, now) {
            Some(e) => Some(e.get_value_as_string()),
            None => None,
        }
    }

    /// The row at `key` read as text now.
    pub fn get_string(&self, key: &str) -> (r: Option<Result<String, ValueError>>)
        requires
            self.wf(),
        ensures
            exists|now: u64| opt_res_string_view(r) == spec_get_string(self@, key@, now),
    {
        let now = now_millis();
        self.get_string_at(key, now)
    }

    /// The row at `key` read as an integer at instant `now`.
    pub fn get_i64_at(&self, key: &str, now: u64) -> (r: Option<Result<i64, ValueError>>)
        requires
            self.wf(),
        ensures
            r == spec_get_i64(self@, key@, now),
    {
        match self.entry_at(key, now) {
            Some(e) => Some(e.get_value_as_i64()),
            None => None,
        }
    }

    /// The row at `key` read as an integer now.
    pub fn get_i64(&self, key: &str) -> (r: Option<Result<i64, ValueError>>)
        requires
            self.wf(),
        ensures
            exists|now: u64| r == spec_get_i64(self@, key@, now),
    {
        let now = now_millis();
        self.get_i64_at(key, now)
    }

    /// The row at `key` read as an ordered listing at instant `now`.
    pub fn get_list_at(&self, key: &str, now: u64) -> (r: Option<Result<Vec<String>, ValueError>>)
        requires
            self.wf(),
        ensures
            opt_res_strings_view(r) == spec_get_list(self@, key@, now),
    {
        match self.entry_at(key, now) {
            Some(e) => Some(e.get_value_as_list()),
            None => None,
        }
    }

    /// The row at `key` read as an ordered listing now.
    pub fn get_list(&self, key: &str) -> (r: Option<Result<Vec<String>, ValueError>>)
        requires
            self.wf(),
        ensures
            exists|now: u64| opt_res_strings_view(r) == spec_get_list(self@, key@, now),
    {
        let now = now_millis();
        self.get_list_at(key, now)
    }

    /// The row at `key` read as a set listing at instant `now`.
    pub fn get_hset_at(&self, key: &str, now: u64) -> (r: Option<Result<Vec<String>, ValueError>>)
        requires
            self.wf(),
        ensures
            opt_res_strings_view(r) == spec_get_hset(self@, key@, now),
    {
        match self.entry_at(key, now) {
            Some(e) => Some(e.get_value_as_hset()),
            None => None,
        }
    }

    /// The row at `key` read as a set listing now.
    pub fn get_hset(&self, key: &str) -> (r: Option<Result<Vec<String>, ValueError>>)
        requires
            self.wf(),
        ensures
            exists|now: u64| opt_res_strings_view(r) == spec_get_hset(self@, key@, now),
    {
        let now = now_millis();
        self.get_hset_at(key, now)
    }

    /// The row at `key` read as a mapping listing at instant `now`.
    pub fn get_hmap_at(&self, key: &str, now: u64) -> (r: Option<
        Result<Vec<(String, String)>, ValueError>,
    >)
        requires
            self.wf(),
        ensures
            opt_res_pairs_view(r) == spec_get_hmap(self@, key@, now),
    {
        match self.entry_at(key, now) {
            Some(e) => Some(e.get_value_as_hmap()),
            None => None,
        }
    }

    /// The row at `key` read as a mapping listing now.
    pub fn get_hmap(&self, key: &str) -> (r: Option<Result<Vec<(String, String)>, ValueError>>)
        requires
            self.wf(),
        ensures
            exists|now: u64| opt_res_pairs_view(r) == spec_get_hmap(self@, key@, now),
    {
        let now = now_millis();
        self.get_hmap_at(key, now)
    }

    /// Deletes the row at `key` and returns it read as bytes; an expired row is
    /// consumed but yields `None`.
    pub fn pop_bytes_at(&mut self, key: &str, now: u64) -> (r: Option<
        Result<Vec<u8>, ValueError>,
    >)
        requires
            old(self).wf(),
        ensures
            final(self).wf(),
            final(self)@ == spec_remove(old(self)@, key@),
            opt_res_bytes_view(r) == spec_get_bytes(old(self)@, key@, now),
    {
        let r = match self.take_entry(key) {
            Some(e) => if e.is_expired_entry(now) {
                None
            } else {
                Some(e.get_value_as_bytes())
            },
            None => None,
        };
        proof {
            assert(self@.data =~= old(self)@.data.remove(key@));
        }
        r
    }

    /// Deletes the row at `key` and returns it read as bytes.
    pub fn pop_bytes(&mut self, key: &str) -> (r: Option<Result<Vec<u8>, ValueError>>)
        requires
            old(self).wf(),
        ensures
            final(self).wf(),
            final(self)@ == spec_remove(old(self)@, key@),
            exists|now: u64| opt_res_bytes_view(r) == spec_get_bytes(old(self)@, key@, now),
    {
        let now = now_millis();
        self.pop_bytes_at(key, now)
    }

    /// Deletes the row at `key` and returns it read as text; an expired row is
    /// consumed but yields `None`.
    pub fn pop_string_at(&mut self, key: &str, now: u64) -> (r: Option<
        Result<String, ValueError>,
    >)
        requires
            old(self).wf(),
        ensures
            final(self).wf(),
            final(self)@ == spec_remove(old(self)@, key@),
            opt_res_string_view(r) == spec_get_string(old(self)@, key@, now),
    {
        let r = match self.take_entry(key) {
            Some(e) => if e.is_expired_entry(now) {
                None
            } else {
                Some(e.get_value_as_string())
            },
            None => None,
        };
        proof {
            assert(self@.data =~= old(self)@.data.remove(key@));
        }
        r
    }

    /// Deletes the row at `key` and returns it read as text.
    pub fn pop_string(&mut self, key: &str) -> (r: Option<Result<String, ValueError>>)
        requires
            old(self).wf(),
        ensures
            final(self).wf(),
            final(self)@ == spec_remove(old(self)@, key@),
            exists|now: u64| opt_res_string_view(r) == spec_get_string(old(self)@, key@, now),
    {
        let now = now_millis();
        self.pop_string_at(key, now)
    }

    /// Deletes the row at `key` and returns it read as an integer; an expired
    /// row is consumed but yields `None`.
    pub fn pop_i64_at(&mut self, key: &str, now: u64) -> (r: Option<Result<i64, ValueError>>)
        requires
            old(self).wf(),
        ensures
            final(self).wf(),
            final(self)@ == spec_remove(old(self)@, key@),
            r == spec_get_i64(old(self)@, key@, now),
    {
        let r = match self.take_entry(key) {
            Some(e) => if e.is_expired_entry(now) {
                None
            } else {
                Some(e.get_value_as_i64())
            },
            None => None,
        };
        proof {
            assert(self@.data =~= old(self)@.data.remove(key@));
        }
        r
    }

    /// Deletes the row at `key` and returns it read as an integer.
    pub fn pop_i64(&mut self, key: &str) -> (r: Option<Result<i64, ValueError>>)
        requires
            old(self).wf(),
        ensures
            final(self).wf(),
            final(self)@ == spec_remove(old(self)@, key@),
            exists|now: u64| r == spec_get_i64(old(self)@, key@, now),
    {
        let now = now_millis();
        self.pop_i64_at(key, now)
    }

    /// Deletes the row at `key` and returns it read as an ordered listing; an
    /// expired row is consumed but yields `None`.
    pub fn pop_list_at(&mut self, key: &str, now: u64) -> (r: Option<
        Result<Vec<String>, ValueError>,
    >)
        requires
            old(self).wf(),
        ensures
            final(self).wf(),
            final(self)@ == spec_remove(old(self)@, key@),
            opt_res_strings_view(r) == spec_get_list(old(self)@, key@, now),
    {
        let r = match self.take_entry(key) {
            Some(e) => if e.is_expired_entry(now) {
                None
            } else {
                Some(e.get_value_as_list())
            },
            None => None,
        };
        proof {
            assert(self@.data =~= old(self)@.data.remove(key@));
        }
        r
    }

    /// Deletes the row at `key` and returns it read as an ordered listing.
    pub fn pop_list(&mut self, key: &str) -> (r: Option<Result<Vec<String>, ValueError>>)
        requires
            old(self).wf(),
        ensures
            final(self).wf(),
            final(self)@ == spec_remove(old(self)@, key@),
            exists|now: u64| opt_res_strings_view(r) == spec_get_list(old(self)@, key@, now),
    {
        let now = now_millis();
        self.pop_list_at(key, now)
    }

    /// Deletes the row at `key` and returns it read as an ordered listing.
    pub fn pop_set(&mut self, key: &str) -> (r: Option<Result<Vec<String>, ValueError>>)
        requires
            old(self).wf(),
        ensures
            final(self).wf(),
            final(self)@ == spec_remove(old(self)@, key@),
            exists|now: u64| opt_res_strings_view(r) == spec_get_list(old(self)@, key@, now),
    {
        self.pop_list(key)
    }

    /// Deletes the row at `key` and returns it read as a set listing; an
    /// expired row is consumed but yields `None`.
    pub fn pop_hset_at(&mut self, key: &str, now: u64) -> (r: Option<
        Result<Vec<String>, ValueError>,
    >)
        requires
            old(self).wf(),
        ensures
            final(self).wf(),
            final(self)@ == spec_remove(old(self)@, key@),
            opt_res_strings_view(r) == spec_get_hset(old(self)@, key@, now),
    {
        let r = match self.take_entry(key) {
            Some(e) => if e.is_expired_entry(now) {
                None
            } else {
                Some(e.get_value_as_hset())
            },
            None => None,
        };
        proof {
            assert(self@.data =~= old(self)@.data.remove(key@));
        }
        r
    }

    /// Deletes the row at `key` and returns it read as a set listing.
    pub fn pop_hset(&mut self, key: &str) -> (r: Option<Result<Vec<String>, ValueError>>)
        requires
            old(self).wf(),
        ensures
            final(self).wf(),
            final(self)@ == spec_remove(old(self)@, key@),
            exists|now: u64| opt_res_strings_view(r) == spec_get_hset(old(self)@, key@, now),
    {
        let now = now_millis();
        self.pop_hset_at(key, now)
    }
}

/// Whether the row at `k` is expired at `now`: `None` when the key is absent.
pub open spec fn spec_is_expired(m: StoreModel, k: Seq<char>, now: u64) -> Option<bool> {
    if m.data.contains_key(k) {
        Some(spec_entry_expired(m.data[k], now))
    } else {
        None
    }
}

/// The signed amount an increment of `by` applies: the default is one, and an
/// amount above the 64-bit signed maximum is rejected.
pub open spec fn spec_incr_delta(by: Option<u64>) -> Option<i64> {
    let b = match by {
        Some(b) => b,
        None => 1u64,
    };
    if b <= i64::MAX as u64 {
        Some(b as i64)
    } else {
        None
    }
}

/// Adding `delta` to the integer reading of the row at `k`: the new value is
/// stored back as an integer under the same deadline and returned. Absent or
/// expired rows give `None`; a row that does not read as an integer, or a sum
/// outside the 64-bit signed range, gives the error without mutating.
pub open spec fn spec_add(m: StoreModel, k: Seq<char>, delta: i64, now: u64) -> (
    StoreModel,
    Option<Result<i64, ValueError>>,
) {
    match spec_lookup(m, k, now) {
        None => (m, None),
        Some(e) => match as_integer(e.value) {
            Err(er) => (m, Some(Err(er))),
            Ok(oldv) => if i64::MIN <= oldv + delta <= i64::MAX {
                (
                    StoreModel {
                        data: m.data.insert(
                            k,
                            EntryModel {
                                value: ValueModel::Integer((oldv + delta) as i64),
                                expiration: e.expiration,
                            },
                        ),
                        ..m
                    },
                    Some(Ok((oldv + delta) as i64)),
                )
            } else {
                (m, Some(Err(integer_overflow_error())))
            },
        },
    }
}

pub open spec fn spec_incr(m: StoreModel, k: Seq<char>, by: Option<u64>, now: u64) -> (
    StoreModel,
    Option<Result<i64, ValueError>>,
) {
    match spec_incr_delta(by) {
        None => (m, Some(Err(try_from_int_error()))),
        Some(d) => spec_add(m, k, d, now),
    }
}

pub open spec fn spec_decr(m: StoreModel, k: Seq<char>, by: Option<u64>, now: u64) -> (
    StoreModel,
    Option<Result<i64, ValueError>>,
) {
    match spec_incr_delta(by) {
        None => (m, Some(Err(try_from_int_error()))),
        Some(d) => spec_add(m, k, (-(d as int)) as i64, now),
    }
}

/// Replaces the value of the visible row at `k`, keeping its deadline.
pub open spec fn spec_store_value(m: StoreModel, k: Seq<char>, e: EntryModel, v: ValueModel) -> StoreModel {
    StoreModel { data: m.data.insert(k, EntryModel { value: v, expiration: e.expiration }), ..m }
}

/// Appending at the back of the sequence row at `k`; only a sequence row
/// qualifies.
pub open spec fn spec_list_pushb(m: StoreModel, k: Seq<char>, val: Seq<char>, now: u64) -> (
    StoreModel,
    Option<Result<Seq<char>, ValueError>>,
) {
    match spec_lookup(m, k, now) {
        None => (m, None),
        Some(e) => match e.value {
            ValueModel::Deque(items) => (
                spec_store_value(m, k, e, ValueModel::Deque(items.push(val))),
                Some(Ok(val)),
            ),
            _ => (m, Some(Err(as_mutable_error()))),
        },
    }
}

/// Prepending at the front of the sequence row at `k`.
pub open spec fn spec_list_pushf(m: StoreModel, k: Seq<char>, val: Seq<char>, now: u64) -> (
    StoreModel,
    Option<Result<Seq<char>, ValueError>>,
) {
    match spec_lookup(m, k, now) {
        None => (m, None),
        Some(e) => match e.value {
            ValueModel::Deque(items) => (
                spec_store_value(m, k, e, ValueModel::Deque(seq![val] + items)),
                Some(Ok(val)),
            ),
            _ => (m, Some(Err(as_mutable_error()))),
        },
    }
}

/// Taking from the front of the sequence row at `k`; an empty sequence yields
/// `None` and stays in place.
pub open spec fn spec_list_popf(m: StoreModel, k: Seq<char>, now: u64) -> (
    StoreModel,
    Option<Result<Seq<char>, ValueError>>,
) {
    match spec_lookup(m, k, now) {
        None => (m, None),
        Some(e) => match e.value {
            ValueModel::Deque(items) => if items.len() == 0 {
                (m, None)
            } else {
                (
                    spec_store_value(m, k, e, ValueModel::Deque(items.drop_first())),
                    Some(Ok(items[0])),
                )
            },
            _ => (m, Some(Err(as_mutable_error()))),
        },
    }
}

/// Taking from the back of the sequence row at `k`.
pub open spec fn spec_list_popb(m: StoreModel, k: Seq<char>, now: u64) -> (
    StoreModel,
    Option<Result<Seq<char>, ValueError>>,
) {
    match spec_lookup(m, k, now) {
        None => (m, None),
        Some(e) => match e.value {
            ValueModel::Deque(items) => if items.len() == 0 {
                (m, None)
            } else {
                (
                    spec_store_value(m, k, e, ValueModel::Deque(items.drop_last())),
                    Some(Ok(items.last())),
                )
            },
            _ => (m, Some(Err(as_mutable_error()))),
        },
    }
}

/// Reading one end of the sequence row at `k` without removing it; only a
/// sequence row qualifies, and an empty one yields `None`.
pub open spec fn spec_list_end(m: StoreModel, k: Seq<char>, now: u64, front: bool) -> Option<
    Result<Seq<char>, ValueError>,
> {
    match spec_lookup(m, k, now) {
        None => None,
        Some(e) => match e.value {
            ValueModel::Deque(items) => if items.len() == 0 {
                None
            } else {
                Some(Ok(if front { items[0] } else { items.last() }))
            },
            _ => Some(Err(as_reference_error())),
        },
    }
}

/// The length of the sequence row at `k`; only a sequence row qualifies.
pub open spec fn spec_list_size(m: StoreModel, k: Seq<char>, now: u64) -> Option<
    Result<int, ValueError>,
> {
    match spec_lookup(m, k, now) {
        None => None,
        Some(e) => match e.value {
            ValueModel::Deque(items) => Some(Ok(items.len() as int)),
            _ => Some(Err(as_reference_error())),
        },
    }
}

/// Adding to the set row at `k`: a new element goes at the end, a present one
/// leaves the set unchanged; the new cardinality is returned.
pub open spec fn spec_hset_add(m: StoreModel, k: Seq<char>, val: Seq<char>, now: u64) -> (
    StoreModel,
    Option<Result<int, ValueError>>,
) {
    match spec_lookup(m, k, now) {
        None => (m, None),
        Some(e) => match e.value {
            ValueModel::Hset(items) => {
                let ni = if items.contains(val) {
                    items
                } else {
                    items.push(val)
                };
                (spec_store_value(m, k, e, ValueModel::Hset(ni)), Some(Ok(ni.len() as int)))
            },
            _ => (m, Some(Err(as_mutable_error()))),
        },
    }
}

/// Removing from the set row at `k`; the new cardinality is returned whether
/// or not the element was present.
pub open spec fn spec_hset_remove(m: StoreModel, k: Seq<char>, val: Seq<char>, now: u64) -> (
    StoreModel,
    Option<Result<int, ValueError>>,
) {
    match spec_lookup(m, k, now) {
        None => (m, None),
        Some(e) => match e.value {
            ValueModel::Hset(items) => {
                let ni = items.remove_value(val);
                (spec_store_value(m, k, e, ValueModel::Hset(ni)), Some(Ok(ni.len() as int)))
            },
            _ => (m, Some(Err(as_mutable_error()))),
        },
    }
}

/// Whether the set reading of the row at `k` holds `val`; the read is lenient,
/// per the coercion matrix.
pub open spec fn spec_hset_contains(m: StoreModel, k: Seq<char>, val: Seq<char>, now: u64) -> Option<
    Result<bool, ValueError>,
> {
    match spec_lookup(m, k, now) {
        None => None,
        Some(e) => match as_hset(e.value) {
            Ok(items) => Some(Ok(items.contains(val))),
            Err(er) => Some(Err(er)),
        },
    }
}

/// The cardinality of the set reading of the row at `k`.
pub open spec fn spec_hset_size(m: StoreModel, k: Seq<char>, now: u64) -> Option<
    Result<int, ValueError>,
> {
    match spec_lookup(m, k, now) {
        None => None,
        Some(e) => match as_hset(e.value) {
            Ok(items) => Some(Ok(items.len() as int)),
            Err(er) => Some(Err(er)),
        },
    }
}

/// A set-algebra operand: a missing key contributes the empty set, a present
/// key must read as a set.
pub open spec fn spec_hset_operand(m: StoreModel, k: Seq<char>, now: u64) -> Result<
    Seq<Seq<char>>,
    ValueError,
> {
    match spec_lookup(m, k, now) {
        None => Ok(Seq::empty()),
        Some(e) => as_hset(e.value),
    }
}

/// The elements of the first operand that are in the second, in the first's
/// stored order. An operand that fails to read as a set short-circuits, the
/// first one taking precedence.
pub open spec fn spec_hset_intersection(m: StoreModel, k1: Seq<char>, k2: Seq<char>, now: u64) -> Option<
    Result<Seq<Seq<char>>, ValueError>,
> {
    match spec_hset_operand(m, k1, now) {
        Err(er) => Some(Err(er)),
        Ok(a) => match spec_hset_operand(m, k2, now) {
            Err(er) => Some(Err(er)),
            Ok(b) => Some(Ok(a.filter(member_of(b)))),
        },
    }
}

/// The elements of the first operand, then those of the second not already
/// present, in stored order.
pub open spec fn spec_hset_union(m: StoreModel, k1: Seq<char>, k2: Seq<char>, now: u64) -> Option<
    Result<Seq<Seq<char>>, ValueError>,
> {
    match spec_hset_operand(m, k1, now) {
        Err(er) => Some(Err(er)),
        Ok(a) => match spec_hset_operand(m, k2, now) {
            Err(er) => Some(Err(er)),
            Ok(b) => Some(Ok(a + b.filter(non_member_of(a)))),
        },
    }
}

/// The elements of the first operand that are not in the second.
pub open spec fn spec_hset_difference(m: StoreModel, k1: Seq<char>, k2: Seq<char>, now: u64) -> Option<
    Result<Seq<Seq<char>>, ValueError>,
> {
    match spec_hset_operand(m, k1, now) {
        Err(er) => Some(Err(er)),
        Ok(a) => match spec_hset_operand(m, k2, now) {
            Err(er) => Some(Err(er)),
            Ok(b) => Some(Ok(a.filter(non_member_of(b)))),
        },
    }
}

/// Inserting into the mapping row at `k`: a present inner key keeps its place
/// and takes the new value; the mapping's size afterwards is returned.
pub open spec fn spec_hmap_insert(
    m: StoreModel,
    k: Seq<char>,
    hk: Seq<char>,
    hv: Seq<char>,
    now: u64,
) -> (StoreModel, Option<Result<int, ValueError>>) {
    match spec_lookup(m, k, now) {
        None => (m, None),
        Some(e) => match e.value {
            ValueModel::Hmap(pairs) => {
                let np = assoc_insert(pairs, hk, hv);
                (spec_store_value(m, k, e, ValueModel::Hmap(np)), Some(Ok(np.len() as int)))
            },
            _ => (m, Some(Err(as_mutable_error()))),
        },
    }
}

/// Removing an inner key from the mapping row at `k`: the deleted pair is
/// returned, and a missing inner key yields `None` without mutating.
pub open spec fn spec_hmap_remove(m: StoreModel, k: Seq<char>, hk: Seq<char>, now: u64) -> (
    StoreModel,
    Option<Result<(Seq<char>, Seq<char>), ValueError>>,
) {
    match spec_lookup(m, k, now) {
        None => (m, None),
        Some(e) => match e.value {
            ValueModel::Hmap(pairs) => match assoc_get(pairs, hk) {
                Some(v) => (
                    spec_store_value(m, k, e, ValueModel::Hmap(assoc_remove(pairs, hk))),
                    Some(Ok((hk, v))),
                ),
                None => (m, None),
            },
            _ => (m, Some(Err(as_mutable_error()))),
        },
    }
}

/// The value at an inner key of the mapping reading of the row at `k`; the
/// read is lenient, a missing inner key yields `None`.
pub open spec fn spec_hmap_get(m: StoreModel, k: Seq<char>, hk: Seq<char>, now: u64) -> Option<
    Result<Seq<char>, ValueError>,
> {
    match spec_lookup(m, k, now) {
        None => None,
        Some(e) => match as_hmap(e.value) {
            Err(er) => Some(Err(er)),
            Ok(pairs) => match assoc_get(pairs, hk) {
                Some(v) => Some(Ok(v)),
                None => None,
            },
        },
    }
}

/// Whether the mapping reading of the row at `k` holds the inner key.
pub open spec fn spec_hmap_contains_key(m: StoreModel, k: Seq<char>, hk: Seq<char>, now: u64) -> Option<
    Result<bool, ValueError>,
> {
    match spec_lookup(m, k, now) {
        None => None,
        Some(e) => match as_hmap(e.value) {
            Err(er) => Some(Err(er)),
            Ok(pairs) => Some(Ok(assoc_contains_key(pairs, hk))),
        },
    }
}

/// The size of the mapping reading of the row at `k`.
pub open spec fn spec_hmap_size(m: StoreModel, k: Seq<char>, now: u64) -> Option<
    Result<int, ValueError>,
> {
    match spec_lookup(m, k, now) {
        None => None,
        Some(e) => match as_hmap(e.value) {
            Err(er) => Some(Err(er)),
            Ok(pairs) => Some(Ok(pairs.len() as int)),
        },
    }
}

/// The inner keys of the mapping reading of the row at `k`, in stored order.
pub open spec fn spec_hmap_keys(m: StoreModel, k: Seq<char>, now: u64) -> Option<
    Result<Seq<Seq<char>>, ValueError>,
> {
    match spec_lookup(m, k, now) {
        None => None,
        Some(e) => match as_hmap(e.value) {
            Err(er) => Some(Err(er)),
            Ok(pairs) => Some(Ok(assoc_keys(pairs))),
        },
    }
}

/// The inner values of the mapping reading of the row at `k`, in stored order.
pub open spec fn spec_hmap_values(m: StoreModel, k: Seq<char>, now: u64) -> Option<
    Result<Seq<Seq<char>>, ValueError>,
> {
    match spec_lookup(m, k, now) {
        None => None,
        Some(e) => match as_hmap(e.value) {
            Err(er) => Some(Err(er)),
            Ok(pairs) => Some(Ok(assoc_values(pairs))),
        },
    }
}

/// What the map of rows becomes once the listed keys are dropped.
pub open spec fn map_drop_keys(m: Map<Seq<char>, EntryModel>, ks: Seq<Seq<char>>) -> Map<
    Seq<char>,
    EntryModel,
> {
    Map::new(|k: Seq<char>| m.contains_key(k) && !ks.contains(k), |k: Seq<char>| m[k])
}

pub open spec fn opt_res_usize_view(r: Option<Result<usize, ValueError>>) -> Option<
    Result<int, ValueError>,
> {
    match r {
        Some(Ok(n)) => Some(Ok(n as int)),
        Some(Err(e)) => Some(Err(e)),
        None => None,
    }
}

pub open spec fn opt_res_pair_view(r: Option<Result<(String, String), ValueError>>) -> Option<
    Result<(Seq<char>, Seq<char>), ValueError>,
> {
    match r {
        Some(Ok(p)) => Some(Ok((p.0@, p.1@))),
        Some(Err(e)) => Some(Err(e)),
        None => None,
    }
}

/// Replacing the value of one row updates the store's map at that row's key
/// and preserves well-formedness.
proof fn lemma_entry_update(
    prev: Vec<(String, ValueEntry)>,
    cur: Vec<(String, ValueEntry)>,
    i: int,
    e2: EntryModel,
)
    requires
        assoc_keys_distinct(prev.deep_view()),
        forall|j: int|
            0 <= j < prev.deep_view().len() ==> entry_wf((#[trigger] prev.deep_view()[j]).1),
        0 <= i < prev@.len(),
        cur@ == prev@.update(i, (prev@[i].0, cur@[i].1)),
        cur@[i].1@ == e2,
        entry_wf(e2),
    ensures
        assoc_map(cur.deep_view()) == assoc_map(prev.deep_view()).insert(
            prev.deep_view()[i].0,
            e2,
        ),
        assoc_keys_distinct(cur.deep_view()),
        forall|j: int|
            0 <= j < cur.deep_view().len() ==> entry_wf((#[trigger] cur.deep_view()[j]).1),
{
    let prevlist = prev.deep_view();
    let k = prevlist[i].0;
    let newpair = (prev@[i].0, cur@[i].1);
    lemma_vec_deep_view_index(prev, i);
    lemma_vec_deep_view_update(prev, cur, i, newpair);
    assert(newpair.deep_view() == (k, e2));
    assert forall|j: int| 0 <= j < i implies (#[trigger] prevlist[j]).0 != prevlist[i].0 by {}
    lemma_assoc_insert_found(prevlist, i, e2);
    assert(cur.deep_view() =~= assoc_insert(prevlist, k, e2));
    lemma_assoc_insert_distinct(prevlist, k, e2);
    lemma_assoc_map_insert(prevlist, k, e2);
    assert(assoc_map(cur.deep_view()) =~= assoc_map(prevlist).insert(k, e2));
    assert forall|j: int| 0 <= j < cur.deep_view().len() implies entry_wf(
        (#[trigger] cur.deep_view()[j]).1,
    ) by {
        if j != i {
            assert(cur.deep_view()[j] == prevlist[j]);
        }
    }
}

/// Dropping one element of a duplicate-free sequence keeps it duplicate-free.
proof fn lemma_seq_remove_no_duplicates(s: Seq<Seq<char>>, i: int)
    requires
        s.no_duplicates(),
        0 <= i < s.len(),
    ensures
        s.remove(i).no_duplicates(),
{
    let t = s.remove(i);
    assert forall|a: int, b: int| 0 <= a < b < t.len() implies t[a] != t[b] by {
        let a2 = if a < i { a } else { a + 1 };
        let b2 = if b < i { b } else { b + 1 };
        assert(t[a] == s[a2]);
        assert(t[b] == s[b2]);
    }
}

impl KeyValueStore {
    /// Adds `delta` to the integer reading of the row at `key`, storing the sum
    /// back under the same deadline.
    fn add_at(&mut self, key: &str, delta: i64, now: u64) -> (r: Option<Result<i64, ValueError>>)
        requires
            old(self).wf(),
        ensures
            final(self).wf(),
            (final(self)@, r) == spec_add(old(self)@, key@, delta, now),
    {
        let idx = match self.index_of(key) {
            Some(i) => i,
            None => {
                return None;
            },
        };
        proof {
            lemma_vec_deep_view_index(self.data, idx as int);
        }
        if self.data[idx].1.is_expired_entry(now) {
            return None;
        }
        let cur = self.data[idx].1.get_value_as_i64();
        let oldv = match cur {
            Ok(v) => v,
            Err(e) => {
                return Some(Err(e));
            },
        };
        let n = match oldv.checked_add(delta) {
            Some(n) => n,
            None => {
                return Some(
                    Err(ValueError::TypeConversionError(TypeConversionError::IntegerOverflow)),
                );
            },
        };
        let ghost prev = self.data;
        let ghost prevlist = self.data.deep_view();
        let ghost em = prevlist[idx as int].1;
        let p: &mut (String, ValueEntry) = &mut self.data[idx];
        p.1.value = ValueType::Integer64(n);
        proof {
            let e2 = EntryModel { value: ValueModel::Integer(n), expiration: em.expiration };
            assert(self.data@[idx as int].1@ == e2);
            lemma_entry_update(prev, self.data, idx as int, e2);
        }
        Some(Ok(n))
    }

    /// Adds `by` (default one) to the integer reading of the row at `key` and
    /// returns the new value; see `spec_incr` for the failure cases.
    pub fn incr_at(&mut self, key: &str, by: Option<u64>, now: u64) -> (r: Option<
        Result<i64, ValueError>,
    >)
        requires
            old(self).wf(),
        ensures
            final(self).wf(),
            (final(self)@, r) == spec_incr(old(self)@, key@, by, now),
    {
        let b: u64 = match by {
            Some(x) => x,
            None => 1,
        };
        if b > i64::MAX as u64 {
            return Some(Err(ValueError::TypeConversionError(TypeConversionError::TryFromIntError)));
        }
        self.add_at(key, b as i64, now)
    }

    /// Adds `by` (default one) to the row at `key`, reading the clock.
    pub fn incr(&mut self, key: &str, by: Option<u64>) -> (r: Option<Result<i64, ValueError>>)
        requires
            old(self).wf(),
        ensures
            final(self).wf(),
            exists|now: u64| (final(self)@, r) == spec_incr(old(self)@, key@, by, now),
    {
        let now = now_millis();
        self.incr_at(key, by, now)
    }

    /// Subtracts `by` (default one) from the integer reading of the row at
    /// `key` and returns the new value; see `spec_decr` for the failure cases.
    pub fn decr_at(&mut self, key: &str, by: Option<u64>, now: u64) -> (r: Option<
        Result<i64, ValueError>,
    >)
        requires
            old(self).wf(),
        ensures
            final(self).wf(),
            (final(self)@, r) == spec_decr(old(self)@, key@, by, now),
    {
        let b: u64 = match by {
            Some(x) => x,
            None => 1,
        };
        if b > i64::MAX as u64 {
            return Some(Err(ValueError::TypeConversionError(TypeConversionError::TryFromIntError)));
        }
        let d = b as i64;
        self.add_at(key, -d, now)
    }

    /// Subtracts `by` (default one) from the row at `key`, reading the clock.
    pub fn decr(&mut self, key: &str, by: Option<u64>) -> (r: Option<Result<i64, ValueError>>)
        requires
            old(self).wf(),
        ensures
            final(self).wf(),
            exists|now: u64| (final(self)@, r) == spec_decr(old(self)@, key@, by, now),
    {
        let now = now_millis();
        self.decr_at(key, by, now)
    }

    /// Appends to the back of the sequence row at `key` and echoes the value.
    pub fn list_pushb_at(&mut self, key: &str, value: String, now: u64) -> (r: Option<
        Result<String, ValueError>,
    >)
        requires
            old(self).wf(),
        ensures
            final(self).wf(),
            (final(self)@, opt_res_string_view(r)) == spec_list_pushb(
                old(self)@,
                key@,
                value@,
                now,
            ),
    {
        let idx = match self.index_of(key) {
            Some(i) => i,
            None => {
                return None;
            },
        };
        proof {
            lemma_vec_deep_view_index(self.data, idx as int);
        }
        if self.data[idx].1.is_expired_entry(now) {
            return None;
        }
        let ghost prev = self.data;
        let ghost prevlist = self.data.deep_view();
        let ghost em = prevlist[idx as int].1;
        let ghost val = value@;
        let copy = value.clone();
        let p: &mut (String, ValueEntry) = &mut self.data[idx];
        match p.1.get_value_as_mut_deque() {
            Ok(d) => {
                let ghost dpre = *d;
                let ghost xg = copy;
                d.push_back(copy);
                proof {
                    lemma_deque_deep_view_push(dpre, *d, xg);
                }
            },
            Err(e) => {
                proof {
                    assert(self.data@ =~= prev@);
                }
                return Some(Err(e));
            },
        }
        proof {
            let e2 = EntryModel {
                value: ValueModel::Deque(em.value->Deque_0.push(val)),
                expiration: em.expiration,
            };
            assert(self.data@[idx as int].1@ == e2);
            lemma_entry_update(prev, self.data, idx as int, e2);
        }
        Some(Ok(value))
    }

    /// Appends to the back of the sequence row at `key`, reading the clock.
    pub fn list_pushb(&mut self, key: &str, value: String) -> (r: Option<
        Result<String, ValueError>,
    >)
        requires
            old(self).wf(),
        ensures
            final(self).wf(),
            exists|now: u64|
                (final(self)@, opt_res_string_view(r)) == spec_list_pushb(
                    old(self)@,
                    key@,
                    value@,
                    now,
                ),
    {
        let now = now_millis();
        self.list_pushb_at(key, value, now)
    }

    /// Prepends to the front of the sequence row at `key` and echoes the value.
    pub fn list_pushf_at(&mut self, key: &str, value: String, now: u64) -> (r: Option<
        Result<String, ValueError>,
    >)
        requires
            old(self).wf(),
        ensures
            final(self).wf(),
            (final(self)@, opt_res_string_view(r)) == spec_list_pushf(
                old(self)@,
                key@,
                value@,
                now,
            ),
    {
        let idx = match self.index_of(key) {
            Some(i) => i,
            None => {
                return None;
            },
        };
        proof {
            lemma_vec_deep_view_index(self.data, idx as int);
        }
        if self.data[idx].1.is_expired_entry(now) {
            return None;
        }
        let ghost prev = self.data;
        let ghost prevlist = self.data.deep_view();
        let ghost em = prevlist[idx as int].1;
        let ghost val = value@;
        let copy = value.clone();
        let p: &mut (String, ValueEntry) = &mut self.data[idx];
        match p.1.get_value_as_mut_deque() {
            Ok(d) => {
                let ghost dpre = *d;
                let ghost xg = copy;
                d.push_front(copy);
                proof {
                    assert(d.deep_view() =~= seq![xg.deep_view()] + dpre.deep_view()) by {
                        assert forall|j: int| 0 <= j < d@.len() implies d.deep_view()[j] == (
                        seq![xg.deep_view()] + dpre.deep_view())[j] by {
                            crate::convert::lemma_deque_deep_view_index(*d, j);
                            if j > 0 {
                                assert(d@[j] == dpre@[j - 1]);
                                crate::convert::lemma_deque_deep_view_index(dpre, j - 1);
                            } else {
                                assert(d@[0] == xg);
                            }
                        }
                    }
                }
            },
            Err(e) => {
                proof {
                    assert(self.data@ =~= prev@);
                }
                return Some(Err(e));
            },
        }
        proof {
            let e2 = EntryModel {
                value: ValueModel::Deque(seq![val] + em.value->Deque_0),
                expiration: em.expiration,
            };
            assert(self.data@[idx as int].1@ == e2);
            lemma_entry_update(prev, self.data, idx as int, e2);
        }
        Some(Ok(value))
    }

    /// Prepends to the front of the sequence row at `key`, reading the clock.
    pub fn list_pushf(&mut self, key: &str, value: String) -> (r: Option<
        Result<String, ValueError>,
    >)
        requires
            old(self).wf(),
        ensures
            final(self).wf(),
            exists|now: u64|
                (final(self)@, opt_res_string_view(r)) == spec_list_pushf(
                    old(self)@,
                    key@,
                    value@,
                    now,
                ),
    {
        let now = now_millis();
        self.list_pushf_at(key, value, now)
    }

    /// Takes from the front of the sequence row at `key`; an empty sequence
    /// yields `None` and is left in place.
    pub fn list_popf_at(&mut self, key: &str, now: u64) -> (r: Option<Result<String, ValueError>>)
        requires
            old(self).wf(),
        ensures
            final(self).wf(),
            (final(self)@, opt_res_string_view(r)) == spec_list_popf(old(self)@, key@, now),
    {
        let idx = match self.index_of(key) {
            Some(i) => i,
            None => {
                return None;
            },
        };
        proof {
            lemma_vec_deep_view_index(self.data, idx as int);
        }
        if self.data[idx].1.is_expired_entry(now) {
            return None;
        }
        let ghost prev = self.data;
        let ghost prevlist = self.data.deep_view();
        let ghost em = prevlist[idx as int].1;
        let p: &mut (String, ValueEntry) = &mut self.data[idx];
        let out = match p.1.get_value_as_mut_deque() {
            Ok(d) => {
                let ghost dpre = *d;
                match d.pop_front() {
                    Some(s) => {
                        proof {
                            assert(d.deep_view() =~= dpre.deep_view().drop_first()) by {
                                assert forall|j: int| 0 <= j < d@.len() implies d.deep_view()[j]
                                    == dpre.deep_view().drop_first()[j] by {
                                    crate::convert::lemma_deque_deep_view_index(*d, j);
                                    crate::convert::lemma_deque_deep_view_index(dpre, j + 1);
                                    assert(d@[j] == dpre@[j + 1]);
                                }
                            }
                            crate::convert::lemma_deque_deep_view_index(dpre, 0);
                        }
                        Some(s)
                    },
                    None => None,
                }
            },
            Err(e) => {
                proof {
                    assert(self.data@ =~= prev@);
                }
                return Some(Err(e));
            },
        };
        proof {
            match out {
                Some(_) => {
                    let e2 = EntryModel {
                        value: ValueModel::Deque(em.value->Deque_0.drop_first()),
                        expiration: em.expiration,
                    };
                    assert(self.data@[idx as int].1@ == e2);
                    lemma_entry_update(prev, self.data, idx as int, e2);
                },
                None => {
                    assert(self.data@[idx as int].1@ == em);
                    lemma_entry_update(prev, self.data, idx as int, em);
                    assert(assoc_map(self.data.deep_view()) =~= assoc_map(prev.deep_view()));
                },
            }
        }
        match out {
            Some(s) => Some(Ok(s)),
            None => None,
        }
    }

    /// Takes from the front of the sequence row at `key`, reading the clock.
    pub fn list_popf(&mut self, key: &str) -> (r: Option<Result<String, ValueError>>)
        requires
            old(self).wf(),
        ensures
            final(self).wf(),
            exists|now: u64|
                (final(self)@, opt_res_string_view(r)) == spec_list_popf(old(self)@, key@, now),
    {
        let now = now_millis();
        self.list_popf_at(key, now)
    }

    /// Takes from the back of the sequence row at `key`; an empty sequence
    /// yields `None` and is left in place.
    pub fn list_popb_at(&mut self, key: &str, now: u64) -> (r: Option<Result<String, ValueError>>)
        requires
            old(self).wf(),
        ensures
            final(self).wf(),
            (final(self)@, opt_res_string_view(r)) == spec_list_popb(old(self)@, key@, now),
    {
        let idx = match self.index_of(key) {
            Some(i) => i,
            None => {
                return None;
            },
        };
        proof {
            lemma_vec_deep_view_index(self.data, idx as int);
        }
        if self.data[idx].1.is_expired_entry(now) {
            return None;
        }
        let ghost prev = self.data;
        let ghost prevlist = self.data.deep_view();
        let ghost em = prevlist[idx as int].1;
        let p: &mut (String, ValueEntry) = &mut self.data[idx];
        let out = match p.1.get_value_as_mut_deque() {
            Ok(d) => {
                let ghost dpre = *d;
                match d.pop_back() {
                    Some(s) => {
                        proof {
                            assert(d.deep_view() =~= dpre.deep_view().drop_last()) by {
                                assert forall|j: int| 0 <= j < d@.len() implies d.deep_view()[j]
                                    == dpre.deep_view().drop_last()[j] by {
                                    crate::convert::lemma_deque_deep_view_index(*d, j);
                                    crate::convert::lemma_deque_deep_view_index(dpre, j);
                                    assert(d@[j] == dpre@[j]);
                                }
                            }
                            crate::convert::lemma_deque_deep_view_index(
                                dpre,
                                dpre@.len() as int - 1,
                            );
                        }
                        Some(s)
                    },
                    None => None,
                }
            },
            Err(e) => {
                proof {
                    assert(self.data@ =~= prev@);
                }
                return Some(Err(e));
            },
        };
        proof {
            match out {
                Some(_) => {
                    let e2 = EntryModel {
                        value: ValueModel::Deque(em.value->Deque_0.drop_last()),
                        expiration: em.expiration,
                    };
                    assert(self.data@[idx as int].1@ == e2);
                    lemma_entry_update(prev, self.data, idx as int, e2);
                },
                None => {
                    assert(self.data@[idx as int].1@ == em);
                    lemma_entry_update(prev, self.data, idx as int, em);
                    assert(assoc_map(self.data.deep_view()) =~= assoc_map(prev.deep_view()));
                },
            }
        }
        match out {
            Some(s) => Some(Ok(s)),
            None => None,
        }
    }

    /// Takes from the back of the sequence row at `key`, reading the clock.
    pub fn list_popb(&mut self, key: &str) -> (r: Option<Result<String, ValueError>>)
        requires
            old(self).wf(),
        ensures
            final(self).wf(),
            exists|now: u64|
                (final(self)@, opt_res_string_view(r)) == spec_list_popb(old(self)@, key@, now),
    {
        let now = now_millis();
        self.list_popb_at(key, now)
    }

    /// Reads the front of the sequence row at `key` without removing it.
    pub fn list_front_at(&self, key: &str, now: u64) -> (r: Option<Result<String, ValueError>>)
        requires
            self.wf(),
        ensures
            opt_res_string_view(r) == spec_list_end(self@, key@, now, true),
    {
        match self.entry_at(key, now) {
            None => None,
            Some(e) => match e.get_value_as_deque() {
                Err(er) => Some(Err(er)),
                Ok(d) => if d.len() == 0 {
                    None
                } else {
                    proof {
                        crate::convert::lemma_deque_deep_view_index(*d, 0);
                    }
                    Some(Ok(d[0].clone()))
                },
            },
        }
    }

    /// Reads the front of the sequence row at `key`, reading the clock.
    pub fn list_front(&self, key: &str) -> (r: Option<Result<String, ValueError>>)
        requires
            self.wf(),
        ensures
            exists|now: u64| opt_res_string_view(r) == spec_list_end(self@, key@, now, true),
    {
        let now = now_millis();
        self.list_front_at(key, now)
    }

    /// Reads the back of the sequence row at `key` without removing it.
    pub fn list_back_at(&self, key: &str, now: u64) -> (r: Option<Result<String, ValueError>>)
        requires
            self.wf(),
        ensures
            opt_res_string_view(r) == spec_list_end(self@, key@, now, false),
    {
        match self.entry_at(key, now) {
            None => None,
            Some(e) => match e.get_value_as_deque() {
                Err(er) => Some(Err(er)),
                Ok(d) => if d.len() == 0 {
                    None
                } else {
                    proof {
                        crate::convert::lemma_deque_deep_view_index(*d, d@.len() as int - 1);
                    }
                    Some(Ok(d[d.len() - 1].clone()))
                },
            },
        }
    }

    /// Reads the back of the sequence row at `key`, reading the clock.
    pub fn list_back(&self, key: &str) -> (r: Option<Result<String, ValueError>>)
        requires
            self.wf(),
        ensures
            exists|now: u64| opt_res_string_view(r) == spec_list_end(self@, key@, now, false),
    {
        let now = now_millis();
        self.list_back_at(key, now)
    }

    /// The length of the sequence row at `key`.
    pub fn list_size_at(&self, key: &str, now: u64) -> (r: Option<Result<usize, ValueError>>)
        requires
            self.wf(),
        ensures
            opt_res_usize_view(r) == spec_list_size(self@, key@, now),
    {
        match self.entry_at(key, now) {
            None => None,
            Some(e) => match e.get_value_as_deque() {
                Err(er) => Some(Err(er)),
                Ok(d) => Some(Ok(d.len())),
            },
        }
    }

    /// The length of the sequence row at `key`, reading the clock.
    pub fn list_size(&self, key: &str) -> (r: Option<Result<usize, ValueError>>)
        requires
            self.wf(),
        ensures
            exists|now: u64| opt_res_usize_view(r) == spec_list_size(self@, key@, now),
    {
        let now = now_millis();
        self.list_size_at(key, now)
    }
}

impl KeyValueStore {
    /// Adds an element to the set row at `key` and returns the cardinality.
    pub fn hset_add_at(&mut self, key: &str, value: String, now: u64) -> (r: Option<
        Result<usize, ValueError>,
    >)
        requires
            old(self).wf(),
        ensures
            final(self).wf(),
            (final(self)@, opt_res_usize_view(r)) == spec_hset_add(old(self)@, key@, value@, now),
    {
        let idx = match self.index_of(key) {
            Some(i) => i,
            None => {
                return None;
            },
        };
        proof {
            lemma_vec_deep_view_index(self.data, idx as int);
        }
        if self.data[idx].1.is_expired_entry(now) {
            return None;
        }
        let ghost prev = self.data;
        let ghost prevlist = self.data.deep_view();
        let ghost em = prevlist[idx as int].1;
        let ghost val = value@;
        let p: &mut (String, ValueEntry) = &mut self.data[idx];
        let n = match p.1.get_value_as_mut_hset() {
            Ok(items) => {
                let ghost ipre = *items;
                if !vec_contains_string(items, &value) {
                    let ghost xg = value;
                    items.push(value);
                    proof {
                        lemma_vec_deep_view_push(ipre, *items, xg);
                    }
                }
                items.len()
            },
            Err(e) => {
                proof {
                    assert(self.data@ =~= prev@);
                }
                return Some(Err(e));
            },
        };
        proof {
            let ni = if em.value->Hset_0.contains(val) {
                em.value->Hset_0
            } else {
                em.value->Hset_0.push(val)
            };
            let e2 = EntryModel { value: ValueModel::Hset(ni), expiration: em.expiration };
            assert(self.data@[idx as int].1@ == e2);
            lemma_entry_update(prev, self.data, idx as int, e2);
        }
        Some(Ok(n))
    }

    /// Adds an element to the set row at `key`, reading the clock.
    pub fn hset_add(&mut self, key: &str, value: String) -> (r: Option<Result<usize, ValueError>>)
        requires
            old(self).wf(),
        ensures
            final(self).wf(),
            exists|now: u64|
                (final(self)@, opt_res_usize_view(r)) == spec_hset_add(
                    old(self)@,
                    key@,
                    value@,
                    now,
                ),
    {
        let now = now_millis();
        self.hset_add_at(key, value, now)
    }

    /// Removes an element from the set row at `key` and returns the
    /// cardinality.
    pub fn hset_remove_at(&mut self, key: &str, value: String, now: u64) -> (r: Option<
        Result<usize, ValueError>,
    >)
        requires
            old(self).wf(),
        ensures
            final(self).wf(),
            (final(self)@, opt_res_usize_view(r)) == spec_hset_remove(
                old(self)@,
                key@,
                value@,
                now,
            ),
    {
        let idx = match self.index_of(key) {
            Some(i) => i,
            None => {
                return None;
            },
        };
        proof {
            lemma_vec_deep_view_index(self.data, idx as int);
        }
        if self.data[idx].1.is_expired_entry(now) {
            return None;
        }
        let ghost prev = self.data;
        let ghost prevlist = self.data.deep_view();
        let ghost em = prevlist[idx as int].1;
        let ghost val = value@;
        let p: &mut (String, ValueEntry) = &mut self.data[idx];
        let n = match p.1.get_value_as_mut_hset() {
            Ok(items) => {
                let ghost ipre = *items;
                match find_string_index(items, &value) {
                    Some(j) => {
                        items.remove(j);
                        proof {
                            lemma_vec_deep_view_remove(ipre, *items, j as int);
                            ipre.deep_view().index_of_first_ensures(val);
                            assert(ipre.deep_view().contains(val));
                            let fi = ipre.deep_view().index_of_first(val)->Some_0;
                            assert(fi == j as int);
                            lemma_seq_remove_no_duplicates(ipre.deep_view(), j as int);
                        }
                    },
                    None => {
                        proof {
                            assert(!ipre.deep_view().contains(val));
                            ipre.deep_view().index_of_first_ensures(val);
                        }
                    },
                }
                items.len()
            },
            Err(e) => {
                proof {
                    assert(self.data@ =~= prev@);
                }
                return Some(Err(e));
            },
        };
        proof {
            let ni = em.value->Hset_0.remove_value(val);
            let e2 = EntryModel { value: ValueModel::Hset(ni), expiration: em.expiration };
            assert(self.data@[idx as int].1@ == e2);
            lemma_entry_update(prev, self.data, idx as int, e2);
        }
        Some(Ok(n))
    }

    /// Removes an element from the set row at `key`, reading the clock.
    pub fn hset_remove(&mut self, key: &str, value: String) -> (r: Option<
        Result<usize, ValueError>,
    >)
        requires
            old(self).wf(),
        ensures
            final(self).wf(),
            exists|now: u64|
                (final(self)@, opt_res_usize_view(r)) == spec_hset_remove(
                    old(self)@,
                    key@,
                    value@,
                    now,
                ),
    {
        let now = now_millis();
        self.hset_remove_at(key, value, now)
    }

    /// Whether the set reading of the row at `key` holds `value`.
    pub fn hset_contains_at(&self, key: &str, value: String, now: u64) -> (r: Option<
        Result<bool, ValueError>,
    >)
        requires
            self.wf(),
        ensures
            r == spec_hset_contains(self@, key@, value@, now),
    {
        match self.entry_at(key, now) {
            None => None,
            Some(e) => match e.get_value_as_hset() {
                Err(er) => Some(Err(er)),
                Ok(items) => Some(Ok(vec_contains_string(&items, &value))),
            },
        }
    }

    /// Whether the set reading of the row at `key` holds `value`, now.
    pub fn hset_contains(&self, key: &str, value: String) -> (r: Option<
        Result<bool, ValueError>,
    >)
        requires
            self.wf(),
        ensures
            exists|now: u64| r == spec_hset_contains(self@, key@, value@, now),
    {
        let now = now_millis();
        self.hset_contains_at(key, value, now)
    }

    /// The cardinality of the set reading of the row at `key`.
    pub fn hset_size_at(&self, key: &str, now: u64) -> (r: Option<Result<usize, ValueError>>)
        requires
            self.wf(),
        ensures
            opt_res_usize_view(r) == spec_hset_size(self@, key@, now),
    {
        match self.entry_at(key, now) {
            None => None,
            Some(e) => match e.get_value_as_hset() {
                Err(er) => Some(Err(er)),
                Ok(items) => Some(Ok(items.len())),
            },
        }
    }

    /// The cardinality of the set reading of the row at `key`, now.
    pub fn hset_size(&self, key: &str) -> (r: Option<Result<usize, ValueError>>)
        requires
            self.wf(),
        ensures
            exists|now: u64| opt_res_usize_view(r) == spec_hset_size(self@, key@, now),
    {
        let now = now_millis();
        self.hset_size_at(key, now)
    }

    /// One set-algebra operand: a missing key is the empty set.
    fn hset_operand_at(&self, key: &str, now: u64) -> (r: Result<Vec<String>, ValueError>)
        requires
            self.wf(),
        ensures
            res_strings_view(r) == spec_hset_operand(self@, key@, now),
    {
        match self.entry_at(key, now) {
            None => {
                let empty: Vec<String> = Vec::new();
                proof {
                    assert(empty.deep_view() =~= Seq::<Seq<char>>::empty());
                }
                Ok(empty)
            },
            Some(e) => e.get_value_as_hset(),
        }
    }

    /// The intersection of the set readings at the two keys, in the first
    /// operand's stored order.
    pub fn hset_intersection_at(&self, key1: &str, key2: &str, now: u64) -> (r: Option<
        Result<Vec<String>, ValueError>,
    >)
        requires
            self.wf(),
        ensures
            opt_res_strings_view(r) == spec_hset_intersection(self@, key1@, key2@, now),
    {
        let a = match self.hset_operand_at(key1, now) {
            Ok(v) => v,
            Err(er) => {
                return Some(Err(er));
            },
        };
        let b = match self.hset_operand_at(key2, now) {
            Ok(v) => v,
            Err(er) => {
                return Some(Err(er));
            },
        };
        Some(Ok(strings_intersect(&a, &b)))
    }

    /// The intersection of the set readings at the two keys, now.
    pub fn hset_intersection(&self, key1: &str, key2: &str) -> (r: Option<
        Result<Vec<String>, ValueError>,
    >)
        requires
            self.wf(),
        ensures
            exists|now: u64|
                opt_res_strings_view(r) == spec_hset_intersection(self@, key1@, key2@, now),
    {
        let now = now_millis();
        self.hset_intersection_at(key1, key2, now)
    }

    /// The union of the set readings at the two keys: the first operand, then
    /// the second's new elements.
    pub fn hset_union_at(&self, key1: &str, key2: &str, now: u64) -> (r: Option<
        Result<Vec<String>, ValueError>,
    >)
        requires
            self.wf(),
        ensures
            opt_res_strings_view(r) == spec_hset_union(self@, key1@, key2@, now),
    {
        let a = match self.hset_operand_at(key1, now) {
            Ok(v) => v,
            Err(er) => {
                return Some(Err(er));
            },
        };
        let b = match self.hset_operand_at(key2, now) {
            Ok(v) => v,
            Err(er) => {
                return Some(Err(er));
            },
        };
        Some(Ok(strings_union(&a, &b)))
    }

    /// The union of the set readings at the two keys, now.
    pub fn hset_union(&self, key1: &str, key2: &str) -> (r: Option<
        Result<Vec<String>, ValueError>,
    >)
        requires
            self.wf(),
        ensures
            exists|now: u64| opt_res_strings_view(r) == spec_hset_union(self@, key1@, key2@, now),
    {
        let now = now_millis();
        self.hset_union_at(key1, key2, now)
    }

    /// The elements of the first operand's set reading that are not in the
    /// second's.
    pub fn hset_difference_at(&self, key1: &str, key2: &str, now: u64) -> (r: Option<
        Result<Vec<String>, ValueError>,
    >)
        requires
            self.wf(),
        ensures
            opt_res_strings_view(r) == spec_hset_difference(self@, key1@, key2@, now),
    {
        let a = match self.hset_operand_at(key1, now) {
            Ok(v) => v,
            Err(er) => {
                return Some(Err(er));
            },
        };
        let b = match self.hset_operand_at(key2, now) {
            Ok(v) => v,
            Err(er) => {
                return Some(Err(er));
            },
        };
        Some(Ok(strings_difference(&a, &b)))
    }

    /// The difference of the set readings at the two keys, now.
    pub fn hset_difference(&self, key1: &str, key2: &str) -> (r: Option<
        Result<Vec<String>, ValueError>,
    >)
        requires
            self.wf(),
        ensures
            exists|now: u64|
                opt_res_strings_view(r) == spec_hset_difference(self@, key1@, key2@, now),
    {
        let now = now_millis();
        self.hset_difference_at(key1, key2, now)
    }

    /// Inserts a pair into the mapping row at `key` and returns the mapping's
    /// size.
    pub fn hmap_insert_at(&mut self, key: &str, kv_pair: (String, String), now: u64) -> (r: Option<
        Result<usize, ValueError>,
    >)
        requires
            old(self).wf(),
        ensures
            final(self).wf(),
            (final(self)@, opt_res_usize_view(r)) == spec_hmap_insert(
                old(self)@,
                key@,
                kv_pair.0@,
                kv_pair.1@,
                now,
            ),
    {
        let (hk, hv) = kv_pair;
        let ghost hkv = hk@;
        let ghost hvv = hv@;
        let idx = match self.index_of(key) {
            Some(i) => i,
            None => {
                return None;
            },
        };
        proof {
            lemma_vec_deep_view_index(self.data, idx as int);
        }
        if self.data[idx].1.is_expired_entry(now) {
            return None;
        }
        let ghost prev = self.data;
        let ghost prevlist = self.data.deep_view();
        let ghost em = prevlist[idx as int].1;
        let p: &mut (String, ValueEntry) = &mut self.data[idx];
        let n = match p.1.get_value_as_mut_hmap() {
            Ok(pairs) => {
                let ghost ppre = *pairs;
                pairs_insert(pairs, hk, hv);
                proof {
                    crate::assoc::lemma_assoc_insert_distinct(ppre.deep_view(), hkv, hvv);
                }
                pairs.len()
            },
            Err(e) => {
                proof {
                    assert(self.data@ =~= prev@);
                }
                return Some(Err(e));
            },
        };
        proof {
            let np = assoc_insert(em.value->Hmap_0, hkv, hvv);
            let e2 = EntryModel { value: ValueModel::Hmap(np), expiration: em.expiration };
            assert(self.data@[idx as int].1@ == e2);
            lemma_entry_update(prev, self.data, idx as int, e2);
        }
        Some(Ok(n))
    }

    /// Inserts a pair into the mapping row at `key`, reading the clock.
    pub fn hmap_insert(&mut self, key: &str, kv_pair: (String, String)) -> (r: Option<
        Result<usize, ValueError>,
    >)
        requires
            old(self).wf(),
        ensures
            final(self).wf(),
            exists|now: u64|
                (final(self)@, opt_res_usize_view(r)) == spec_hmap_insert(
                    old(self)@,
                    key@,
                    kv_pair.0@,
                    kv_pair.1@,
                    now,
                ),
    {
        let now = now_millis();
        self.hmap_insert_at(key, kv_pair, now)
    }

    /// Removes an inner key from the mapping row at `key`, returning the pair.
    pub fn hmap_remove_at(&mut self, key: &str, hmap_key: String, now: u64) -> (r: Option<
        Result<(String, String), ValueError>,
    >)
        requires
            old(self).wf(),
        ensures
            final(self).wf(),
            (final(self)@, opt_res_pair_view(r)) == spec_hmap_remove(
                old(self)@,
                key@,
                hmap_key@,
                now,
            ),
    {
        let idx = match self.index_of(key) {
            Some(i) => i,
            None => {
                return None;
            },
        };
        proof {
            lemma_vec_deep_view_index(self.data, idx as int);
        }
        if self.data[idx].1.is_expired_entry(now) {
            return None;
        }
        let ghost prev = self.data;
        let ghost prevlist = self.data.deep_view();
        let ghost em = prevlist[idx as int].1;
        let ghost hkv = hmap_key@;
        let p: &mut (String, ValueEntry) = &mut self.data[idx];
        let out = match p.1.get_value_as_mut_hmap() {
            Ok(pairs) => {
                let ghost ppre = *pairs;
                let taken = pairs_remove(pairs, hmap_key.as_str());
                proof {
                    if taken is Some {
                        crate::assoc::lemma_assoc_remove_distinct(ppre.deep_view(), hkv);
                    }
                }
                taken
            },
            Err(e) => {
                proof {
                    assert(self.data@ =~= prev@);
                }
                return Some(Err(e));
            },
        };
        proof {
            match out {
                Some(_) => {
                    let e2 = EntryModel {
                        value: ValueModel::Hmap(assoc_remove(em.value->Hmap_0, hkv)),
                        expiration: em.expiration,
                    };
                    assert(self.data@[idx as int].1@ == e2);
                    lemma_entry_update(prev, self.data, idx as int, e2);
                },
                None => {
                    assert(self.data@[idx as int].1@ == em);
                    lemma_entry_update(prev, self.data, idx as int, em);
                    assert(assoc_map(self.data.deep_view()) =~= assoc_map(prev.deep_view()));
                },
            }
        }
        match out {
            Some(pair) => Some(Ok(pair)),
            None => None,
        }
    }

    /// Removes an inner key from the mapping row at `key`, reading the clock.
    pub fn hmap_remove(&mut self, key: &str, hmap_key: String) -> (r: Option<
        Result<(String, String), ValueError>,
    >)
        requires
            old(self).wf(),
        ensures
            final(self).wf(),
            exists|now: u64|
                (final(self)@, opt_res_pair_view(r)) == spec_hmap_remove(
                    old(self)@,
                    key@,
                    hmap_key@,
                    now,
                ),
    {
        let now = now_millis();
        self.hmap_remove_at(key, hmap_key, now)
    }

    /// The value at an inner key of the mapping reading of the row at `key`.
    pub fn hmap_get_at(&self, key: &str, hmap_key: String, now: u64) -> (r: Option<
        Result<String, ValueError>,
    >)
        requires
            self.wf(),
        ensures
            opt_res_string_view(r) == spec_hmap_get(self@, key@, hmap_key@, now),
    {
        match self.entry_at(key, now) {
            None => None,
            Some(e) => match e.get_value_as_hmap() {
                Err(er) => Some(Err(er)),
                Ok(pairs) => match assoc_index_of(&pairs, hmap_key.as_str()) {
                    Some(i) => {
                        proof {
                            lemma_assoc_get_at_index(pairs.deep_view(), i as int);
                            lemma_vec_deep_view_index(pairs, i as int);
                        }
                        Some(Ok(pairs[i].1.clone()))
                    },
                    None => {
                        proof {
                            lemma_assoc_get_absent(pairs.deep_view(), hmap_key@);
                        }
                        None
                    },
                },
            },
        }
    }

    /// The value at an inner key of the mapping row at `key`, now.
    pub fn hmap_get(&self, key: &str, hmap_key: String) -> (r: Option<
        Result<String, ValueError>,
    >)
        requires
            self.wf(),
        ensures
            exists|now: u64| opt_res_string_view(r) == spec_hmap_get(self@, key@, hmap_key@, now),
    {
        let now = now_millis();
        self.hmap_get_at(key, hmap_key, now)
    }

    /// Whether the mapping reading of the row at `key` holds the inner key.
    pub fn hmap_contains_key_at(&self, key: &str, hmap_key: String, now: u64) -> (r: Option<
        Result<bool, ValueError>,
    >)
        requires
            self.wf(),
        ensures
            r == spec_hmap_contains_key(self@, key@, hmap_key@, now),
    {
        match self.entry_at(key, now) {
            None => None,
            Some(e) => match e.get_value_as_hmap() {
                Err(er) => Some(Err(er)),
                Ok(pairs) => match assoc_index_of(&pairs, hmap_key.as_str()) {
                    Some(i) => Some(Ok(true)),
                    None => {
                        proof {
                            lemma_assoc_get_absent(pairs.deep_view(), hmap_key@);
                        }
                        Some(Ok(false))
                    },
                },
            },
        }
    }

    /// Whether the mapping row at `key` holds the inner key, now.
    pub fn hmap_contains_key(&self, key: &str, hmap_key: String) -> (r: Option<
        Result<bool, ValueError>,
    >)
        requires
            self.wf(),
        ensures
            exists|now: u64| r == spec_hmap_contains_key(self@, key@, hmap_key@, now),
    {
        let now = now_millis();
        self.hmap_contains_key_at(key, hmap_key, now)
    }

    /// The size of the mapping reading of the row at `key`.
    pub fn hmap_size_at(&self, key: &str, now: u64) -> (r: Option<Result<usize, ValueError>>)
        requires
            self.wf(),
        ensures
            opt_res_usize_view(r) == spec_hmap_size(self@, key@, now),
    {
        match self.entry_at(key, now) {
            None => None,
            Some(e) => match e.get_value_as_hmap() {
                Err(er) => Some(Err(er)),
                Ok(pairs) => Some(Ok(pairs.len())),
            },
        }
    }

    /// The size of the mapping row at `key`, now.
    pub fn hmap_size(&self, key: &str) -> (r: Option<Result<usize, ValueError>>)
        requires
            self.wf(),
        ensures
            exists|now: u64| opt_res_usize_view(r) == spec_hmap_size(self@, key@, now),
    {
        let now = now_millis();
        self.hmap_size_at(key, now)
    }

    /// The inner keys of the mapping reading of the row at `key`, in stored
    /// order.
    pub fn hmap_keys_at(&self, key: &str, now: u64) -> (r: Option<Result<Vec<String>, ValueError>>)
        requires
            self.wf(),
        ensures
            opt_res_strings_view(r) == spec_hmap_keys(self@, key@, now),
    {
        match self.entry_at(key, now) {
            None => None,
            Some(e) => match e.get_value_as_hmap() {
                Err(er) => Some(Err(er)),
                Ok(pairs) => Some(Ok(pairs_keys(&pairs))),
            },
        }
    }

    /// The inner keys of the mapping row at `key`, now.
    pub fn hmap_keys(&self, key: &str) -> (r: Option<Result<Vec<String>, ValueError>>)
        requires
            self.wf(),
        ensures
            exists|now: u64| opt_res_strings_view(r) == spec_hmap_keys(self@, key@, now),
    {
        let now = now_millis();
        self.hmap_keys_at(key, now)
    }

    /// The inner values of the mapping reading of the row at `key`, in stored
    /// order.
    pub fn hmap_values_at(&self, key: &str, now: u64) -> (r: Option<
        Result<Vec<String>, ValueError>,
    >)
        requires
            self.wf(),
        ensures
            opt_res_strings_view(r) == spec_hmap_values(self@, key@, now),
    {
        match self.entry_at(key, now) {
            None => None,
            Some(e) => match e.get_value_as_hmap() {
                Err(er) => Some(Err(er)),
                Ok(pairs) => Some(Ok(pairs_values(&pairs))),
            },
        }
    }

    /// The inner values of the mapping row at `key`, now.
    pub fn hmap_values(&self, key: &str) -> (r: Option<Result<Vec<String>, ValueError>>)
        requires
            self.wf(),
        ensures
            exists|now: u64| opt_res_strings_view(r) == spec_hmap_values(self@, key@, now),
    {
        let now = now_millis();
        self.hmap_values_at(key, now)
    }

    /// Every pair of the mapping reading of the row at `key`, in stored order.
    pub fn hmap_items_at(&self, key: &str, now: u64) -> (r: Option<
        Result<Vec<(String, String)>, ValueError>,
    >)
        requires
            self.wf(),
        ensures
            opt_res_pairs_view(r) == spec_get_hmap(self@, key@, now),
    {
        match self.entry_at(key, now) {
            None => None,
            Some(e) => Some(e.get_value_as_hmap()),
        }
    }

    /// Every pair of the mapping row at `key`, now.
    pub fn hmap_items(&self, key: &str) -> (r: Option<Result<Vec<(String, String)>, ValueError>>)
        requires
            self.wf(),
        ensures
            exists|now: u64| opt_res_pairs_view(r) == spec_get_hmap(self@, key@, now),
    {
        let now = now_millis();
        self.hmap_items_at(key, now)
    }
}

/// A key of some pair among the first `n` whose row is expired at `now`.
spec fn expired_key_in_prefix(
    list: Seq<(Seq<char>, EntryModel)>,
    n: int,
    x: Seq<char>,
    now: u64,
) -> bool {
    exists|j: int| 0 <= j < n && (#[trigger] list[j]).0 == x && spec_entry_expired(list[j].1, now)
}

impl KeyValueStore {
    /// Deletes every row expired at the single instant `now`; nothing else
    /// changes.
    #[verifier::loop_isolation(false)]
    pub fn clear_all_expired_keys_at(&mut self, now: u64)
        requires
            old(self).wf(),
        ensures
            final(self).wf(),
            final(self)@ == spec_sweep(old(self)@, now),
    {
        let ghost m0 = self@;
        let ghost list0 = self.data.deep_view();
        let mut expired: Vec<String> = Vec::new();
        let mut i: usize = 0;
        while i < self.data.len()
            invariant
                self.data == old(self).data,
                self.name == old(self).name,
                self.default_ttl == old(self).default_ttl,
                i <= self.data@.len(),
                expired.deep_view().no_duplicates(),
                forall|x: Seq<char>| #[trigger]
                    expired.deep_view().contains(x) <==> expired_key_in_prefix(
                        list0,
                        i as int,
                        x,
                        now,
                    ),
            decreases self.data@.len() - i,
        {
            proof {
                lemma_vec_deep_view_index(self.data, i as int);
            }
            if self.data[i].1.is_expired_entry(now) {
                let ghost prevex = expired;
                let k = self.data[i].0.clone();
                let ghost kg = k;
                expired.push(k);
                proof {
                    lemma_vec_deep_view_push(prevex, expired, kg);
                    let key = list0[i as int].0;
                    assert(kg@ == key);
                    assert forall|x: Seq<char>| #[trigger]
                        expired.deep_view().contains(x) implies expired_key_in_prefix(
                        list0,
                        i as int + 1,
                        x,
                        now,
                    ) by {
                        let w = choose|w: int|
                            0 <= w < expired.deep_view().len() && expired.deep_view()[w] == x;
                        if w < prevex.deep_view().len() {
                            assert(prevex.deep_view().contains(x));
                        } else {
                            assert(x == key);
                            assert(list0[i as int].0 == x && spec_entry_expired(
                                list0[i as int].1,
                                now,
                            ));
                        }
                    }
                    assert forall|x: Seq<char>|
                        expired_key_in_prefix(
                            list0,
                            i as int + 1,
                            x,
                            now,
                        ) implies #[trigger] expired.deep_view().contains(x) by {
                        let j = choose|j: int|
                            0 <= j < i + 1 && (#[trigger] list0[j]).0 == x && spec_entry_expired(
                                list0[j].1,
                                now,
                            );
                        if j < i {
                            assert(prevex.deep_view().contains(x));
                            let w = choose|w: int|
                                0 <= w < prevex.deep_view().len() && prevex.deep_view()[w] == x;
                            assert(expired.deep_view()[w] == x);
                        } else {
                            assert(expired.deep_view().last() == x);
                        }
                    }
                    if prevex.deep_view().contains(key) {
                        let j = choose|j: int|
                            0 <= j < i && (#[trigger] list0[j]).0 == key && spec_entry_expired(
                                list0[j].1,
                                now,
                            );
                        assert(false);
                    }
                    assert forall|a: int, b: int|
                        0 <= a < b < expired.deep_view().len() implies expired.deep_view()[a]
                        != expired.deep_view()[b] by {
                        if b < prevex.deep_view().len() {
                        } else {
                            assert(expired.deep_view()[b] == key);
                            assert(expired.deep_view()[a] == prevex.deep_view()[a]);
                            if expired.deep_view()[a] == key {
                                assert(prevex.deep_view().contains(key));
                            }
                        }
                    }
                }
            } else {
                proof {
                    assert forall|x: Seq<char>|
                        expired_key_in_prefix(
                            list0,
                            i as int + 1,
                            x,
                            now,
                        ) implies #[trigger] expired.deep_view().contains(x) by {
                        let j = choose|j: int|
                            0 <= j < i + 1 && (#[trigger] list0[j]).0 == x && spec_entry_expired(
                                list0[j].1,
                                now,
                            );
                        assert(j < i);
                    }
                }
            }
            i += 1;
        }
        let ghost ex = expired.deep_view();
        let mut j: usize = 0;
        while j < expired.len()
            invariant
                self.wf(),
                self@.name == m0.name,
                self@.default_ttl == m0.default_ttl,
                expired.deep_view() == ex,
                j <= expired@.len(),
                self@.data == map_drop_keys(m0.data, ex.take(j as int)),
            decreases expired@.len() - j,
        {
            proof {
                lemma_vec_deep_view_index(expired, j as int);
            }
            let ghost before = self@.data;
            let key = expired[j].clone();
            self.remove(key.as_str());
            proof {
                let kj = ex[j as int];
                assert(self@.data == before.remove(kj));
                assert(ex.take(j as int + 1) =~= ex.take(j as int).push(kj));
                assert forall|x: Seq<char>| true implies (map_drop_keys(
                    m0.data,
                    ex.take(j as int + 1),
                ).dom().contains(x) <==> before.remove(kj).dom().contains(x)) by {
                    if ex.take(j as int).push(kj).contains(x) {
                        let w = choose|w: int|
                            0 <= w < ex.take(j as int).push(kj).len() && ex.take(j as int).push(
                                kj,
                            )[w] == x;
                        if w < j {
                            assert(ex.take(j as int).contains(x));
                        } else {
                            assert(x == kj);
                        }
                    }
                    if ex.take(j as int).contains(x) {
                        let w = choose|w: int|
                            0 <= w < ex.take(j as int).len() && ex.take(j as int)[w] == x;
                        assert(ex.take(j as int).push(kj)[w] == x);
                        assert(ex.take(j as int).push(kj).contains(x));
                    }
                    if x == kj {
                        assert(ex.take(j as int).push(kj).last() == x);
                        assert(ex.take(j as int).push(kj).contains(x));
                    }
                }
                assert(self@.data =~= map_drop_keys(m0.data, ex.take(j as int + 1)));
            }
            j += 1;
        }
        proof {
            assert(ex.take(expired@.len() as int) =~= ex);
            assert forall|x: Seq<char>| true implies (map_drop_keys(m0.data, ex).dom().contains(x)
                <==> spec_sweep(m0, now).data.dom().contains(x)) by {
                if m0.data.contains_key(x) {
                    let w = choose|w: int| 0 <= w < list0.len() && (#[trigger] list0[w]).0 == x;
                    lemma_assoc_map_index(list0, w);
                    assert(m0.data[x] == list0[w].1);
                    if spec_entry_expired(m0.data[x], now) {
                        assert(expired_key_in_prefix(list0, list0.len() as int, x, now));
                        assert(ex.contains(x));
                    }
                    if ex.contains(x) {
                        let j2 = choose|j2: int|
                            0 <= j2 < list0.len() && (#[trigger] list0[j2]).0 == x
                                && spec_entry_expired(list0[j2].1, now);
                        assert(j2 == w);
                    }
                }
            }
            assert(self@.data =~= spec_sweep(m0, now).data);
        }
    }

    /// Deletes every row expired as of one clock reading taken at the start of
    /// the scan.
    pub fn clear_all_expired_keys(&mut self)
        requires
            old(self).wf(),
        ensures
            final(self).wf(),
            exists|now: u64| final(self)@ == spec_sweep(old(self)@, now),
    {
        let now = now_millis();
        self.clear_all_expired_keys_at(now);
    }
}

} // verus!
