use vstd::prelude::*;
use crate::assoc::{
    assoc_map, assoc_keys_distinct, lemma_assoc_map_index, lemma_assoc_map_absent,
    lemma_assoc_insert_absent, lemma_assoc_insert_distinct, lemma_assoc_map_insert,
    lemma_assoc_remove_found, lemma_assoc_remove_distinct, lemma_assoc_map_remove,
};
use crate::convert::{
    assoc_index_of, lemma_vec_deep_view_index, lemma_vec_deep_view_push, lemma_vec_deep_view_update,
    lemma_vec_deep_view_remove,
};
use crate::store::{KeyValueStore, StoreModel, spec_sweep};
use crate::value_entry::EntryModel;

verus! {

/// Why the registry refused an operation.
#[derive(Clone, Copy, PartialEq, Eq, Structural, Debug)]
pub enum ManagerError {
    StoreAlreadyExists,
}

/// The registry of named stores: creates, removes and hands out stores, and
/// fans the periodic sweep out to each of them. Store names are unique;
/// creating a store under a taken name fails without touching the existing
/// store.
pub struct RusticManager {
    stores_map: Vec<(String, KeyValueStore)>,
}

impl View for RusticManager {
    type V = Map<Seq<char>, StoreModel>;

    closed spec fn view(&self) -> Map<Seq<char>, StoreModel> {
        assoc_map(self.stores_map.deep_view())
    }
}

/// Relates a registry before and after one of its stores was handed out by
/// mutable reference: the store stood under `name`, and only that slot changed.
pub closed spec fn mgr_update(
    o: RusticManager,
    f: RusticManager,
    name: Seq<char>,
    st: KeyValueStore,
) -> bool {
    exists|i: int|
        0 <= i < o.stores_map@.len() && (#[trigger] o.stores_map.deep_view()[i]).0 == name
            && f.stores_map@ == o.stores_map@.update(i, (o.stores_map@[i].0, st))
}

impl RusticManager {
    /// Distinct store names, every store well-formed.
    pub closed spec fn wf(self) -> bool {
        &&& assoc_keys_distinct(self.stores_map.deep_view())
        &&& forall|i: int|
            0 <= i < self.stores_map@.len() ==> (#[trigger] self.stores_map@[i]).1.wf()
    }

    /// A fresh registry with no stores.
    pub fn new() -> (r: RusticManager)
        ensures
            r.wf(),
            r@ == Map::<Seq<char>, StoreModel>::empty(),
    {
        let m = RusticManager { stores_map: Vec::new() };
        proof {
            assert(m.stores_map.deep_view() =~= Seq::<(Seq<char>, StoreModel)>::empty());
            assert(assoc_map(m.stores_map.deep_view()) =~= Map::<Seq<char>, StoreModel>::empty());
        }
        m
    }

    /// Creates an empty store under `name`; a taken name is refused and the
    /// registry is left exactly as it was.
    pub fn create_store(&mut self, name: &str, default_ttl: Option<u64>) -> (r: Result<
        (),
        ManagerError,
    >)
        requires
            old(self).wf(),
        ensures
            final(self).wf(),
            match r {
                Ok(()) => {
                    &&& !old(self)@.contains_key(name@)
                    &&& final(self)@ == old(self)@.insert(
                        name@,
                        (StoreModel {
                            name: name@,
                            default_ttl,
                            data: Map::<Seq<char>, EntryModel>::empty(),
                        }),
                    )
                },
                Err(e) => {
                    &&& old(self)@.contains_key(name@)
                    &&& final(self)@ == old(self)@
                    &&& e == ManagerError::StoreAlreadyExists
                },
            },
    {
        let ghost prevlist = self.stores_map.deep_view();
        match assoc_index_of(&self.stores_map, name) {
            Some(i) => {
                proof {
                    lemma_assoc_map_index(prevlist, i as int);
                }
                Err(ManagerError::StoreAlreadyExists)
            },
            None => {
                proof {
                    lemma_assoc_map_absent(prevlist, name@);
                }
                let st = KeyValueStore::new(name, default_ttl);
                let ghost stm = st@;
                let ghost prev = self.stores_map;
                let ks: String = name.to_owned();
                let x = (ks, st);
                self.stores_map.push(x);
                proof {
                    lemma_vec_deep_view_push(prev, self.stores_map, x);
                    assert(x.deep_view() == (name@, stm));
                    lemma_assoc_insert_absent(prevlist, name@, stm);
                    assert(self.stores_map.deep_view() =~= crate::assoc::assoc_insert(
                        prevlist,
                        name@,
                        stm,
                    ));
                    lemma_assoc_insert_distinct(prevlist, name@, stm);
                    lemma_assoc_map_insert(prevlist, name@, stm);
                    assert forall|j: int| 0 <= j < self.stores_map@.len() implies (
                    #[trigger] self.stores_map@[j]).1.wf() by {
                        if j < prev@.len() {
                            assert(self.stores_map@[j] == prev@[j]);
                        } else {
                            assert(self.stores_map@[j] == x);
                        }
                    }
                }
                Ok(())
            },
        }
    }

    /// Removes the store under `name`, reporting whether one existed.
    pub fn remove_store(&mut self, name: &str) -> (r: bool)
        requires
            old(self).wf(),
        ensures
            final(self).wf(),
            r == old(self)@.contains_key(name@),
            final(self)@ == old(self)@.remove(name@),
    {
        let ghost prevlist = self.stores_map.deep_view();
        match assoc_index_of(&self.stores_map, name) {
            Some(i) => {
                proof {
                    lemma_assoc_map_index(prevlist, i as int);
                }
                let ghost prev = self.stores_map;
                self.stores_map.remove(i);
                proof {
                    lemma_vec_deep_view_remove(prev, self.stores_map, i as int);
                    lemma_assoc_remove_found(prevlist, i as int);
                    assert(self.stores_map.deep_view() =~= crate::assoc::assoc_remove(
                        prevlist,
                        name@,
                    ));
                    lemma_assoc_remove_distinct(prevlist, name@);
                    lemma_assoc_map_remove(prevlist, name@);
                    assert forall|j: int| 0 <= j < self.stores_map@.len() implies (
                    #[trigger] self.stores_map@[j]).1.wf() by {
                        if j < i {
                            assert(self.stores_map@[j] == prev@[j]);
                        } else {
                            assert(self.stores_map@[j] == prev@[j + 1]);
                        }
                    }
                }
                true
            },
            None => {
                proof {
                    lemma_assoc_map_absent(prevlist, name@);
                    assert(self@ =~= old(self)@.remove(name@));
                }
                false
            },
        }
    }

    /// A shared reference to the store under `name`, if any.
    pub fn get_store(&self, name: &str) -> (r: Option<&KeyValueStore>)
        requires
            self.wf(),
        ensures
            match r {
                Some(s) => {
                    &&& self@.contains_key(name@)
                    &&& s@ == self@[name@]
                    &&& s.wf()
                },
                None => !self@.contains_key(name@),
            },
    {
        match assoc_index_of(&self.stores_map, name) {
            Some(i) => {
                proof {
                    lemma_assoc_map_index(self.stores_map.deep_view(), i as int);
                    lemma_vec_deep_view_index(self.stores_map, i as int);
                    assert(self.stores_map.deep_view()[i as int].1 == self.stores_map@[i as int].1@);
                    assert(self.stores_map@[i as int].1.wf());
                }
                Some(&self.stores_map[i].1)
            },
            None => {
                proof {
                    lemma_assoc_map_absent(self.stores_map.deep_view(), name@);
                }
                None
            },
        }
    }

    /// A mutable reference to the store under `name`, if any. What the caller
    /// does to the store is reflected in the registry: see
    /// `lemma_mgr_update_view`.
    pub fn get_store_mut(&mut self, name: &str) -> (r: Option<&mut KeyValueStore>)
        requires
            old(self).wf(),
        ensures
            match r {
                Some(s) => {
                    &&& old(self)@.contains_key(name@)
                    &&& (*s)@ == old(self)@[name@]
                    &&& (*s).wf()
                    &&& mgr_update(*old(self), *final(self), name@, *final(s))
                },
                None => {
                    &&& !old(self)@.contains_key(name@)
                    &&& *final(self) == *old(self)
                    &&& final(self).wf()
                },
            },
    {
        match assoc_index_of(&self.stores_map, name) {
            Some(i) => {
                proof {
                    lemma_assoc_map_index(self.stores_map.deep_view(), i as int);
                    lemma_vec_deep_view_index(self.stores_map, i as int);
                }
                let p: &mut (String, KeyValueStore) = &mut self.stores_map[i];
                Some(&mut p.1)
            },
            None => {
                proof {
                    lemma_assoc_map_absent(self.stores_map.deep_view(), name@);
                }
                None
            },
        }
    }

    /// What a mutation through `get_store_mut` means at the registry's level:
    /// the store's new state replaces the old one under its name.
    pub proof fn lemma_mgr_update_view(
        o: RusticManager,
        f: RusticManager,
        name: Seq<char>,
        st: KeyValueStore,
    )
        requires
            o.wf(),
            mgr_update(o, f, name, st),
        ensures
            f@ == o@.insert(name, st@),
            st.wf() ==> f.wf(),
    {
        let i = choose|i: int|
            0 <= i < o.stores_map@.len() && (#[trigger] o.stores_map.deep_view()[i]).0 == name
                && f.stores_map@ == o.stores_map@.update(i, (o.stores_map@[i].0, st));
        let prevlist = o.stores_map.deep_view();
        lemma_vec_deep_view_index(o.stores_map, i);
        lemma_vec_deep_view_update(o.stores_map, f.stores_map, i, (o.stores_map@[i].0, st));
        assert forall|j: int| 0 <= j < i implies (#[trigger] prevlist[j]).0 != prevlist[i].0 by {}
        crate::assoc::lemma_assoc_insert_found(prevlist, i, st@);
        assert(f.stores_map.deep_view() =~= crate::assoc::assoc_insert(prevlist, name, st@));
        lemma_assoc_insert_distinct(prevlist, name, st@);
        lemma_assoc_map_insert(prevlist, name, st@);
        assert(f@ =~= o@.insert(name, st@));
        if st.wf() {
            assert forall|j: int| 0 <= j < f.stores_map@.len() implies (
            #[trigger] f.stores_map@[j]).1.wf() by {
                if j != i {
                    assert(f.stores_map@[j] == o.stores_map@[j]);
                }
            }
        }
    }

    /// The names of all stores, in creation order; the set of names is exactly
    /// the registry's domain.
    pub fn list_store_names(&self) -> (r: Vec<String>)
        requires
            self.wf(),
        ensures
            r.deep_view().no_duplicates(),
            forall|x: Seq<char>| #[trigger] r.deep_view().contains(x) <==> self@.contains_key(x),
    {
        let mut out: Vec<String> = Vec::new();
        let mut i: usize = 0;
        while i < self.stores_map.len()
            invariant
                self.wf(),
                i <= self.stores_map@.len(),
                out.deep_view().len() == i,
                forall|j: int|
                    0 <= j < i ==> out.deep_view()[j] == (
                    #[trigger] self.stores_map.deep_view()[j]).0,
            decreases self.stores_map@.len() - i,
        {
            let ghost prev = out;
            let x = self.stores_map[i].0.clone();
            out.push(x);
            proof {
                lemma_vec_deep_view_index(self.stores_map, i as int);
                lemma_vec_deep_view_push(prev, out, x);
            }
            i += 1;
        }
        proof {
            let list = self.stores_map.deep_view();
            assert forall|a: int, b: int|
                0 <= a < b < out.deep_view().len() implies out.deep_view()[a] != out.deep_view()[b] by {
                assert(out.deep_view()[a] == list[a].0);
                assert(out.deep_view()[b] == list[b].0);
            }
            assert forall|x: Seq<char>| #[trigger]
                out.deep_view().contains(x) implies self@.contains_key(x) by {
                let w = choose|w: int| 0 <= w < out.deep_view().len() && out.deep_view()[w] == x;
                lemma_assoc_map_index(list, w);
            }
            assert forall|x: Seq<char>| self@.contains_key(x) implies #[trigger] out.deep_view().contains(
                x,
            ) by {
                let w = choose|w: int| 0 <= w < list.len() && (#[trigger] list[w]).0 == x;
                assert(out.deep_view()[w] == x);
            }
        }
        out
    }

    /// Sweeps every store: each loses exactly the rows expired as of one clock
    /// reading taken when its own sweep starts.
    #[verifier::loop_isolation(false)]
    pub fn clear_expired_keys_in_all_stores(&mut self)
        requires
            old(self).wf(),
        ensures
            final(self).wf(),
            final(self)@.dom() == old(self)@.dom(),
            forall|k: Seq<char>| #[trigger]
                final(self)@.contains_key(k) ==> exists|now: u64|
                    final(self)@[k] == spec_sweep(old(self)@[k], now),
    {
        let ghost list0 = self.stores_map.deep_view();
        let ghost m0 = self@;
        let ghost mut sweeps: Seq<u64> = Seq::empty();
        let mut i: usize = 0;
        while i < self.stores_map.len()
            invariant
                self.wf(),
                self.stores_map@.len() == list0.len(),
                forall|j: int|
                    0 <= j < list0.len() ==> (#[trigger] self.stores_map.deep_view()[j]).0
                        == list0[j].0,
                forall|j: int|
                    i <= j < list0.len() ==> (#[trigger] self.stores_map.deep_view()[j]).1
                        == list0[j].1,
                sweeps.len() == i,
                forall|j: int|
                    0 <= j < i ==> (#[trigger] self.stores_map.deep_view()[j]).1 == spec_sweep(
                        list0[j].1,
                        sweeps[j],
                    ),
            decreases list0.len() - i,
        {
            let ghost prev = self.stores_map;
            let p: &mut (String, KeyValueStore) = &mut self.stores_map[i];
            p.1.clear_all_expired_keys();
            proof {
                let newpair = (prev@[i as int].0, self.stores_map@[i as int].1);
                assert(self.stores_map@ == prev@.update(i as int, newpair));
                lemma_vec_deep_view_update(prev, self.stores_map, i as int, newpair);
                lemma_vec_deep_view_index(prev, i as int);
                assert(self.stores_map.deep_view()[i as int].1 == self.stores_map@[i as int].1@);
                assert forall|j: int|
                    0 <= j < list0.len() implies (#[trigger] self.stores_map.deep_view()[j]).0
                    == list0[j].0 by {
                    if j != i {
                        assert(self.stores_map.deep_view()[j] == prev.deep_view()[j]);
                    }
                }
                assert forall|j: int|
                    i + 1 <= j < list0.len() implies (#[trigger] self.stores_map.deep_view()[j]).1
                    == list0[j].1 by {
                    assert(self.stores_map.deep_view()[j] == prev.deep_view()[j]);
                }
                assert(prev@[i as int].1@ == list0[i as int].1);
                let now0 = choose|now: u64|
                    self.stores_map@[i as int].1@ == spec_sweep(prev@[i as int].1@, now);
                assert(self.stores_map.deep_view()[i as int].1 == spec_sweep(
                    list0[i as int].1,
                    now0,
                ));
                sweeps = sweeps.push(now0);
                assert forall|j: int|
                    0 <= j < i + 1 implies (#[trigger] self.stores_map.deep_view()[j]).1
                    == spec_sweep(list0[j].1, sweeps[j]) by {
                    if j < i {
                        assert(self.stores_map.deep_view()[j] == prev.deep_view()[j]);
                        assert(sweeps[j] == sweeps.drop_last()[j]);
                    }
                }
                assert forall|a: int, b: int|
                    0 <= a < b < self.stores_map.deep_view().len() implies (
                #[trigger] self.stores_map.deep_view()[a]).0 != (
                #[trigger] self.stores_map.deep_view()[b]).0 by {
                    assert(self.stores_map.deep_view()[a].0 == list0[a].0);
                    assert(self.stores_map.deep_view()[b].0 == list0[b].0);
                }
                assert forall|j: int| 0 <= j < self.stores_map@.len() implies (
                #[trigger] self.stores_map@[j]).1.wf() by {
                    if j != i {
                        assert(self.stores_map@[j] == prev@[j]);
                    }
                }
            }
            i += 1;
        }
        proof {
            let listf = self.stores_map.deep_view();
            assert forall|k: Seq<char>| true implies (final(self)@.contains_key(k)
                <==> m0.contains_key(k)) by {
                if crate::assoc::assoc_contains_key(listf, k) {
                    let w = choose|w: int| 0 <= w < listf.len() && (#[trigger] listf[w]).0 == k;
                    assert(list0[w].0 == k);
                }
                if crate::assoc::assoc_contains_key(list0, k) {
                    let w = choose|w: int| 0 <= w < list0.len() && (#[trigger] list0[w]).0 == k;
                    assert(listf[w].0 == k);
                }
            }
            assert(final(self)@.dom() =~= m0.dom());
            assert forall|k: Seq<char>| #[trigger] final(self)@.contains_key(k) implies exists|
                now: u64,
            | final(self)@[k] == spec_sweep(m0[k], now) by {
                let w = choose|w: int| 0 <= w < listf.len() && (#[trigger] listf[w]).0 == k;
                lemma_assoc_map_index(listf, w);
                lemma_assoc_map_index(list0, w);
                assert(final(self)@[k] == spec_sweep(m0[k], sweeps[w]));
            }
        }
    }
}

} // verus!
