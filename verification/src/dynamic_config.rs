//! Per-collection overrides of the configuration, set while the server runs
//! and kept by collection hash.
use vstd::prelude::*;

use crate::hashing::xxhash32;
use crate::item::StoreItemPart;
use std::collections::HashMap;
use vstd::std_specs::hash::spec_hash_map_iter;
use vstd::std_specs::iter::IteratorSpec;
use vstd::string::StringSliceAdditionalSpecFns;

verus! {

broadcast use vstd::std_specs::hash::group_hash_axioms;

/// Memtable kinds of the storage engine.
#[derive(Clone, Copy, Debug, PartialEq, Eq)]
pub enum RocksDbMemtable {
    Default,
    Vector,
}

/// Overrides of the server's background tasks; `None` keeps the default.
#[derive(Clone, Copy, Debug, PartialEq, Eq)]
pub struct DynamicConfigSonic {
    pub disable_janitor_tasks: Option<bool>,
    pub disable_fst_consolidate_task: Option<bool>,
    pub disable_kv_flush_task: Option<bool>,
}

/// Overrides of the storage engine; `None` keeps the default.
#[derive(Clone, Copy, Debug, PartialEq, Eq)]
pub struct DynamicConfigRocksDb {
    pub disable_auto_compactions: Option<bool>,
    pub unordered_write: Option<bool>,
    pub memtable: Option<RocksDbMemtable>,
}

/// All overrides of one collection.
#[derive(Clone, Copy, Debug, PartialEq, Eq)]
pub struct DynamicConfig {
    pub sonic: DynamicConfigSonic,
    pub rocksdb: DynamicConfigRocksDb,
}

impl Default for DynamicConfigSonic {
    /// No override.
    fn default() -> (r: Self)
        ensures
            r.disable_janitor_tasks is None,
            r.disable_fst_consolidate_task is None,
            r.disable_kv_flush_task is None,
    {
        DynamicConfigSonic {
            disable_janitor_tasks: None,
            disable_fst_consolidate_task: None,
            disable_kv_flush_task: None,
        }
    }
}

impl Default for DynamicConfigRocksDb {
    /// No override.
    fn default() -> (r: Self)
        ensures
            r.disable_auto_compactions is None,
            r.unordered_write is None,
            r.memtable is None,
    {
        DynamicConfigRocksDb { disable_auto_compactions: None, unordered_write: None, memtable: None }
    }
}

impl Default for DynamicConfig {
    /// No override.
    fn default() -> (r: Self)
        ensures
            r.sonic.disable_janitor_tasks is None,
            r.sonic.disable_fst_consolidate_task is None,
            r.sonic.disable_kv_flush_task is None,
            r.rocksdb.disable_auto_compactions is None,
            r.rocksdb.unordered_write is None,
            r.rocksdb.memtable is None,
    {
        DynamicConfig { sonic: DynamicConfigSonic::default(), rocksdb: DynamicConfigRocksDb::default() }
    }
}

/// The overrides of every collection, by the hash of its name.
#[derive(Debug)]
pub struct DynamicConfigStore {
    map: HashMap<u32, DynamicConfig>,
}

impl View for DynamicConfigStore {
    type V = Map<u32, DynamicConfig>;

    closed spec fn view(&self) -> Map<u32, DynamicConfig> {
        self.map@
    }
}

impl DynamicConfigStore {
    /// A store without overrides.
    pub fn new() -> (r: Self)
        ensures
            r@ == Map::<u32, DynamicConfig>::empty(),
    {
        DynamicConfigStore { map: HashMap::new() }
    }

    /// Sets the overrides of a collection, replacing earlier ones.
    pub fn insert(&mut self, collection: StoreItemPart, config: DynamicConfig)
        ensures
            final(self)@ == old(self)@.insert(xxhash32(collection.spec_str().spec_bytes()), config),
    {
        let key = collection.into_compact();
        self.map.insert(key, config);
    }

    /// The overrides of a collection, if any were set.
    pub fn get(&self, collection: StoreItemPart) -> (r: Option<DynamicConfig>)
        ensures
            ({
                let key = xxhash32(collection.spec_str().spec_bytes());
                &&& r is Some <==> self@.contains_key(key)
                &&& r matches Some(c) ==> c == self@[key]
            }),
    {
        let key = collection.into_compact();
        match self.map.get(&key) {
            Some(config) => Some(*config),
            None => None,
        }
    }

    /// A read-only view of all overrides.
    pub fn read<'a>(&'a self) -> (r: DynamicConfigStoreReadGuard<'a>)
        ensures
            r@ == self@,
    {
        DynamicConfigStoreReadGuard { map: &self.map }
    }
}

/// A read-only view of all overrides.
pub struct DynamicConfigStoreReadGuard<'a> {
    map: &'a HashMap<u32, DynamicConfig>,
}

impl<'a> View for DynamicConfigStoreReadGuard<'a> {
    type V = Map<u32, DynamicConfig>;

    closed spec fn view(&self) -> Map<u32, DynamicConfig> {
        self.map@
    }
}

impl<'a> DynamicConfigStoreReadGuard<'a> {
    /// The overrides kept under a collection hash.
    pub fn get(&self, key: &u32) -> (r: Option<&'a DynamicConfig>)
        ensures
            r is Some <==> self@.contains_key(*key),
            r matches Some(c) ==> *c == self@[*key],
    {
        self.map.get(key)
    }

    /// Every collection hash with its overrides, in no stated order.
    pub fn iter(&self) -> (r: Vec<(u32, DynamicConfig)>)
        ensures
            forall|i: int| 0 <= i < r@.len() ==> self@.contains_key(#[trigger] r@[i].0) && self@[r@[i].0] == r@[i].1,
            forall|k: u32| #[trigger] self@.contains_key(k) ==> exists|i: int| 0 <= i < r@.len() && r@[i].0 == k,
            forall|i: int, j: int| 0 <= i < j < r@.len() ==> r@[i].0 != r@[j].0,
    {
        let mut out: Vec<(u32, DynamicConfig)> = Vec::new();
        let ghost m = self.map@;
        let ghost all = spec_hash_map_iter(self.map).remaining();
        for entry in it: self.map.iter()
            invariant
                m == self.map@,
                it.seq() == all,
                out@.len() == it.index(),
                forall|i: int| 0 <= i < out@.len() ==> out@[i].0 == (*all[i].0) && out@[i].1 == (*all[i].1),
        {
            out.push((*entry.0, *entry.1));
        }
        proof {
            assert forall|i: int| 0 <= i < out@.len() implies m.contains_key(#[trigger] out@[i].0)
                && m[out@[i].0] == out@[i].1 by {
                assert(m.contains_key(*all[i].0));
            }
            assert forall|k: u32| #[trigger] m.contains_key(k) implies exists|i: int| 0 <= i < out@.len() && out@[i].0 == k by {
                assert(all.contains((&k, &m[k])));
                let i = choose|i: int| 0 <= i < all.len() && all[i] == (&k, &m[k]);
                assert(out@[i].0 == k);
            }
            assert forall|i: int, j: int| 0 <= i < j < out@.len() implies out@[i].0 != out@[j].0 by {
                if out@[i].0 == out@[j].0 {
                    assert(m.contains_key(*all[i].0));
                    assert(m.contains_key(*all[j].0));
                    assert(all[i] == all[j]);
                }
            }
        }
        out
    }
}

} // verus!
