//! Storage statistics of a collection, as the stats command reports them.
use vstd::prelude::*;

verus! {

/// Statistics of one collection.
#[derive(Clone, Debug, Default)]
pub struct StoreCollectionStats {
    pub collection: String,
    pub schema_version: u32,
    pub index: StoreColumnFamilyStats,
    pub postings: StoreColumnFamilyStats,
    pub documents: StoreColumnFamilyStats,
    pub logical: Option<StoreLogicalStats>,
}

/// Statistics of one column family of the storage engine.
#[derive(Clone, Copy, Debug, Default, PartialEq, Eq)]
pub struct StoreColumnFamilyStats {
    pub live_data_bytes: u64,
    pub sst_bytes: u64,
    pub memtable_bytes: u64,
    pub estimated_keys: u64,
}

/// Statistics read from the stored keys and values themselves.
#[derive(Clone, Debug, Default)]
pub struct StoreLogicalStats {
    pub index_key_bytes: u64,
    pub index_value_bytes: u64,
    pub document_key_bytes: u64,
    pub document_encoded_bytes: u64,
    pub document_text_bytes: u64,
    pub document_metadata_bytes: u64,
    pub document_count: u64,
    pub term_postings: StorePostingStats,
    pub time_postings: StorePostingStats,
    pub families: Vec<StoreIndexFamilyStats>,
}

/// Statistics of the postings of one kind.
#[derive(Clone, Copy, Debug, Default, PartialEq, Eq)]
pub struct StorePostingStats {
    pub fragments: u64,
    pub sparse_fragments: u64,
    pub dense_fragments: u64,
    pub encoded_bytes: u64,
    pub associations: u64,
}

/// Statistics of one index family.
#[derive(Clone, Debug, Default)]
pub struct StoreIndexFamilyStats {
    pub index: u8,
    pub name: String,
    pub keys: u64,
    pub key_bytes: u64,
    pub value_bytes: u64,
}

} // verus!
