//! What the node-level checks of the filter protocols send and which reply
//! they wait for.
use vstd::prelude::*;
use crate::types::{Byte32, Block, CellOutput, byte32_eq};
use crate::filter::FilterMessage;
use crate::gcs_filter::GcsFilterMessage;
use crate::gcs::{
    gcs_filter_match, gcs_filter_readable, gcs_readable, gcs_match_any_of, block_filter_of, block_elements, GCS_FILTER_M,
    GCS_FILTER_P,
};

verus! {

/// The number of hash functions the `SetFilter` check announces.
pub const SET_FILTER_NUM_HASHES: u8 = 10;

/// The check that a peer which set a filter holding the script hash of the
/// node's lock gets a `FilteredBlock` for the next block.
pub struct SetFilter;

impl SetFilter {
    pub fn name(&self) -> (r: &'static str)
        ensures
            r@ == "set_filter"@,
    {
        "set_filter"
    }

    /// The `SetFilter` message for a filter with these buckets and seed.
    pub fn request(&self, hash_seed: u32, filter: Vec<u8>) -> (r: FilterMessage)
        ensures
            r matches FilterMessage::SetFilter { hash_seed: s, filter: f, num_hashes: k }
                && s == hash_seed && f@ == filter@ && k == SET_FILTER_NUM_HASHES,
    {
        FilterMessage::SetFilter { hash_seed, filter, num_hashes: SET_FILTER_NUM_HASHES }
    }

    /// Whether the reply is the one waited for: a `FilteredBlock`.
    pub fn accepts(&self, reply: &FilterMessage) -> (r: bool)
        ensures
            r == (*reply is FilteredBlock),
    {
        match reply {
            FilterMessage::FilteredBlock(_) => true,
            _ => false,
        }
    }
}

/// The check that asking for the filter hashes from block 1 to the last
/// block gets them, with the genesis block as parent.
pub struct GetGcsFilterHashes;

impl GetGcsFilterHashes {
    pub fn name(&self) -> (r: &'static str)
        ensures
            r@ == "get_gcs_filter_hashes"@,
    {
        "get_gcs_filter_hashes"
    }

    /// The request: filter hashes from block 1 up to the block `stop_hash`.
    pub fn request(&self, stop_hash: Byte32) -> (r: GcsFilterMessage)
        ensures
            r == (GcsFilterMessage::GetGcsFilterHashes { start_number: 1, stop_hash }),
    {
        GcsFilterMessage::GetGcsFilterHashes { start_number: 1, stop_hash }
    }

    /// Whether the reply is the one waited for: filter hashes that stop at
    /// `stop_hash` and start after the genesis block.
    pub fn accepts(&self, reply: &GcsFilterMessage, stop_hash: &Byte32, genesis_hash: &Byte32) -> (r: bool)
        ensures
            r == (reply matches GcsFilterMessage::GcsFilterHashes { stop_hash: s, parent_hash: p, .. }
                && s@ == stop_hash@ && p@ == genesis_hash@),
    {
        match reply {
            GcsFilterMessage::GcsFilterHashes { stop_hash: s, parent_hash: p, .. } =>
                byte32_eq(s, stop_hash) && byte32_eq(p, genesis_hash),
            _ => false,
        }
    }
}

/// The check that asking for the filters from block 0 to the last block
/// gets the filter of the last block, and that it holds the script hash of
/// the node's lock.
pub struct GetGcsFilters;

impl GetGcsFilters {
    pub fn name(&self) -> (r: &'static str)
        ensures
            r@ == "get_gcs_filters"@,
    {
        "get_gcs_filters"
    }

    /// The request: filters from block 0 up to the block `stop_hash`.
    pub fn request(&self, stop_hash: Byte32) -> (r: GcsFilterMessage)
        ensures
            r == (GcsFilterMessage::GetGcsFilters { start_number: 0, stop_hash }),
    {
        GcsFilterMessage::GetGcsFilters { start_number: 0, stop_hash }
    }

    /// Whether `accepts` can read the reply.
    pub fn readable(&self, reply: &GcsFilterMessage, block_hash: &Byte32) -> (r: bool)
        ensures
            r == filter_readable(*reply, *block_hash),
    {
        match reply {
            GcsFilterMessage::GcsFilter { block_hash: h, filter } => {
                if byte32_eq(h, block_hash) {
                    gcs_filter_readable(filter.as_slice())
                } else {
                    true
                }
            },
            _ => true,
        }
    }

    /// Whether the reply is the one waited for (see `match_filter`).
    pub fn accepts(&self, reply: &GcsFilterMessage, block_hash: &Byte32, script_hash: &Byte32) -> (r: bool)
        requires
            filter_readable(*reply, *block_hash),
        ensures
            r == filter_matches(*reply, *block_hash, *script_hash),
            forall|block: Block, prev: Seq<Vec<Option<CellOutput>>>|
                #[trigger] filter_of_block(*reply, *block_hash, block, prev)
                    && block_elements(block.transactions@, prev, block.transactions@.len() as int).contains(script_hash@)
                    ==> r,
    {
        match_filter(reply, block_hash, script_hash)
    }
}

/// A `GcsFilter` reply for `block_hash` can be read (`gcs_readable`).
pub open spec fn filter_readable(message: GcsFilterMessage, block_hash: Byte32) -> bool {
    match message {
        GcsFilterMessage::GcsFilter { block_hash: h, filter } => h@ == block_hash@ ==> gcs_readable(filter@),
        _ => true,
    }
}

/// The message is the filter of block `block_hash` and holds `script_hash`.
pub open spec fn filter_matches(message: GcsFilterMessage, block_hash: Byte32, script_hash: Byte32) -> bool {
    message matches GcsFilterMessage::GcsFilter { block_hash: h, filter } && h@ == block_hash@
        && gcs_match_any_of(filter@, seq![script_hash@], GCS_FILTER_M, GCS_FILTER_P)
}

/// The message is the `GcsFilter` of block `block_hash`, and its filter is
/// the one written for `block` (whose inputs spend the cells `prev`, as far
/// as the store knew them), with no more elements than the writer takes.
pub open spec fn filter_of_block(message: GcsFilterMessage, block_hash: Byte32, block: Block, prev: Seq<Vec<Option<CellOutput>>>) -> bool {
    message matches GcsFilterMessage::GcsFilter { block_hash: h, filter } && h@ == block_hash@
        && filter@ == block_filter_of(block, prev)
        && block_elements(block.transactions@, prev, block.transactions@.len() as int).len() * GCS_FILTER_M <= u64::MAX
}

/// Whether the message is the filter of block `block_hash` and holds
/// `script_hash`. The filter of a block answers yes for every script hash
/// the block put into it.
pub fn match_filter(message: &GcsFilterMessage, block_hash: &Byte32, script_hash: &Byte32) -> (r: bool)
    requires
        filter_readable(*message, *block_hash),
    ensures
        r == filter_matches(*message, *block_hash, *script_hash),
        forall|block: Block, prev: Seq<Vec<Option<CellOutput>>>|
            #[trigger] filter_of_block(*message, *block_hash, block, prev)
                && block_elements(block.transactions@, prev, block.transactions@.len() as int).contains(script_hash@)
                ==> r,
{
    match message {
        GcsFilterMessage::GcsFilter { block_hash: h, filter } => {
            if byte32_eq(h, block_hash) {
                let mut queries: Vec<Byte32> = Vec::new();
                queries.push(*script_hash);
                let r = gcs_filter_match(filter.as_slice(), &queries);
                assert(queries@.map_values(|q: Byte32| q@) =~= seq![script_hash@]);
                assert forall|block: Block, prev: Seq<Vec<Option<CellOutput>>>|
                    #[trigger] filter_of_block(*message, *block_hash, block, prev)
                        && block_elements(block.transactions@, prev, block.transactions@.len() as int).contains(script_hash@)
                        implies r by {
                    assert(queries@[0]@ == script_hash@);
                    assert(filter@ == block_filter_of(block, prev));
                }
                r
            } else {
                false
            }
        },
        _ => false,
    }
}

} // verus!
