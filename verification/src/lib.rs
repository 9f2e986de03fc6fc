//! Block filters for light clients of a CKB node, with their store writes.
//!
//! The library holds the decisions of the two filter protocols (bloom filters
//! set by peers, and golomb-coded-set filters served per block), the batching
//! of filtered blocks, the golomb-coded-set filter content of a block, and the
//! column/key/value writes that a store transaction makes for a block.
pub mod types;
pub mod hash;
pub mod bloom;
pub mod filter;
pub mod gcs;
pub mod gcs_filter;
pub mod store;
pub mod size;
pub mod specs;
