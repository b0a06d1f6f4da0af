//! Verified building blocks of the Ashmaize proof-of-work miner: the
//! difficulty check, the preimage encoding and the batching of hashes for
//! the GPU back end.

pub mod hex;
pub mod mining;
pub mod metal;
