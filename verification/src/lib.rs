//! A protocol-conformant stub of a content-addressable storage (CAS) service.
//!
//! The stub answers the two RPC surfaces of a CAS server against an in-memory
//! blob map: a chunked byte-transfer service (`read`, `write`) and a batch
//! existence check (`find_missing_blobs`). It validates resource names,
//! splits read responses into bounded chunks, accumulates and validates write
//! streams message by message, and can be configured to fail every call with
//! an internal error. Request counters let test callers assert on observed
//! traffic. The RPC transport itself is out of scope: callers hand in parsed
//! requests and take back a response or a tagged status.
//!
//! All shared state — the blob map and both counters — lives in one
//! structure, `StubCASResponder`, reached through `&self` or `&mut self`.
//! A host that dispatches concurrent calls puts that one structure behind
//! one exclusive lock; no method holds state across calls.

mod cas;
mod chunks;
mod fingerprint;
mod parse;
mod status;
mod store;

pub use cas::ReadResponse;
pub use cas::StubCAS;
pub use cas::StubCASResponder;
pub use cas::WriteRequest;
pub use cas::WriteResponse;
pub use cas::chunk_ok;
pub use cas::chunk_sizes;
pub use cas::concat_data;
pub use cas::first_bad_chunk;
pub use cas::first_bad_from;
pub use cas::lemma_always_fail_read;
pub use cas::lemma_always_fail_structurally_valid_write;
pub use cas::lemma_mismatched_resource_name_rejects;
pub use cas::lemma_misordered_offsets_reject;
pub use cas::lemma_write_then_read_round_trip;
pub use cas::read_internal_post;
pub use cas::write_post;
pub use chunks::chunks_of;
pub use chunks::lemma_chunks_of_concat;
pub use chunks::lemma_chunks_of_shape;
pub use chunks::split_chunks;
pub use fingerprint::Digest;
pub use fingerprint::Fingerprint;
pub use fingerprint::fingerprint_from_hex;
pub use parse::parse_size_spec;
pub use parse::splitn;
pub use status::Status;
pub use status::StatusCode;
pub use store::BlobStore;
pub use store::entries_map;
