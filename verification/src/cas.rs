//! The responder: the protocol semantics of the stub CAS.
//!
//! A read request is validated and split into bounded chunks; a write
//! stream is validated message by message and committed atomically; an
//! existence check filters the requested digests against the store. The
//! read-request counter moves once per read call and the write-chunk-size
//! list grows once per chunk seen, whatever the call's outcome. A negative
//! chunk-size threshold injects failures: every read fails before the
//! lookup and every structurally valid write fails after validation.

use vstd::prelude::*;

use crate::chunks::chunks_of;
use crate::chunks::lemma_chunks_of_concat;
use crate::chunks::split_chunks;
use crate::fingerprint::Digest;
use crate::fingerprint::Fingerprint;
use crate::fingerprint::fingerprint_from_hex;
use crate::parse::parse_size;
use crate::parse::parse_size_spec;
use crate::parse::split_name;
use crate::parse::splitn;
use crate::status::Status;
use crate::status::StatusCode;
use crate::store::BlobStore;
use crate::store::entries_map;

verus! {

/// One message of a write stream: the declared resource name, the declared
/// write offset, and the chunk's bytes.
#[derive(Debug)]
pub struct WriteRequest {
    pub resource_name: String,
    pub write_offset: i64,
    pub data: Vec<u8>,
}

/// One message of a streamed read response.
#[derive(Debug)]
pub struct ReadResponse {
    pub data: Vec<u8>,
}

/// The reply to a successful write: how many bytes were committed.
#[derive(Clone, Copy, Debug, PartialEq, Eq, Structural)]
pub struct WriteResponse {
    pub committed_size: i64,
}

/// The responder state: the blob map, the chunk-size configuration, and
/// the two observability counters.
pub struct StubCASResponder {
    pub chunk_size_bytes: i64,
    pub blobs: BlobStore,
    pub read_request_count: usize,
    pub write_message_sizes: Vec<usize>,
}

/// The bytes of the first `k` chunks of a write stream, in order.
pub open spec fn concat_data(reqs: Seq<WriteRequest>, k: int) -> Seq<u8>
    decreases k,
{
    if k <= 0 {
        Seq::empty()
    } else {
        concat_data(reqs, k - 1) + reqs[k - 1].data@
    }
}

/// The sizes of the first `k` chunks of a write stream, in order.
pub open spec fn chunk_sizes(reqs: Seq<WriteRequest>, k: int) -> Seq<usize>
    decreases k,
{
    if k <= 0 {
        Seq::empty()
    } else {
        chunk_sizes(reqs, k - 1).push(reqs[k - 1].data@.len() as usize)
    }
}

/// Chunk `k` is consistent with the stream so far: it repeats the first
/// chunk's resource name and lands exactly at the running byte offset.
pub open spec fn chunk_ok(reqs: Seq<WriteRequest>, k: int) -> bool {
    &&& (k > 0 ==> reqs[k].resource_name@ == reqs[0].resource_name@)
    &&& reqs[k].write_offset == concat_data(reqs, k).len()
}

/// The first index at or after `k` whose chunk is inconsistent, or the
/// stream length when all remaining chunks are consistent.
pub open spec fn first_bad_from(reqs: Seq<WriteRequest>, k: int) -> int
    decreases reqs.len() - k,
    when 0 <= k <= reqs.len()
{
    if k >= reqs.len() {
        k
    } else if !chunk_ok(reqs, k) {
        k
    } else {
        first_bad_from(reqs, k + 1)
    }
}

/// The index of the first inconsistent chunk of the stream, or the stream
/// length when every chunk is consistent.
pub open spec fn first_bad_chunk(reqs: Seq<WriteRequest>) -> int {
    first_bad_from(reqs, 0)
}

proof fn lemma_first_bad_pinned(reqs: Seq<WriteRequest>, j: int, k: int)
    requires
        0 <= j <= k <= reqs.len(),
        forall|m: int| j <= m < k ==> chunk_ok(reqs, m),
        k < reqs.len() ==> !chunk_ok(reqs, k),
    ensures
        first_bad_from(reqs, j) == k,
    decreases k - j,
{
    if j < k {
        lemma_first_bad_pinned(reqs, j + 1, k);
    }
}

proof fn lemma_first_bad_le(reqs: Seq<WriteRequest>, j: int, k: int)
    requires
        0 <= j <= k <= reqs.len(),
        k < reqs.len() ==> !chunk_ok(reqs, k),
    ensures
        first_bad_from(reqs, j) <= k,
        j <= first_bad_from(reqs, j),
        first_bad_from(reqs, j) < reqs.len() ==> !chunk_ok(reqs, first_bad_from(reqs, j)),
        forall|m: int| j <= m < first_bad_from(reqs, j) ==> chunk_ok(reqs, m),
    decreases k - j,
{
    if j < k && chunk_ok(reqs, j) {
        lemma_first_bad_le(reqs, j + 1, k);
    }
}

proof fn lemma_concat_len_mono(reqs: Seq<WriteRequest>, a: int, b: int)
    requires
        a <= b,
    ensures
        concat_data(reqs, a).len() <= concat_data(reqs, b).len(),
    decreases b - a,
{
    if a < b {
        lemma_concat_len_mono(reqs, a, b - 1);
    }
}

/// What one read returns against responder state `s`: either the blob's
/// bytes as in-order chunks of at most the configured threshold, or the
/// single terminal error that the request earns, in this order: a malformed
/// resource name, an undecodable fingerprint, injected failure, unknown
/// fingerprint.
pub open spec fn read_internal_post(
    s: StubCASResponder,
    name: Seq<char>,
    r: Result<Vec<ReadResponse>, Status>,
) -> bool {
    let parts = splitn(name, 4);
    if !(parts.len() == 4 && parts[0].len() == 0 && parts[1] == "blobs"@) {
        r matches Err(st) && st matches Status::BadReadResourceName { resource_name }
            && resource_name@ == name
    } else if fingerprint_from_hex(parts[2]) is None {
        r matches Err(st) && st matches Status::BadReadDigest { digest } && digest@ == parts[2]
    } else {
        let fp = fingerprint_from_hex(parts[2]).unwrap();
        if s.always_fails() {
            r == Err::<Vec<ReadResponse>, Status>(Status::AlwaysFailing)
        } else if !s.blobs@.contains_key(fp) {
            r == Err::<Vec<ReadResponse>, Status>(Status::DigestNotFound { fingerprint: fp })
        } else {
            r matches Ok(out) && out@.map_values(|c: ReadResponse| c.data@) == chunks_of(
                s.blobs@[fp],
                s.chunk_size_bytes as int,
            )
        }
    }
}

/// What one write call does to the responder and returns, as a function of
/// the collected message stream. Chunk consistency is checked message by
/// message, then the stream's single resource name, then the declared size;
/// injected failure comes only after all structural validation, and the
/// store changes only on full success.
pub open spec fn write_post(
    pre: StubCASResponder,
    post: StubCASResponder,
    reqs: Seq<WriteRequest>,
    r: Result<WriteResponse, Status>,
) -> bool {
    let j = first_bad_chunk(reqs);
    &&& post.chunk_size_bytes == pre.chunk_size_bytes
    &&& post.read_request_count == pre.read_request_count
    &&& post.write_message_sizes@ == pre.write_message_sizes@ + chunk_sizes(reqs, j)
    &&& if reqs.len() == 0 {
        post.blobs == pre.blobs && r == Err::<WriteResponse, Status>(Status::EmptyWriteStream)
    } else if j < reqs.len() {
        &&& post.blobs == pre.blobs
        &&& if j > 0 && reqs[j].resource_name@ != reqs[0].resource_name@ {
            r == Err::<WriteResponse, Status>(
                Status::MismatchedResourceName {
                    got: reqs[j].resource_name,
                    original: reqs[0].resource_name,
                },
            )
        } else {
            r == Err::<WriteResponse, Status>(
                Status::MissingChunk {
                    expected_offset: concat_data(reqs, j).len() as i64,
                    got_offset: reqs[j].write_offset,
                },
            )
        }
    } else {
        let name = reqs[0].resource_name@;
        let parts = splitn(name, 6);
        let data = concat_data(reqs, reqs.len() as int);
        if !(parts.len() == 6 && parts[1] == "uploads"@ && parts[3] == "blobs"@) {
            &&& post.blobs == pre.blobs
            &&& r matches Err(st) && st matches Status::BadWriteResourceName { resource_name }
                && resource_name@ == name
        } else if fingerprint_from_hex(parts[4]) is None {
            &&& post.blobs == pre.blobs
            &&& r matches Err(st) && st matches Status::BadWriteDigest { digest } && digest@
                == parts[4]
        } else if parse_size_spec(parts[5]) is None {
            &&& post.blobs == pre.blobs
            &&& r matches Err(st) && st matches Status::BadWriteSize { size_text } && size_text@
                == parts[5]
        } else if parse_size_spec(parts[5]).unwrap() != data.len() {
            &&& post.blobs == pre.blobs
            &&& r == Err::<WriteResponse, Status>(
                Status::WrongSize {
                    declared_size: parse_size_spec(parts[5]).unwrap(),
                    actual_size: data.len() as usize,
                },
            )
        } else if pre.always_fails() {
            &&& post.blobs == pre.blobs
            &&& r == Err::<WriteResponse, Status>(Status::AlwaysFailing)
        } else {
            &&& post.blobs@ == pre.blobs@.insert(fingerprint_from_hex(parts[4]).unwrap(), data)
            &&& r == Ok::<WriteResponse, Status>(
                WriteResponse { committed_size: data.len() as i64 },
            )
        }
    }
}

impl StubCASResponder {
    /// The responder is usable: the store's keys are distinct and the
    /// chunk-size threshold is negative (failure injection) or a positive
    /// value that fits a `usize`.
    pub open spec fn wf(&self) -> bool {
        &&& self.blobs.wf()
        &&& self.chunk_size_bytes != 0
        &&& (self.chunk_size_bytes > 0 ==> self.chunk_size_bytes as int <= usize::MAX as int)
    }

    /// Failure injection is active: the threshold was configured negative.
    pub open spec fn always_fails(&self) -> bool {
        self.chunk_size_bytes < 0
    }

    /// Whether failure injection is active.
    pub fn should_always_fail(&self) -> (r: bool)
        ensures
            r == self.always_fails(),
    {
        self.chunk_size_bytes < 0
    }

    /// Validates a read request and splits the blob into response chunks.
    /// The read-request counter is `read`'s business, not this function's.
    pub fn read_internal(&self, resource_name: &str) -> (r: Result<Vec<ReadResponse>, Status>)
        requires
            self.wf(),
        ensures
            read_internal_post(*self, resource_name@, r),
    {
        let _name_chars: usize = resource_name.unicode_len();
        let parts = split_name(resource_name, 4);
        if parts.len() != 4 {
            return Err(
                Status::BadReadResourceName {
                    resource_name: String::from_str(resource_name),
                },
            );
        }
        let blobs_seg = String::from_str("blobs");
        if !parts[0].as_str().is_empty() || !parts[1].eq(&blobs_seg) {
            return Err(
                Status::BadReadResourceName {
                    resource_name: String::from_str(resource_name),
                },
            );
        }
        match Fingerprint::from_hex_string(parts[2].as_str()) {
            None => Err(Status::BadReadDigest { digest: parts[2].clone() }),
            Some(fp) => {
                if self.should_always_fail() {
                    return Err(Status::AlwaysFailing);
                }
                match self.blobs.get(fp) {
                    None => Err(Status::DigestNotFound { fingerprint: fp }),
                    Some(bytes) => {
                        let chunk_size: usize = self.chunk_size_bytes as usize;
                        proof {
                            assert(chunk_size as int == self.chunk_size_bytes as int);
                        }
                        let mut raw = split_chunks(bytes, chunk_size);
                        let ghost all = raw@.map_values(|b: Vec<u8>| b@);
                        let mut out: Vec<ReadResponse> = Vec::new();
                        proof {
                            assert(out@.map_values(|c: ReadResponse| c.data@) + raw@.map_values(
                                |b: Vec<u8>| b@,
                            ) =~= all);
                        }
                        while raw.len() > 0
                            invariant
                                out@.map_values(|c: ReadResponse| c.data@) + raw@.map_values(
                                    |b: Vec<u8>| b@,
                                ) == all,
                            decreases raw@.len(),
                        {
                            let ghost out0 = out@;
                            let ghost raw0 = raw@;
                            let chunk: Vec<u8> = raw.remove(0);
                            out.push(ReadResponse { data: chunk });
                            proof {
                                assert(out@.map_values(|c: ReadResponse| c.data@) =~= out0
                                    .map_values(|c: ReadResponse| c.data@).push(raw0[0]@));
                                assert(out0.map_values(|c: ReadResponse| c.data@).push(raw0[0]@)
                                    + raw@.map_values(|b: Vec<u8>| b@) =~= out0.map_values(
                                    |c: ReadResponse| c.data@,
                                ) + raw0.map_values(|b: Vec<u8>| b@));
                            }
                        }
                        proof {
                            assert(out@.map_values(|c: ReadResponse| c.data@) + raw@.map_values(
                                |b: Vec<u8>| b@,
                            ) =~= out@.map_values(|c: ReadResponse| c.data@));
                        }
                        Ok(out)
                    },
                }
            },
        }
    }

    /// Handles one read call: the request counter moves first,
    /// unconditionally, then the request is validated and answered against
    /// the state as it was when the call arrived.
    pub fn read(&mut self, resource_name: &str) -> (r: Result<Vec<ReadResponse>, Status>)
        requires
            old(self).wf(),
            old(self).read_request_count < usize::MAX,
        ensures
            final(self).wf(),
            final(self).read_request_count == old(self).read_request_count + 1,
            final(self).blobs == old(self).blobs,
            final(self).write_message_sizes == old(self).write_message_sizes,
            final(self).chunk_size_bytes == old(self).chunk_size_bytes,
            read_internal_post(*old(self), resource_name@, r),
    {
        self.read_request_count = self.read_request_count + 1;
        let r = self.read_internal(resource_name);
        proof {
            assert(read_internal_post(*old(self), resource_name@, r));
        }
        r
    }

    /// Handles one write call over the collected message stream: chunk
    /// consistency first, message by message, then the stream's resource
    /// name and declared size, then failure injection, then the commit.
    /// Every chunk reaching the offset check leaves its size in
    /// `write_message_sizes`, whatever the call's final outcome.
    pub fn write(&mut self, reqs: &Vec<WriteRequest>) -> (r: Result<WriteResponse, Status>)
        requires
            old(self).wf(),
            concat_data(reqs@, reqs@.len() as int).len() <= usize::MAX,
            concat_data(reqs@, reqs@.len() as int).len() <= i64::MAX,
        ensures
            final(self).wf(),
            write_post(*old(self), *final(self), reqs@, r),
    {
        let n: usize = reqs.len();
        let mut buf: Vec<u8> = Vec::new();
        let mut next_offset: i64 = 0;
        let mut k: usize = 0;
        proof {
            assert(self.write_message_sizes@ =~= old(self).write_message_sizes@ + chunk_sizes(
                reqs@,
                0,
            ));
            assert(buf@ =~= concat_data(reqs@, 0));
        }
        while k < n
            invariant
                k <= n,
                n == reqs@.len(),
                self.wf(),
                self.blobs == old(self).blobs,
                self.chunk_size_bytes == old(self).chunk_size_bytes,
                self.read_request_count == old(self).read_request_count,
                self.write_message_sizes@ == old(self).write_message_sizes@ + chunk_sizes(
                    reqs@,
                    k as int,
                ),
                forall|m: int| 0 <= m < k ==> chunk_ok(reqs@, m),
                buf@ == concat_data(reqs@, k as int),
                next_offset as int == buf@.len(),
                concat_data(reqs@, n as int).len() <= usize::MAX,
                concat_data(reqs@, n as int).len() <= i64::MAX,
            decreases n - k,
        {
            if k > 0 {
                let names_match = reqs[k].resource_name.eq(&reqs[0].resource_name);
                if !names_match {
                    proof {
                        assert(!chunk_ok(reqs@, k as int));
                        lemma_first_bad_pinned(reqs@, 0, k as int);
                    }
                    return Err(
                        Status::MismatchedResourceName {
                            got: reqs[k].resource_name.clone(),
                            original: reqs[0].resource_name.clone(),
                        },
                    );
                }
            }
            let off: i64 = reqs[k].write_offset;
            if off != next_offset {
                proof {
                    assert(!chunk_ok(reqs@, k as int));
                    lemma_first_bad_pinned(reqs@, 0, k as int);
                }
                return Err(
                    Status::MissingChunk { expected_offset: next_offset, got_offset: off },
                );
            }
            let len_k: usize = reqs[k].data.len();
            self.write_message_sizes.push(len_k);
            let ghost buf0 = buf@;
            buf.extend_from_slice(reqs[k].data.as_slice());
            proof {
                assert forall|m: int| 0 <= m < buf@.len() implies buf@[m] == buf0.add(
                    reqs@[k as int].data@,
                )[m] by {
                    if m >= buf0.len() {
                        assert(cloned::<u8>(reqs@[k as int].data@[m - buf0.len()], buf@[m]));
                    }
                }
                assert(buf@ =~= buf0 + reqs@[k as int].data@);
                assert(chunk_ok(reqs@, k as int));
                assert(chunk_sizes(reqs@, k + 1) == chunk_sizes(reqs@, k as int).push(len_k));
                assert(self.write_message_sizes@ =~= old(self).write_message_sizes@ + chunk_sizes(
                    reqs@,
                    k + 1,
                ));
                lemma_concat_len_mono(reqs@, k + 1, n as int);
            }
            next_offset = next_offset + (len_k as i64);
            k = k + 1;
        }
        proof {
            lemma_first_bad_pinned(reqs@, 0, n as int);
        }
        if n == 0 {
            return Err(Status::EmptyWriteStream);
        }
        let _name_chars: usize = reqs[0].resource_name.as_str().unicode_len();
        let parts = split_name(reqs[0].resource_name.as_str(), 6);
        let uploads_seg = String::from_str("uploads");
        let blobs_seg = String::from_str("blobs");
        if parts.len() != 6 {
            return Err(
                Status::BadWriteResourceName { resource_name: reqs[0].resource_name.clone() },
            );
        }
        if !parts[1].eq(&uploads_seg) || !parts[3].eq(&blobs_seg) {
            return Err(
                Status::BadWriteResourceName { resource_name: reqs[0].resource_name.clone() },
            );
        }
        let fp = match Fingerprint::from_hex_string(parts[4].as_str()) {
            None => {
                return Err(Status::BadWriteDigest { digest: parts[4].clone() });
            },
            Some(fp) => fp,
        };
        let _size_chars: usize = parts[5].as_str().unicode_len();
        let size = match parse_size(parts[5].as_str()) {
            None => {
                return Err(Status::BadWriteSize { size_text: parts[5].clone() });
            },
            Some(size) => size,
        };
        if size != buf.len() {
            return Err(Status::WrongSize { declared_size: size, actual_size: buf.len() });
        }
        if self.should_always_fail() {
            return Err(Status::AlwaysFailing);
        }
        let committed: i64 = size as i64;
        self.blobs.insert(fp, buf);
        Ok(WriteResponse { committed_size: committed })
    }

    /// Resumable uploads are a non-goal: every status query fails with
    /// Unimplemented.
    pub fn query_write_status(&self) -> (r: Result<(), Status>)
        ensures
            r == Err::<(), Status>(Status::NotImplemented),
    {
        Err(Status::NotImplemented)
    }

    /// Returns the requested digests whose fingerprints are absent from the
    /// store, in request order, without mutating anything; under failure
    /// injection the whole call fails before the store is touched.
    pub fn find_missing_blobs(&self, digests: &Vec<Digest>) -> (r: Result<Vec<Digest>, Status>)
        requires
            self.wf(),
        ensures
            self.always_fails() ==> r == Err::<Vec<Digest>, Status>(Status::AlwaysFailing),
            !self.always_fails() ==> (r matches Ok(missing) && missing@ == digests@.filter(
                |d: Digest| !self.blobs@.contains_key(d.0),
            )),
    {
        if self.should_always_fail() {
            return Err(Status::AlwaysFailing);
        }
        let ghost absent = |d: Digest| !self.blobs@.contains_key(d.0);
        let mut missing: Vec<Digest> = Vec::new();
        let n: usize = digests.len();
        let mut i: usize = 0;
        proof {
            reveal(Seq::filter);
            assert(digests@.take(0) =~= Seq::<Digest>::empty());
            assert(missing@ =~= digests@.take(0).filter(absent));
        }
        while i < n
            invariant
                i <= n,
                n == digests@.len(),
                self.wf(),
                absent == (|d: Digest| !self.blobs@.contains_key(d.0)),
                missing@ == digests@.take(i as int).filter(absent),
            decreases n - i,
        {
            let d: Digest = digests[i];
            let present = self.blobs.contains(d.0);
            proof {
                reveal(Seq::filter);
                assert(digests@.take(i + 1).drop_last() =~= digests@.take(i as int));
                assert(digests@.take(i + 1).last() == d);
            }
            if !present {
                missing.push(d);
            }
            i = i + 1;
        }
        proof {
            assert(digests@.take(n as int) =~= digests@);
        }
        Ok(missing)
    }

    /// Batch uploads are a non-goal: every call fails with Unimplemented.
    pub fn batch_update_blobs(&self) -> (r: Result<(), Status>)
        ensures
            r == Err::<(), Status>(Status::NotImplemented),
    {
        Err(Status::NotImplemented)
    }

    /// Directory-tree listing is a non-goal: every call fails with
    /// Unimplemented.
    pub fn get_tree(&self) -> (r: Result<(), Status>)
        ensures
            r == Err::<(), Status>(Status::NotImplemented),
    {
        Err(Status::NotImplemented)
    }
}

/// The stub server: it owns the responder state. The transport host that
/// would bind a port and dispatch RPC calls onto the responder is out of
/// scope; tests call the responder directly.
pub struct StubCAS {
    pub responder: StubCASResponder,
}

impl StubCAS {
    /// A stub whose store holds exactly the given fingerprint-to-content
    /// pairs, inserted in order; the content is not checked against the
    /// fingerprints. A negative `chunk_size_bytes` makes every read and
    /// write fail; zero is not a usable threshold.
    pub fn with_unverified_content(
        chunk_size_bytes: i64,
        blobs: Vec<(Fingerprint, Vec<u8>)>,
    ) -> (r: StubCAS)
        requires
            chunk_size_bytes != 0,
            chunk_size_bytes > 0 ==> chunk_size_bytes as int <= usize::MAX as int,
        ensures
            r.responder.wf(),
            r.responder.chunk_size_bytes == chunk_size_bytes,
            r.responder.read_request_count == 0,
            r.responder.write_message_sizes@ == Seq::<usize>::empty(),
            r.responder.blobs@ == entries_map(blobs@),
    {
        StubCAS {
            responder: StubCASResponder {
                chunk_size_bytes,
                blobs: BlobStore::from_pairs(&blobs),
                read_request_count: 0,
                write_message_sizes: Vec::new(),
            },
        }
    }

    /// A stub seeded with file and directory fixtures, given as
    /// fingerprint-to-content pairs: files first, then directories.
    pub fn with_content(
        chunk_size_bytes: i64,
        files: Vec<(Fingerprint, Vec<u8>)>,
        directories: Vec<(Fingerprint, Vec<u8>)>,
    ) -> (r: StubCAS)
        requires
            chunk_size_bytes != 0,
            chunk_size_bytes > 0 ==> chunk_size_bytes as int <= usize::MAX as int,
        ensures
            r.responder.wf(),
            r.responder.chunk_size_bytes == chunk_size_bytes,
            r.responder.read_request_count == 0,
            r.responder.write_message_sizes@ == Seq::<usize>::empty(),
            r.responder.blobs@ == entries_map(files@ + directories@),
    {
        let ghost files0 = files@;
        let ghost directories0 = directories@;
        let mut all = files;
        let mut rest = directories;
        all.append(&mut rest);
        proof {
            assert(all@ == files0 + directories0);
        }
        StubCAS::with_unverified_content(chunk_size_bytes, all)
    }

    /// An empty stub with a 1024-byte chunk threshold.
    pub fn empty() -> (r: StubCAS)
        ensures
            r.responder.wf(),
            r.responder.chunk_size_bytes == 1024,
            r.responder.read_request_count == 0,
            r.responder.write_message_sizes@ == Seq::<usize>::empty(),
            r.responder.blobs@ == Map::<Fingerprint, Seq<u8>>::empty(),
    {
        StubCAS::with_unverified_content(1024, Vec::new())
    }

    /// An empty stub that fails every read and write with an internal
    /// error.
    pub fn always_errors() -> (r: StubCAS)
        ensures
            r.responder.wf(),
            r.responder.always_fails(),
            r.responder.read_request_count == 0,
            r.responder.write_message_sizes@ == Seq::<usize>::empty(),
            r.responder.blobs@ == Map::<Fingerprint, Seq<u8>>::empty(),
    {
        StubCAS::with_unverified_content(-1, Vec::new())
    }

    /// How many read calls the responder has seen, whatever their outcome.
    pub fn read_request_count(&self) -> (c: usize)
        ensures
            c == self.responder.read_request_count,
    {
        self.responder.read_request_count
    }
}

/// A blob committed by a valid write is returned intact by a subsequent
/// read of its fingerprint: the stored bytes' chunks concatenate, in order,
/// to exactly the bytes that were written.
pub proof fn lemma_write_then_read_round_trip(
    blobs: Map<Fingerprint, Seq<u8>>,
    fp: Fingerprint,
    data: Seq<u8>,
    t: int,
)
    requires
        t >= 1,
    ensures
        chunks_of(blobs.insert(fp, data)[fp], t).flatten() == data,
{
    lemma_chunks_of_concat(data, t);
}

/// A write stream with a chunk whose offset is not the running total of
/// the chunk lengths before it fails with InvalidArgument and stores
/// nothing.
pub proof fn lemma_misordered_offsets_reject(
    pre: StubCASResponder,
    post: StubCASResponder,
    reqs: Seq<WriteRequest>,
    r: Result<WriteResponse, Status>,
    k: int,
)
    requires
        write_post(pre, post, reqs, r),
        0 <= k < reqs.len(),
        reqs[k].write_offset != concat_data(reqs, k).len(),
    ensures
        post.blobs == pre.blobs,
        r matches Err(st) && st.spec_code() == StatusCode::InvalidArgument,
{
    lemma_first_bad_le(reqs, 0, k);
}

/// A write stream whose chunk `k > 0` declares a different resource name
/// than chunk 0 fails with InvalidArgument and stores nothing.
pub proof fn lemma_mismatched_resource_name_rejects(
    pre: StubCASResponder,
    post: StubCASResponder,
    reqs: Seq<WriteRequest>,
    r: Result<WriteResponse, Status>,
    k: int,
)
    requires
        write_post(pre, post, reqs, r),
        0 < k < reqs.len(),
        reqs[k].resource_name@ != reqs[0].resource_name@,
    ensures
        post.blobs == pre.blobs,
        r matches Err(st) && st.spec_code() == StatusCode::InvalidArgument,
{
    lemma_first_bad_le(reqs, 0, k);
}

/// With failure injection active, a well-formed read request fails with
/// Internal whether or not the fingerprint is in the store.
pub proof fn lemma_always_fail_read(s: StubCASResponder, name: Seq<char>, r: Result<
    Vec<ReadResponse>,
    Status,
>)
    requires
        read_internal_post(s, name, r),
        s.always_fails(),
        splitn(name, 4).len() == 4,
        splitn(name, 4)[0].len() == 0,
        splitn(name, 4)[1] == "blobs"@,
        fingerprint_from_hex(splitn(name, 4)[2]) is Some,
    ensures
        r == Err::<Vec<ReadResponse>, Status>(Status::AlwaysFailing),
{
}

/// With failure injection active, a structurally valid write stream still
/// fails with Internal, not with a validation error, and stores nothing.
pub proof fn lemma_always_fail_structurally_valid_write(
    pre: StubCASResponder,
    post: StubCASResponder,
    reqs: Seq<WriteRequest>,
    r: Result<WriteResponse, Status>,
)
    requires
        write_post(pre, post, reqs, r),
        pre.always_fails(),
        reqs.len() > 0,
        first_bad_chunk(reqs) == reqs.len(),
        splitn(reqs[0].resource_name@, 6).len() == 6,
        splitn(reqs[0].resource_name@, 6)[1] == "uploads"@,
        splitn(reqs[0].resource_name@, 6)[3] == "blobs"@,
        fingerprint_from_hex(splitn(reqs[0].resource_name@, 6)[4]) is Some,
        parse_size_spec(splitn(reqs[0].resource_name@, 6)[5]) == Some(
            concat_data(reqs, reqs.len() as int).len() as usize,
        ),
        concat_data(reqs, reqs.len() as int).len() <= usize::MAX,
    ensures
        post.blobs == pre.blobs,
        r == Err::<WriteResponse, Status>(Status::AlwaysFailing),
{
}

} // verus!
