use vstd::prelude::*;

use crate::compress::{zstd_of, ChunkCompressor, CompressError};
use crate::hashing::{sha256_of, HashState};

verus! {

/// Streams one archive through compression, computing the hash and size
/// of the uncompressed archive and of the compressed file in the same
/// single pass, without holding the artifact in memory: the caller feeds
/// archive bytes chunk by chunk, uploads the compressed bytes handed
/// back, and reads the finalized hashes only after draining the stream.
pub struct MakeNar {
    pub nar_hasher: HashState,
    pub file_hasher: HashState,
    pub compressor: ChunkCompressor,
    /// Bytes of the uncompressed archive seen so far.
    pub nar_size: u64,
    /// Bytes of the compressed file emitted so far.
    pub file_size: u64,
}

impl MakeNar {
    /// Both hashers and both counters walk the same two streams: the
    /// archive bytes into the compressor, and the compressed bytes out
    /// of it.
    pub open spec fn wf(self) -> bool {
        &&& self.nar_hasher.fed@ == self.compressor.fed@
        &&& self.nar_size as int == self.nar_hasher.fed@.len()
        &&& self.file_hasher.fed@ == self.compressor.taken@
        &&& self.file_size as int == self.file_hasher.fed@.len()
    }

    /// The uncompressed archive bytes fed so far.
    pub open spec fn nar_bytes(self) -> Seq<u8> {
        self.nar_hasher.fed@
    }

    /// The compressed bytes handed out so far.
    pub open spec fn emitted(self) -> Seq<u8> {
        self.compressor.taken@
    }

    /// Construction fails only when the outside compressor cannot
    /// allocate its context; spec-wise that is a per-path compression
    /// failure, recorded and not fatal to the run.
    pub fn new() -> (r: Result<MakeNar, CompressError>)
        ensures
            r matches Ok(m) ==> {
                &&& m.wf()
                &&& m.nar_bytes() == Seq::<u8>::empty()
                &&& m.emitted() == Seq::<u8>::empty()
            },
    {
        let compressor = match ChunkCompressor::new() {
            Ok(c) => c,
            Err(e) => {
                return Err(e);
            },
        };
        Ok(
            MakeNar {
                nar_hasher: HashState::new(),
                file_hasher: HashState::new(),
                compressor,
                nar_size: 0,
                file_size: 0,
            },
        )
    }

    /// Feed one chunk of archive bytes; returns the compressed bytes
    /// produced so far, which the caller sends downstream. Both hash
    /// states and both counters advance in step.
    pub fn compress_and_hash(&mut self, chunk: &[u8]) -> (r: Result<Vec<u8>, CompressError>)
        requires
            old(self).wf(),
            old(self).nar_size + chunk@.len() <= u64::MAX,
        ensures
            r matches Ok(out) ==> {
                &&& final(self).wf()
                &&& final(self).nar_bytes() == old(self).nar_bytes() + chunk@
                &&& final(self).emitted() == old(self).emitted() + out@
                &&& final(self).nar_size == old(self).nar_size + chunk@.len()
            },
    {
        match self.compressor.write(chunk) {
            Ok(()) => {},
            Err(e) => {
                return Err(e);
            },
        }
        self.nar_hasher.update(chunk);
        self.nar_size = self.nar_size + chunk.len() as u64;
        let out = self.compressor.take_output();
        self.file_hasher.update(out.as_slice());
        let new_file_size = match self.file_size.checked_add(out.len() as u64) {
            Some(v) => v,
            None => {
                return Err(CompressError::Failed);
            },
        };
        self.file_size = new_file_size;
        Ok(out)
    }

    /// End the stream: flush the compressor and finalize both hashes.
    /// The results describe exactly the bytes that passed through — the
    /// archive hash and size over the uncompressed stream, the file hash
    /// and size over its compressed form.
    pub fn finish(self) -> (r: Result<FinishedNar, CompressError>)
        requires
            self.wf(),
        ensures
            r matches Ok(f) ==> {
                &&& f.nar_hash@ == sha256_of(self.nar_bytes())
                &&& f.nar_hash@.len() == 32
                &&& f.file_hash@ == sha256_of(zstd_of(self.nar_bytes()))
                &&& f.file_hash@.len() == 32
                &&& f.nar_size as int == self.nar_bytes().len()
                &&& f.nar_size == self.nar_size
                &&& self.emitted() + f.tail@ == zstd_of(self.nar_bytes())
                &&& f.file_size as int == zstd_of(self.nar_bytes()).len()
            },
    {
        let MakeNar { nar_hasher, mut file_hasher, compressor, nar_size, file_size } = self;
        let tail = match compressor.finish() {
            Ok(t) => t,
            Err(e) => {
                return Err(e);
            },
        };
        file_hasher.update(tail.as_slice());
        let file_size = match file_size.checked_add(tail.len() as u64) {
            Some(v) => v,
            None => {
                return Err(CompressError::Failed);
            },
        };
        let nar_hash = nar_hasher.finalize();
        let file_hash = file_hasher.finalize();
        Ok(FinishedNar { tail, nar_hash, file_hash, nar_size, file_size })
    }
}

/// What one drained archive stream produced: the last compressed bytes
/// still to send, both digests, and both exact sizes.
pub struct FinishedNar {
    /// Compressed bytes flushed at the end of the stream, not yet sent.
    pub tail: Vec<u8>,
    /// Digest of the uncompressed archive.
    pub nar_hash: Vec<u8>,
    /// Digest of the compressed file.
    pub file_hash: Vec<u8>,
    /// Size of the uncompressed archive in bytes.
    pub nar_size: u64,
    /// Size of the compressed file in bytes.
    pub file_size: u64,
}

} // verus!
