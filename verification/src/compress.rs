use vstd::prelude::*;

verus! {

/// The compression level every artifact is compressed with.
const COMPRESSION_LEVEL: i32 = 3;

/// The compressed form that the outside compressor produces for a byte
/// sequence at the fixed level. Named only: nothing in this crate states
/// what the bytes are, only that they depend on the input alone and that
/// decompressing them gives the input back.
pub uninterp spec fn zstd_of(data: Seq<u8>) -> Seq<u8>;

/// Opaque holder of the outside encoder state. Verus refuses the
/// declaration of the encoder's type (its generic carries an io trait
/// bound), so the state is hidden whole behind this struct and reached
/// only through the trusted methods of `ChunkCompressor`.
#[verifier::external_body]
pub struct EncoderHolder {
    e: zstd::stream::write::Encoder<'static, Vec<u8>>,
}

#[derive(Debug)]
pub enum CompressError {
    Failed,
}

/// A streaming compressor, fed uncompressed bytes chunk by chunk and
/// handing compressed bytes out as they are produced, without holding
/// the whole stream. The ghost `fed` records the bytes handed in,
/// `taken` the compressed bytes handed out so far; once finished, the
/// bytes handed out in order are exactly the compressed form of
/// everything fed.
pub struct ChunkCompressor {
    pub inner: EncoderHolder,
    /// Uncompressed bytes fed so far.
    pub fed: Ghost<Seq<u8>>,
    /// Compressed bytes handed out so far.
    pub taken: Ghost<Seq<u8>>,
}

/// Relies on zstd Encoder::new at the fixed level: a fresh encoder into
/// an empty sink. The fixed level is always in range, so construction
/// fails only when the compressor cannot allocate its context — a
/// condition no contract can state, so success is not promised.
#[verifier::external_body]
fn new_encoder() -> (r: Result<EncoderHolder, CompressError>) {
    match zstd::stream::write::Encoder::new(Vec::new(), COMPRESSION_LEVEL) {
        Ok(e) => Ok(EncoderHolder { e }),
        Err(_) => Err(CompressError::Failed),
    }
}

impl ChunkCompressor {
    pub fn new() -> (r: Result<ChunkCompressor, CompressError>)
        ensures
            r matches Ok(c) ==> c.fed@ == Seq::<u8>::empty() && c.taken@ == Seq::<u8>::empty(),
    {
        match new_encoder() {
            Ok(inner) => Ok(
                ChunkCompressor { inner, fed: Ghost(Seq::empty()), taken: Ghost(Seq::empty()) },
            ),
            Err(e) => Err(e),
        }
    }

    /// Relies on zstd Encoder (io::Write::write_all): the final
    /// compressed stream depends on the concatenation of the bytes
    /// written, not on how they were split into writes. On failure part
    /// of the chunk may already be absorbed, so nothing is said of `fed`
    /// then and the stream must be abandoned; nothing was handed out
    /// either way.
    #[verifier::external_body]
    pub fn write(&mut self, chunk: &[u8]) -> (r: Result<(), CompressError>)
        ensures
            r is Ok ==> final(self).fed@ == old(self).fed@ + chunk@ && final(self).taken@ == old(
                self,
            ).taken@,
            r is Err ==> final(self).taken@ == old(self).taken@,
    {
        match std::io::Write::write_all(&mut self.inner.e, chunk) {
            Ok(()) => Ok(()),
            Err(_) => Err(CompressError::Failed),
        }
    }

    /// Relies on zstd Encoder::get_mut: the sink holds the compressed
    /// bytes produced so far; taking them out hands them to the caller
    /// exactly once, in order.
    #[verifier::external_body]
    pub fn take_output(&mut self) -> (r: Vec<u8>)
        ensures
            final(self).fed@ == old(self).fed@,
            final(self).taken@ == old(self).taken@ + r@,
    {
        std::mem::take(self.inner.e.get_mut())
    }

    /// Relies on zstd Encoder::finish: ending the stream flushes the
    /// rest; everything handed out, in order, is the compressed form of
    /// everything fed.
    #[verifier::external_body]
    pub fn finish(self) -> (r: Result<Vec<u8>, CompressError>)
        ensures
            r matches Ok(tail) ==> self.taken@ + tail@ == zstd_of(self.fed@),
    {
        match self.inner.e.finish() {
            Ok(sink) => Ok(sink),
            Err(_) => Err(CompressError::Failed),
        }
    }
}

/// Relies on zstd decode_all: decompressing a compressed stream gives
/// back exactly the bytes it was made from.
#[verifier::external_body]
pub fn decompress(data: &[u8]) -> (r: Result<Vec<u8>, CompressError>)
    ensures
        r is Ok ==> (forall|x: Seq<u8>| data@ == zstd_of(x) ==> r->Ok_0@ == x),
        r is Err ==> (forall|x: Seq<u8>| data@ != zstd_of(x)),
{
    match zstd::stream::decode_all(data) {
        Ok(v) => Ok(v),
        Err(_) => Err(CompressError::Failed),
    }
}

/// Compress a whole buffer in one pass.
pub fn compress(data: &[u8]) -> (r: Result<Vec<u8>, CompressError>)
    ensures
        r matches Ok(v) ==> v@ == zstd_of(data@),
{
    let mut c = match ChunkCompressor::new() {
        Ok(c) => c,
        Err(e) => {
            return Err(e);
        },
    };
    match c.write(data) {
        Ok(()) => {},
        Err(e) => {
            return Err(e);
        },
    }
    proof {
        assert(c.fed@ =~= data@);
        assert(c.taken@ =~= Seq::<u8>::empty());
    }
    match c.finish() {
        Ok(out) => {
            proof {
                assert(Seq::<u8>::empty() + out@ =~= out@);
            }
            Ok(out)
        },
        Err(e) => Err(e),
    }
}

/// The codec round trip: compressing a buffer and decompressing the
/// result reproduces the original bytes exactly.
pub fn compress_then_decompress(data: &[u8]) -> (r: Result<Vec<u8>, CompressError>)
    ensures
        r matches Ok(v) ==> v@ == data@,
{
    let packed = compress(data)?;
    decompress(packed.as_slice())
}

} // verus!
