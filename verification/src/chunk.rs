//! Chunks: how the packed stream is cut into them, and how each of them is
//! compressed and sealed, and opened and decompressed again.

use crate::cipher::{aes_decrypt, draw_nonce, seal_with_nonce, CipherError, KEY_SIZE, NONCE_SIZE};
use crate::frame::{compress_frame, decompress_frame, FrameError};
use vstd::prelude::*;
use zeroize::Zeroize;

verus! {

/// Bytes in a chunk of the packed stream; the last chunk may have fewer.
pub const CHUNK_SIZE: usize = 16777216;

/// A chunk of the packed stream.
pub struct RawChunk {
    pub index: u64,
    pub data: Vec<u8>,
}

/// A chunk that was compressed and sealed.
pub struct FinishedChunk {
    pub index: u64,
    pub compressed_len: u32,
    pub encrypted: Vec<u8>,
}

/// A sealed chunk as it was read.
pub struct EncryptedChunk {
    pub index: u64,
    pub data: Vec<u8>,
}

/// A chunk that was opened and decompressed.
pub struct DecryptedChunk {
    pub index: u64,
    pub data: Vec<u8>,
}

/// A raw, encrypted or decrypted chunk, with its data as a sequence.
pub struct ChunkView {
    pub index: u64,
    pub data: Seq<u8>,
}

/// A finished chunk, with its data as a sequence.
pub struct FinishedView {
    pub index: u64,
    pub compressed_len: u32,
    pub encrypted: Seq<u8>,
}

impl View for RawChunk {
    type V = ChunkView;

    open spec fn view(&self) -> ChunkView {
        ChunkView { index: self.index, data: self.data@ }
    }
}

impl View for EncryptedChunk {
    type V = ChunkView;

    open spec fn view(&self) -> ChunkView {
        ChunkView { index: self.index, data: self.data@ }
    }
}

impl View for DecryptedChunk {
    type V = ChunkView;

    open spec fn view(&self) -> ChunkView {
        ChunkView { index: self.index, data: self.data@ }
    }
}

impl View for FinishedChunk {
    type V = FinishedView;

    open spec fn view(&self) -> FinishedView {
        FinishedView {
            index: self.index,
            compressed_len: self.compressed_len,
            encrypted: self.encrypted@,
        }
    }
}

/// Why a chunk was not compressed and sealed.
#[derive(Debug)]
pub enum EncryptChunkError {
    /// The data could not be compressed.
    Compression(std::io::Error),
    /// The compressed data could not be sealed.
    Cipher(CipherError),
}

/// Why a chunk was not opened and decompressed.
#[derive(Debug)]
pub enum DecryptChunkError {
    /// Sealed under another key, or altered.
    DecryptionFailed,
    /// What was sealed could not be decompressed.
    Decompression(FrameError),
}

/// `Zeroize::zeroize` of a byte vector: overwrites the bytes, and leaves the
/// vector empty.
#[verifier::external_body]
pub(crate) fn wipe(bytes: &mut Vec<u8>)
    ensures
        final(bytes)@ == Seq::<u8>::empty(),
{
    bytes.zeroize();
}

// ---------------------------------------------------------------------------
// Cutting the stream
// ---------------------------------------------------------------------------
/// What is held between two reads: the bytes of the chunk that is not full
/// yet, and the index it will get.
pub struct CutState {
    pub held: Seq<u8>,
    pub next_index: nat,
}

/// The state before the first read.
pub open spec fn cut_start() -> CutState {
    CutState { held: Seq::empty(), next_index: 0 }
}

/// A read completes a chunk where it fills it, and where it is empty (the end
/// of the stream) with bytes still held.
pub open spec fn read_completes(s: CutState, read: Seq<u8>) -> bool {
    s.held.len() > 0 && read.len() == 0 || s.held.len() + read.len() >= CHUNK_SIZE
}

/// The state after a read.
pub open spec fn after_read(s: CutState, read: Seq<u8>) -> CutState {
    if read_completes(s, read) {
        CutState { held: Seq::empty(), next_index: s.next_index + 1 }
    } else {
        CutState { held: s.held + read, next_index: s.next_index }
    }
}

/// The chunks that a run of reads completes.
pub open spec fn cut(s: CutState, reads: Seq<Seq<u8>>) -> Seq<ChunkView>
    decreases reads.len(),
{
    if reads.len() == 0 {
        Seq::empty()
    } else {
        let later = cut(after_read(s, reads[0]), reads.drop_first());
        if read_completes(s, reads[0]) {
            seq![ChunkView { index: s.next_index as u64, data: s.held + reads[0] }] + later
        } else {
            later
        }
    }
}

/// Each read of the run has bytes, and no more than the chunk has room for.
pub open spec fn reads_fit(s: CutState, reads: Seq<Seq<u8>>) -> bool
    decreases reads.len(),
{
    reads.len() > 0 ==> {
        &&& 0 < reads[0].len() <= CHUNK_SIZE - s.held.len()
        &&& reads_fit(after_read(s, reads[0]), reads.drop_first())
    }
}

/// A stream in pieces of `CHUNK_SIZE` bytes, the last of which may be shorter.
pub open spec fn pieces_of(stream: Seq<u8>) -> Seq<Seq<u8>>
    decreases stream.len(),
{
    if stream.len() == 0 {
        Seq::empty()
    } else if stream.len() <= CHUNK_SIZE {
        seq![stream]
    } else {
        seq![stream.subrange(0, CHUNK_SIZE as int)] + pieces_of(
            stream.subrange(CHUNK_SIZE as int, stream.len() as int),
        )
    }
}

/// The data of chunks, one after the other.
pub open spec fn data_of(chunks: Seq<ChunkView>) -> Seq<Seq<u8>> {
    chunks.map_values(|c: ChunkView| c.data)
}

proof fn lemma_cut_from(s: CutState, reads: Seq<Seq<u8>>)
    requires
        s.held.len() < CHUNK_SIZE,
        reads_fit(s, reads),
    ensures
        data_of(cut(s, reads.push(Seq::empty()))) == pieces_of(s.held + reads.flatten()),
        forall|i: int|
            #![trigger cut(s, reads.push(Seq::empty()))[i]]
            0 <= i < cut(s, reads.push(Seq::empty())).len() ==> cut(
                s,
                reads.push(Seq::empty()),
            )[i].index == (s.next_index + i) as u64,
    decreases reads.len(),
{
    let end: Seq<u8> = Seq::empty();
    let whole = reads.push(end);
    if reads.len() == 0 {
        assert(whole.drop_first() =~= Seq::<Seq<u8>>::empty());
        assert(s.held + reads.flatten() =~= s.held) by {
            reveal(Seq::flatten);
        }
        assert(s.held + end =~= s.held);
        assert(cut(after_read(s, end), whole.drop_first()) =~= Seq::<ChunkView>::empty());
        assert(data_of(cut(s, whole)) =~= pieces_of(s.held + reads.flatten()));
    } else {
        let first = reads[0];
        let rest = reads.drop_first();
        let next = after_read(s, first);
        assert(whole.drop_first() =~= rest.push(end));
        lemma_cut_from(next, rest);
        let later = cut(next, rest.push(end));
        assert(reads.flatten() == first + rest.flatten()) by {
            reveal(Seq::flatten);
        }
        assert(s.held + reads.flatten() =~= (s.held + first) + rest.flatten());
        if read_completes(s, first) {
            let full = s.held + first;
            let stream = full + rest.flatten();
            assert(next.held + rest.flatten() =~= rest.flatten());
            assert(stream.subrange(0, CHUNK_SIZE as int) =~= full);
            assert(stream.subrange(CHUNK_SIZE as int, stream.len() as int) =~= rest.flatten());
            let head = ChunkView { index: s.next_index as u64, data: full };
            assert(cut(s, whole) == seq![head] + later);
            if rest.flatten().len() == 0 {
                assert(stream =~= full);
                assert(pieces_of(rest.flatten()) =~= Seq::<Seq<u8>>::empty());
            }
            assert(data_of(cut(s, whole)) =~= seq![full] + data_of(later));
            assert(data_of(cut(s, whole)) =~= pieces_of(stream));
        }
    }
}

/// However the reads fall, the chunks of a stream are its pieces of
/// `CHUNK_SIZE` bytes in order, numbered from zero.
pub proof fn law_chunks_of_stream(reads: Seq<Seq<u8>>)
    requires
        reads_fit(cut_start(), reads),
    ensures
        data_of(cut(cut_start(), reads.push(Seq::empty()))) == pieces_of(reads.flatten()),
        forall|i: int|
            #![trigger cut(cut_start(), reads.push(Seq::empty()))[i]]
            0 <= i < cut(cut_start(), reads.push(Seq::empty())).len() ==> cut(
                cut_start(),
                reads.push(Seq::empty()),
            )[i].index == i as u64,
{
    lemma_cut_from(cut_start(), reads);
    assert(cut_start().held + reads.flatten() =~= reads.flatten());
}

/// The pieces of a stream put together are the stream; none is empty, none is
/// longer than 16 MiB, and all but the last have that length.
pub proof fn law_pieces_cover_stream(stream: Seq<u8>)
    ensures
        pieces_of(stream).flatten() == stream,
        forall|i: int|
            #![trigger pieces_of(stream)[i]]
            0 <= i < pieces_of(stream).len() ==> 0 < pieces_of(stream)[i].len() <= CHUNK_SIZE && (i
                < pieces_of(stream).len() - 1 ==> pieces_of(stream)[i].len() == CHUNK_SIZE),
        CHUNK_SIZE == 16 * 1024 * 1024,
    decreases stream.len(),
{
    reveal(Seq::flatten);
    let parts = pieces_of(stream);
    if stream.len() == 0 {
        assert(parts.flatten() =~= stream);
    } else if stream.len() <= CHUNK_SIZE {
        assert(parts.drop_first() =~= Seq::<Seq<u8>>::empty());
        assert(parts.drop_first().flatten() =~= Seq::<u8>::empty());
        assert(parts.flatten() =~= stream);
    } else {
        let head = stream.subrange(0, CHUNK_SIZE as int);
        let tail = stream.subrange(CHUNK_SIZE as int, stream.len() as int);
        law_pieces_cover_stream(tail);
        assert(parts.drop_first() =~= pieces_of(tail));
        assert(parts.flatten() =~= head + tail);
        assert(head + tail =~= stream);
        assert forall|i: int| #![trigger pieces_of(stream)[i]] 0 <= i < parts.len() implies 0
            < parts[i].len() <= CHUNK_SIZE && (i < parts.len() - 1 ==> parts[i].len()
            == CHUNK_SIZE) by {
            if i > 0 {
                assert(parts[i] == pieces_of(tail)[i - 1]);
            }
        }
    }
}

/// What a read of the packed stream leads to.
pub enum ReadStep {
    /// The chunk has room for more.
    More,
    /// A chunk is complete.
    Chunk(RawChunk),
    /// The stream has ended, and every byte of it was handed out.
    End,
}

/// Cuts a stream into chunks, read by read.
pub struct ChunkCutter {
    held: Vec<u8>,
    next_index: u64,
}

impl View for ChunkCutter {
    type V = CutState;

    closed spec fn view(&self) -> CutState {
        CutState { held: self.held@, next_index: self.next_index as nat }
    }
}

impl ChunkCutter {
    /// A chunk is handed out as soon as it is full.
    pub open spec fn wf(&self) -> bool {
        self@.held.len() < CHUNK_SIZE
    }

    /// A cutter before the first read.
    pub fn new() -> (c: ChunkCutter)
        ensures
            c.wf(),
            c@ == cut_start(),
    {
        let c = ChunkCutter { held: Vec::with_capacity(CHUNK_SIZE), next_index: 0 };
        assert(c@.held =~= Seq::<u8>::empty());
        c
    }

    /// How many bytes the next read may have.
    pub fn wanted(&self) -> (n: usize)
        requires
            self.wf(),
        ensures
            n == CHUNK_SIZE - self@.held.len(),
    {
        CHUNK_SIZE - self.held.len()
    }

    /// Takes in what a read gave; an empty read is the end of the stream.
    pub fn on_read(&mut self, read: &[u8]) -> (step: ReadStep)
        requires
            old(self).wf(),
            read@.len() <= CHUNK_SIZE - old(self)@.held.len(),
            old(self)@.next_index < u64::MAX,
        ensures
            final(self).wf(),
            final(self)@ == after_read(old(self)@, read@),
            match step {
                ReadStep::Chunk(c) => read_completes(old(self)@, read@) && c@ == (ChunkView {
                    index: old(self)@.next_index as u64,
                    data: old(self)@.held + read@,
                }),
                ReadStep::End => read@.len() == 0 && old(self)@.held.len() == 0,
                ReadStep::More => read@.len() > 0 && !read_completes(old(self)@, read@),
            },
    {
        self.held.extend_from_slice(read);
        assert(self.held@ =~= old(self)@.held + read@);
        if self.held.len() == 0 {
            return ReadStep::End;
        }
        if read.len() > 0 && self.held.len() < CHUNK_SIZE {
            return ReadStep::More;
        }
        let data = vstd::slice::slice_to_vec(self.held.as_slice());
        wipe(&mut self.held);
        let index = self.next_index;
        self.next_index = index + 1;
        ReadStep::Chunk(RawChunk { index, data })
    }

    /// Overwrites and drops the bytes that are held, where the stream is given
    /// up.
    pub fn discard(&mut self)
        ensures
            final(self).wf(),
            final(self)@ == (CutState { held: Seq::empty(), next_index: old(self)@.next_index }),
    {
        wipe(&mut self.held);
    }
}

// ---------------------------------------------------------------------------
// Sealing and opening
// ---------------------------------------------------------------------------
/// The compressed form of a chunk's data.
pub open spec fn compressed(data: Seq<u8>) -> Seq<u8> {
    crate::frame::zstd_frame(data, crate::frame::ZSTD_COMPRESSION_LEVEL as int)
}

/// What the sealed chunk `sealed` holds under `key`: what it opens to,
/// decompressed.
pub open spec fn chunk_content(key: Seq<u8>, sealed: Seq<u8>) -> Option<Seq<u8>> {
    match crate::cipher::opened(key, sealed) {
        None => None,
        Some(frames) => crate::frame::zstd_content(frames),
    }
}

/// `f` is the chunk `raw`, compressed and then sealed under `key`. The length
/// of the compressed data is kept in 32 bits; what does not fit is cut off.
pub open spec fn is_finished(key: Seq<u8>, f: FinishedView, raw: ChunkView) -> bool {
    &&& f.index == raw.index
    &&& f.compressed_len == compressed(raw.data).len() % 0x1_0000_0000
    &&& crate::cipher::is_sealed(key, f.encrypted, compressed(raw.data))
    &&& 0 < compressed(raw.data).len() <= crate::frame::frame_bound(raw.data.len())
    &&& chunk_content(key, f.encrypted) == Some(raw.data)
}

/// What opening and decompressing `chunk` under `key` may come to: what it
/// holds; a refusal, where it does not open and nowhere else; or a failure to
/// decompress what it opens to.
pub open spec fn is_decryption(
    key: Seq<u8>,
    chunk: ChunkView,
    r: Result<DecryptedChunk, DecryptChunkError>,
) -> bool {
    match crate::cipher::opened(key, chunk.data) {
        None => r matches Err(DecryptChunkError::DecryptionFailed),
        Some(frames) => match r {
            Ok(d) => d@.index == chunk.index && crate::frame::zstd_content(frames) == Some(
                d@.data,
            ),
            Err(DecryptChunkError::DecryptionFailed) => false,
            Err(DecryptChunkError::Decompression(e)) => crate::frame::is_decoding(frames, Err(e)),
        },
    }
}

/// A finished chunk, read back under whatever index, gives the data it was made
/// of under the key it was sealed with, unless the decoder, run on the whole of
/// its frame, told want of memory.
pub proof fn law_chunk_round_trip(
    key: Seq<u8>,
    raw: ChunkView,
    finished: FinishedView,
    index: u64,
    r: Result<DecryptedChunk, DecryptChunkError>,
)
    requires
        is_finished(key, finished, raw),
        is_decryption(key, ChunkView { index, data: finished.encrypted }, r),
    ensures
        match r {
            Ok(d) => d@ == (ChunkView { index, data: raw.data }),
            Err(DecryptChunkError::DecryptionFailed) => false,
            Err(DecryptChunkError::Decompression(FrameError::Refused(_))) => false,
            Err(DecryptChunkError::Decompression(FrameError::OutOfMemory(
                e,
            ))) => crate::frame::is_decoder_error(
                crate::frame::zstd_frame(raw.data, 22),
                e,
                crate::frame::out_of_memory_text(),
            ),
        },
{
}

/// A chunk that does not open is refused as such, and no other is. One that
/// opens comes, under its own index, as what the frames in it hold, or with the
/// error that decoding them gave.
pub proof fn law_decryption(
    key: Seq<u8>,
    chunk: ChunkView,
    frames: Seq<u8>,
    r: Result<DecryptedChunk, DecryptChunkError>,
)
    requires
        is_decryption(key, chunk, r),
    ensures
        crate::cipher::opened(key, chunk.data) is None <==> (r matches Err(
            DecryptChunkError::DecryptionFailed,
        )),
        crate::cipher::opened(key, chunk.data) == Some(frames) ==> match r {
            Ok(d) => d@.index == chunk.index && crate::frame::zstd_content(frames) == Some(
                d@.data,
            ),
            Err(DecryptChunkError::DecryptionFailed) => false,
            Err(DecryptChunkError::Decompression(FrameError::OutOfMemory(
                e,
            ))) => crate::frame::is_decoder_error(frames, e, crate::frame::out_of_memory_text()),
            Err(DecryptChunkError::Decompression(FrameError::Refused(
                e,
            ))) => crate::frame::is_refusal(frames, e),
        },
{
}

/// A finished chunk has the index of the chunk, the length of its frame in 32
/// bits, and, after twelve bytes of nonce, what AES-256-GCM makes of the frame
/// under the key; the frame is what Zstandard makes of the chunk at its highest
/// level.
pub proof fn law_finished_form(key: Seq<u8>, f: FinishedView, raw: ChunkView)
    requires
        is_finished(key, f, raw),
    ensures
        f.index == raw.index,
        f.compressed_len as int == crate::frame::zstd_frame(raw.data, 22).len() % 0x1_0000_0000,
        f.encrypted.len() == 28 + crate::frame::zstd_frame(raw.data, 22).len(),
        f.encrypted.subrange(12, f.encrypted.len() as int) == crate::cipher::gcm_sealed(
            key,
            f.encrypted.subrange(0, 12),
            crate::frame::zstd_frame(raw.data, 22),
        ),
{
    crate::cipher::law_sealed_form(key, f.encrypted, compressed(raw.data));
}

/// What a sealed chunk holds is what the frames that it opens to hold.
pub proof fn law_chunk_content(key: Seq<u8>, sealed: Seq<u8>, frames: Seq<u8>)
    ensures
        crate::cipher::opened(key, sealed) is None ==> chunk_content(key, sealed) is None,
        crate::cipher::opened(key, sealed) == Some(frames) ==> chunk_content(key, sealed)
            == crate::frame::zstd_content(frames),
{
}

/// The lower 32 bits of a length.
fn low_u32(n: usize) -> (r: u32)
    ensures
        r == n as int % 0x1_0000_0000,
{
    (n as u64 % 0x1_0000_0000) as u32
}

/// Seals compressed data with the given nonce.
pub fn seal_chunk(index: u64, frame: &[u8], key: &[u8], nonce: &[u8]) -> (r: Result<
    FinishedChunk,
    CipherError,
>)
    requires
        key@.len() == KEY_SIZE,
        nonce@.len() == NONCE_SIZE,
    ensures
        r is Ok <==> frame@.len() <= crate::cipher::MAX_PLAINTEXT,
        r matches Ok(f) ==> f@ == (FinishedView {
            index,
            compressed_len: (frame@.len() % 0x1_0000_0000) as u32,
            encrypted: nonce@ + crate::cipher::gcm_sealed(key@, nonce@, frame@),
        }),
        r matches Ok(f) ==> crate::cipher::is_sealed(key@, f@.encrypted, frame@),
        r matches Ok(f) ==> crate::cipher::nonce_of(f@.encrypted) == nonce@,
        r matches Err(e) ==> e == CipherError::EncryptionFailed,
{
    match seal_with_nonce(frame, key, nonce) {
        Ok(encrypted) => Ok(
            FinishedChunk { index, compressed_len: low_u32(frame.len()), encrypted },
        ),
        Err(e) => Err(e),
    }
}

/// Compresses a chunk and seals it with a fresh random nonce. The raw data is
/// overwritten as soon as it is compressed.
pub fn encrypt_chunk(raw: RawChunk, key: &[u8]) -> (r: Result<FinishedChunk, EncryptChunkError>)
    requires
        key@.len() == KEY_SIZE,
    ensures
        r matches Ok(f) ==> is_finished(key@, f@, raw@),
        r matches Ok(f) ==> crate::cipher::is_drawn_nonce(crate::cipher::nonce_of(f@.encrypted)),
        r matches Err(EncryptChunkError::Compression(e)) ==> crate::frame::is_encoder_error(
            raw@.data,
            e,
        ),
        r matches Err(EncryptChunkError::Cipher(e)) ==> (e == CipherError::NoRandomness
            && crate::cipher::no_nonce_came()) || (e == CipherError::EncryptionFailed && compressed(
            raw@.data,
        ).len() > crate::cipher::MAX_PLAINTEXT),
        raw@.data.len() <= CHUNK_SIZE ==> !(r matches Err(EncryptChunkError::Cipher(
            CipherError::EncryptionFailed,
        ))),
{
    let index = raw.index;
    let mut data = raw.data;
    let result = compress_frame(data.as_slice());
    wipe(&mut data);
    match result {
        Err(e) => Err(EncryptChunkError::Compression(e)),
        Ok(frame) => match draw_nonce() {
            Err(e) => Err(EncryptChunkError::Cipher(e)),
            Ok(nonce) => match seal_chunk(index, frame.as_slice(), key, nonce.as_slice()) {
                Err(e) => Err(EncryptChunkError::Cipher(e)),
                Ok(finished) => Ok(finished),
            },
        },
    }
}

/// Opens a chunk and decompresses it.
pub fn decrypt_chunk(chunk: &EncryptedChunk, key: &[u8]) -> (r: Result<
    DecryptedChunk,
    DecryptChunkError,
>)
    requires
        chunk@.data.len() >= NONCE_SIZE ==> key@.len() == KEY_SIZE,
    ensures
        is_decryption(key@, chunk@, r),
        r matches Ok(d) ==> chunk_content(key@, chunk@.data) == Some(d@.data),
{
    match aes_decrypt(chunk.data.as_slice(), key) {
        Err(_) => Err(DecryptChunkError::DecryptionFailed),
        Ok(frame) => match decompress_frame(frame.as_slice()) {
            Err(e) => Err(DecryptChunkError::Decompression(e)),
            Ok(data) => Ok(DecryptedChunk { index: chunk.index, data }),
        },
    }
}

} // verus!
