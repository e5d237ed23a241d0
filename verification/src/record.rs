//! Records: a chunk in a container is the length of its compressed data in
//! four bytes, and the sealed chunk. A length of zero ends the container.

use crate::bytes::{push_le, read_le32};
use crate::chunk::{EncryptedChunk, FinishedChunk};
use vstd::prelude::*;

verus! {

/// Bytes that sealing adds: nonce and tag.
pub const SEAL_OVERHEAD: u64 = 28;

/// A record as bytes.
pub open spec fn record(f: crate::chunk::FinishedView) -> Seq<u8> {
    crate::bytes::le_bytes(f.compressed_len as nat, 4) + f.encrypted
}

/// Records as bytes, one after the other.
pub open spec fn records(chunks: Seq<crate::chunk::FinishedView>) -> Seq<u8>
    decreases chunks.len(),
{
    if chunks.len() == 0 {
        Seq::empty()
    } else {
        records(chunks.drop_last()) + record(chunks.last())
    }
}

/// The empty record that ends a container.
pub open spec fn end_record() -> Seq<u8> {
    crate::bytes::le_bytes(0, 4)
}

/// What is in a run of records: the sealed chunks up to the end, and whether
/// the last of them was cut short.
pub struct Scan {
    pub bodies: Seq<Seq<u8>>,
    pub truncated: bool,
}

/// How many bytes follow the length at the front of `s`, and none where there
/// is no whole length or where it is zero.
pub open spec fn body_len(s: Seq<u8>) -> Option<nat> {
    if s.len() < 4 {
        None
    } else {
        let n = crate::bytes::le_value(s.subrange(0, 4));
        if n == 0 {
            None
        } else {
            Some(n + SEAL_OVERHEAD as nat)
        }
    }
}

/// What is in the records at the front of `s`. They end with an empty record,
/// with the bytes, or with a length that is cut short.
pub open spec fn scan(s: Seq<u8>) -> Scan
    decreases s.len(),
{
    match body_len(s) {
        None => Scan { bodies: Seq::empty(), truncated: false },
        Some(n) => if s.len() < 4 + n {
            Scan { bodies: Seq::empty(), truncated: true }
        } else {
            let later = scan(s.subrange(4 + n as int, s.len() as int));
            Scan {
                bodies: seq![s.subrange(4, 4 + n as int)] + later.bodies,
                truncated: later.truncated,
            }
        },
    }
}

/// The chunk can be read back from its record: the length is not zero, and
/// the sealed data has the length that it tells.
pub open spec fn readable(f: crate::chunk::FinishedView) -> bool {
    f.compressed_len > 0 && f.encrypted.len() == f.compressed_len + SEAL_OVERHEAD
}

proof fn lemma_record_scans(f: crate::chunk::FinishedView, rest: Seq<u8>)
    requires
        readable(f),
    ensures
        scan(record(f) + rest) == (Scan {
            bodies: seq![f.encrypted] + scan(rest).bodies,
            truncated: scan(rest).truncated,
        }),
{
    let s = record(f) + rest;
    crate::bytes::lemma_le_bytes_len(f.compressed_len as nat, 4);
    assert(crate::bytes::le_bound(4) == 0x1_0000_0000) by {
        reveal_with_fuel(crate::bytes::le_bound, 5);
    }
    crate::bytes::law_le_round_trip(f.compressed_len as nat, 4);
    assert(s.subrange(0, 4) =~= crate::bytes::le_bytes(f.compressed_len as nat, 4));
    let n = f.encrypted.len() as int;
    assert(s.subrange(4, 4 + n) =~= f.encrypted);
    assert(s.subrange(4 + n, s.len() as int) =~= rest);
}

/// Records read back as the sealed chunks that were written, in order, and
/// reading stops at the empty record, whatever follows it.
pub proof fn law_records_round_trip(chunks: Seq<crate::chunk::FinishedView>, rest: Seq<u8>)
    requires
        forall|i: int| 0 <= i < chunks.len() ==> readable(#[trigger] chunks[i]),
    ensures
        scan(records(chunks) + end_record() + rest) == (Scan {
            bodies: chunks.map_values(|f: crate::chunk::FinishedView| f.encrypted),
            truncated: false,
        }),
{
    crate::bytes::lemma_le_bytes_len(0, 4);
    assert(crate::bytes::le_bound(4) == 0x1_0000_0000) by {
        reveal_with_fuel(crate::bytes::le_bound, 5);
    }
    crate::bytes::law_le_round_trip(0, 4);
    let tail = end_record() + rest;
    assert(tail.subrange(0, 4) =~= end_record());
    lemma_records_scan(chunks, tail);
    assert(records(chunks) + end_record() + rest =~= records(chunks) + tail);
    let bodies = chunks.map_values(|f: crate::chunk::FinishedView| f.encrypted);
    assert(bodies + scan(tail).bodies =~= bodies);
}

proof fn lemma_records_scan(chunks: Seq<crate::chunk::FinishedView>, rest: Seq<u8>)
    requires
        forall|i: int| 0 <= i < chunks.len() ==> readable(#[trigger] chunks[i]),
    ensures
        scan(records(chunks) + rest) == (Scan {
            bodies: chunks.map_values(|f: crate::chunk::FinishedView| f.encrypted) + scan(
                rest,
            ).bodies,
            truncated: scan(rest).truncated,
        }),
    decreases chunks.len(),
{
    let bodies = chunks.map_values(|f: crate::chunk::FinishedView| f.encrypted);
    if chunks.len() == 0 {
        assert(records(chunks) + rest =~= rest);
        assert(bodies + scan(rest).bodies =~= scan(rest).bodies);
    } else {
        let last = chunks.last();
        lemma_record_scans(last, rest);
        lemma_records_scan(chunks.drop_last(), record(last) + rest);
        assert(records(chunks) + rest =~= records(chunks.drop_last()) + (record(last) + rest));
        let front = chunks.drop_last().map_values(
            |f: crate::chunk::FinishedView| f.encrypted,
        );
        assert(front + (seq![last.encrypted] + scan(rest).bodies) =~= bodies + scan(rest).bodies);
    }
}

/// Where what stands in a record: the length of the compressed data in four
/// bytes, the lowest first, and the sealed chunk. The end is four zeros.
pub proof fn law_record_layout(f: crate::chunk::FinishedView)
    ensures
        record(f).len() == 4 + f.encrypted.len(),
        record(f)[0] + 256 * record(f)[1] + 65536 * record(f)[2] + 16777216 * record(f)[3]
            == f.compressed_len,
        record(f).subrange(4, 4 + f.encrypted.len() as int) == f.encrypted,
        end_record() == seq![0u8, 0u8, 0u8, 0u8],
{
    let r = record(f);
    let n = f.compressed_len as nat;
    let four = crate::bytes::le_bytes(n, 4);
    crate::bytes::lemma_le_bytes_len(n, 4);
    crate::bytes::lemma_le_bytes_len(0, 4);
    assert(crate::bytes::le_bound(4) == 0x1_0000_0000) by {
        reveal_with_fuel(crate::bytes::le_bound, 5);
    }
    crate::bytes::law_le_round_trip(n, 4);
    crate::bytes::law_le_value(four[0], four[1], four[2], four[3]);
    assert(four =~= seq![four[0], four[1], four[2], four[3]]);
    assert(r[0] == four[0] && r[1] == four[1] && r[2] == four[2] && r[3] == four[3]);
    assert(r.subrange(4, 4 + f.encrypted.len() as int) =~= f.encrypted);
    reveal_with_fuel(crate::bytes::le_bytes, 5);
    assert(end_record() =~= seq![0u8, 0u8, 0u8, 0u8]);
}

/// What is in records, whatever bytes they are: nothing where there is no whole
/// length or it is zero; nothing but a cut where fewer bytes follow than the
/// length and 28; and else that many bytes, and what is in the records behind.
pub proof fn law_what_is_scanned(s: Seq<u8>)
    ensures
        ({
            let n = s[0] + 256 * s[1] + 65536 * s[2] + 16777216 * s[3];
            &&& s.len() < 4 || n == 0 ==> scan(s).bodies.len() == 0 && !scan(s).truncated
            &&& s.len() >= 4 && n > 0 && s.len() < 4 + n + 28 ==> scan(s).bodies.len() == 0 && scan(
                s,
            ).truncated
            &&& s.len() >= 4 && n > 0 && s.len() >= 4 + n + 28 ==> ({
                let behind = scan(s.subrange(4 + n + 28, s.len() as int));
                &&& scan(s).truncated == behind.truncated
                &&& scan(s).bodies.len() == 1 + behind.bodies.len()
                &&& scan(s).bodies[0] == s.subrange(4, 4 + n + 28)
                &&& scan(s).bodies.drop_first() == behind.bodies
            })
        }),
{
    if s.len() >= 4 {
        let n = s[0] + 256 * s[1] + 65536 * s[2] + 16777216 * s[3];
        crate::bytes::law_le_value(s[0], s[1], s[2], s[3]);
        assert(s.subrange(0, 4) =~= seq![s[0], s[1], s[2], s[3]]);
        if n > 0 && s.len() >= 4 + n + 28 {
            let behind = scan(s.subrange(4 + n + 28, s.len() as int));
            assert(scan(s).bodies.drop_first() =~= behind.bodies);
        }
    }
}

/// Appends a chunk as a record.
pub fn push_record(out: &mut Vec<u8>, chunk: &FinishedChunk)
    ensures
        final(out)@ == old(out)@ + record(chunk@),
{
    push_le(out, chunk.compressed_len as u128, 4);
    out.extend_from_slice(chunk.encrypted.as_slice());
    assert(out@ =~= old(out)@ + record(chunk@));
}

/// Appends the empty record that ends a container.
pub fn push_end(out: &mut Vec<u8>)
    ensures
        final(out)@ == old(out)@ + end_record(),
{
    push_le(out, 0, 4);
}

/// What the length at the front of a record leads to.
#[derive(Debug, Clone, Copy, PartialEq, Eq, Structural)]
pub enum LengthStep {
    /// There are no more records.
    End,
    /// A sealed chunk of so many bytes follows.
    Body(u64),
}

/// What the length in `bytes` leads to; fewer than four bytes are the end of
/// the file.
pub fn read_length(bytes: &[u8]) -> (step: LengthStep)
    ensures
        match step {
            LengthStep::End => body_len(bytes@) is None,
            LengthStep::Body(n) => body_len(bytes@) == Some(n as nat),
        },
{
    if bytes.len() < 4 {
        return LengthStep::End;
    }
    let n = read_le32(bytes, 0);
    if n == 0 {
        return LengthStep::End;
    }
    LengthStep::Body(12 + n as u64 + 16)
}

/// Numbers the sealed chunks of a container as they are read.
pub struct RecordReader {
    next_index: u64,
}

impl RecordReader {
    /// How many chunks were read.
    pub closed spec fn count(&self) -> nat {
        self.next_index as nat
    }

    /// A reader before the first record.
    pub fn new() -> (r: RecordReader)
        ensures
            r.count() == 0,
    {
        RecordReader { next_index: 0 }
    }

    /// The next chunk, whose sealed data is `data`.
    pub fn on_body(&mut self, data: Vec<u8>) -> (chunk: EncryptedChunk)
        requires
            old(self).count() < u64::MAX,
        ensures
            final(self).count() == old(self).count() + 1,
            chunk@ == (crate::chunk::ChunkView { index: old(self).count() as u64, data: data@ }),
    {
        let index = self.next_index;
        self.next_index = index + 1;
        EncryptedChunk { index, data }
    }
}

/// The chunks that were read from a container.
pub struct ReadChunks {
    pub chunks: Vec<EncryptedChunk>,
    /// Whether the file ends inside a sealed chunk.
    pub truncated: bool,
}

/// Reads the records at the front of `data`.
pub fn read_records(data: &[u8]) -> (r: ReadChunks)
    ensures
        r.truncated == scan(data@).truncated,
        r.chunks@.len() == scan(data@).bodies.len(),
        forall|i: int|
            0 <= i < r.chunks@.len() ==> (#[trigger] r.chunks@[i])@ == (crate::chunk::ChunkView {
                index: i as u64,
                data: scan(data@).bodies[i],
            }),
{
    let mut reader = RecordReader::new();
    let mut chunks: Vec<EncryptedChunk> = Vec::new();
    let mut at: usize = 0;
    let ghost whole = scan(data@);
    assert(data@.subrange(0, data@.len() as int) =~= data@);
    loop
        invariant
            at <= data@.len(),
            chunks@.len() <= at,
            reader.count() == chunks@.len(),
            whole == scan(data@),
            chunks@.len() + scan(data@.subrange(at as int, data@.len() as int)).bodies.len()
                == whole.bodies.len(),
            whole.truncated == scan(data@.subrange(at as int, data@.len() as int)).truncated,
            forall|i: int|
                0 <= i < chunks@.len() ==> (#[trigger] chunks@[i])@ == (crate::chunk::ChunkView {
                    index: i as u64,
                    data: whole.bodies[i],
                }),
            forall|i: int|
                0 <= i < scan(data@.subrange(at as int, data@.len() as int)).bodies.len()
                    ==> #[trigger] whole.bodies[chunks@.len() + i] == scan(
                    data@.subrange(at as int, data@.len() as int),
                ).bodies[i],
        decreases data@.len() - at,
    {
        let rest = vstd::slice::slice_subrange(data, at, data.len());
        let ghost now = scan(rest@);
        match read_length(rest) {
            LengthStep::End => {
                return ReadChunks { chunks, truncated: false };
            },
            LengthStep::Body(n) => {
                if rest.len() as u64 - 4 < n {
                    return ReadChunks { chunks, truncated: true };
                }
                let len: usize = n as usize;
                let body = vstd::slice::slice_to_vec(
                    vstd::slice::slice_subrange(rest, 4, 4 + len),
                );
                let ghost before = chunks@;
                let ghost later = scan(rest@.subrange(4 + len as int, rest@.len() as int));
                assert(now.bodies == seq![body@] + later.bodies);
                assert(whole.bodies[before.len() + 0int] == now.bodies[0]);
                let chunk = reader.on_body(body);
                chunks.push(chunk);
                assert(rest@.subrange(4 + len as int, rest@.len() as int) =~= data@.subrange(
                    at + 4 + len,
                    data@.len() as int,
                ));
                at = at + 4 + len;
                assert forall|i: int| 0 <= i < later.bodies.len() implies #[trigger] whole.bodies[
                chunks@.len() + i] == later.bodies[i] by {
                    assert(whole.bodies[before.len() + (i + 1)] == now.bodies[i + 1]);
                }
            },
        }
    }
}

} // verus!
