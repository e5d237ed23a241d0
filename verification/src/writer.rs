//! The two ends of the pipelines: records of finished chunks in order, and
//! the data of decrypted chunks in order.

use crate::chunk::{DecryptedChunk, FinishedChunk};
use crate::record::{push_end, push_record};
use crate::reorder::ReorderBuffer;
use vstd::prelude::*;

verus! {

/// The views of finished chunks.
pub open spec fn finished_views(chunks: Seq<FinishedChunk>) -> Seq<crate::chunk::FinishedView> {
    chunks.map_values(|c: FinishedChunk| c@)
}

/// The data of decrypted chunks.
pub open spec fn plain_data(chunks: Seq<DecryptedChunk>) -> Seq<Seq<u8>> {
    chunks.map_values(|c: DecryptedChunk| c@.data)
}

/// What is left once no more chunks will arrive.
pub struct Finish {
    /// The bytes that are still to be written.
    pub bytes: Vec<u8>,
    /// How many chunks were never written, because one before them is missing.
    pub unwritten: usize,
}

/// Appends chunks as records.
fn push_records(bytes: &mut Vec<u8>, chunks: &Vec<FinishedChunk>)
    ensures
        final(bytes)@ == old(bytes)@ + crate::record::records(finished_views(chunks@)),
{
    let mut i: usize = 0;
    let ghost all = finished_views(chunks@);
    assert(all.take(0) =~= Seq::empty());
    assert(bytes@ =~= old(bytes)@ + crate::record::records(all.take(0)));
    while i < chunks.len()
        invariant
            i <= chunks@.len(),
            all == finished_views(chunks@),
            bytes@ == old(bytes)@ + crate::record::records(all.take(i as int)),
        decreases chunks@.len() - i,
    {
        push_record(bytes, &chunks[i]);
        assert(all.take(i + 1).drop_last() =~= all.take(i as int));
        assert(all.take(i + 1).last() == chunks@[i as int]@);
        assert(bytes@ =~= old(bytes)@ + crate::record::records(all.take(i + 1)));
        i = i + 1;
    }
    assert(all.take(chunks@.len() as int) =~= all);
}

/// Appends the data of chunks.
fn push_data(bytes: &mut Vec<u8>, chunks: &Vec<DecryptedChunk>)
    ensures
        final(bytes)@ == old(bytes)@ + plain_data(chunks@).flatten(),
{
    let mut i: usize = 0;
    let ghost all = plain_data(chunks@);
    assert(all.take(0) =~= Seq::empty());
    assert(bytes@ =~= old(bytes)@ + all.take(0).flatten());
    while i < chunks.len()
        invariant
            i <= chunks@.len(),
            all == plain_data(chunks@),
            bytes@ == old(bytes)@ + all.take(i as int).flatten(),
        decreases chunks@.len() - i,
    {
        bytes.extend_from_slice(chunks[i].data.as_slice());
        proof {
            assert(all.take(i + 1) =~= all.take(i as int).push(all[i as int]));
            all.take(i as int).lemma_flatten_push(all[i as int]);
            assert(bytes@ =~= old(bytes)@ + all.take(i + 1).flatten());
        }
        i = i + 1;
    }
    assert(all.take(chunks@.len() as int) =~= all);
}

/// Writes finished chunks as records, in the order of their indices.
pub struct ContainerWriter {
    order: ReorderBuffer<FinishedChunk>,
    total_chunks: u64,
}

impl View for ContainerWriter {
    type V = crate::reorder::OrderState<FinishedChunk>;

    closed spec fn view(&self) -> Self::V {
        self.order@
    }
}

impl ContainerWriter {
    /// As many chunks were written as the index of the next one tells.
    pub closed spec fn wf(&self) -> bool {
        self.order.wf() && self.total_chunks == self.order@.next
    }

    /// A writer before the first chunk.
    pub fn new(num_workers: usize) -> (w: ContainerWriter)
        requires
            num_workers * 3 <= usize::MAX,
        ensures
            w.wf(),
            w@ == crate::reorder::order_start::<FinishedChunk>(),
    {
        ContainerWriter { order: ReorderBuffer::new(num_workers), total_chunks: 0 }
    }

    /// Takes in a chunk, and gives the records that can be written now.
    pub fn accept(&mut self, chunk: FinishedChunk) -> (bytes: Vec<u8>)
        requires
            old(self).wf(),
            chunk@.index < u64::MAX,
        ensures
            final(self).wf(),
            exists|out: Seq<FinishedChunk>| #[trigger]
                crate::reorder::accepted(old(self)@, chunk@.index, chunk, out, final(self)@)
                    && bytes@ == crate::record::records(finished_views(out)),
    {
        let out = self.order.push(chunk.index, chunk);
        self.total_chunks = self.total_chunks + out.len() as u64;
        assert(crate::reorder::accepted(old(self)@, chunk@.index, chunk, out@, self@));
        let mut bytes: Vec<u8> = Vec::new();
        push_records(&mut bytes, &out);
        assert(bytes@ =~= crate::record::records(finished_views(out@)));
        bytes
    }

    /// Ends the container: what can still be written, the empty record, and
    /// how many chunks are held back by a gap.
    pub fn finish(&mut self) -> (f: Finish)
        requires
            old(self).wf(),
        ensures
            final(self).wf(),
            final(self)@ == old(self)@,
            f.bytes@ == crate::record::end_record(),
            f.unwritten == old(self)@.pending.len(),
    {
        let out = self.order.finish();
        let mut bytes: Vec<u8> = Vec::new();
        push_records(&mut bytes, &out);
        push_end(&mut bytes);
        assert(finished_views(out@) =~= Seq::empty());
        assert(bytes@ =~= crate::record::end_record());
        Finish { bytes, unwritten: self.order.held() }
    }

    /// How many chunks were written.
    pub fn total_chunks(&self) -> (n: u64)
        requires
            self.wf(),
        ensures
            n == self@.next,
    {
        self.total_chunks
    }
}

/// Writes the data of decrypted chunks, in the order of their indices.
pub struct PlainWriter {
    order: ReorderBuffer<DecryptedChunk>,
}

impl View for PlainWriter {
    type V = crate::reorder::OrderState<DecryptedChunk>;

    closed spec fn view(&self) -> Self::V {
        self.order@
    }
}

impl PlainWriter {
    /// The chunk that is to be written next is never held.
    pub closed spec fn wf(&self) -> bool {
        self.order.wf()
    }

    /// A writer before the first chunk.
    pub fn new(num_workers: usize) -> (w: PlainWriter)
        requires
            num_workers * 3 <= usize::MAX,
        ensures
            w.wf(),
            w@ == crate::reorder::order_start::<DecryptedChunk>(),
    {
        PlainWriter { order: ReorderBuffer::new(num_workers) }
    }

    /// Takes in a chunk, and gives the data that can be written now.
    pub fn accept(&mut self, chunk: DecryptedChunk) -> (bytes: Vec<u8>)
        requires
            old(self).wf(),
            chunk@.index < u64::MAX,
        ensures
            final(self).wf(),
            exists|out: Seq<DecryptedChunk>| #[trigger]
                crate::reorder::accepted(old(self)@, chunk@.index, chunk, out, final(self)@)
                    && bytes@ == plain_data(out).flatten(),
    {
        let out = self.order.push(chunk.index, chunk);
        assert(crate::reorder::accepted(old(self)@, chunk@.index, chunk, out@, self@));
        let mut bytes: Vec<u8> = Vec::new();
        push_data(&mut bytes, &out);
        assert(bytes@ =~= plain_data(out@).flatten());
        bytes
    }

    /// Ends the data: what can still be written, which is nothing, and how many
    /// chunks are held back by a gap.
    pub fn finish(&mut self) -> (f: Finish)
        requires
            old(self).wf(),
        ensures
            final(self).wf(),
            final(self)@ == old(self)@,
            f.bytes@ == Seq::<u8>::empty(),
            f.unwritten == old(self)@.pending.len(),
    {
        let out = self.order.finish();
        let mut bytes: Vec<u8> = Vec::new();
        push_data(&mut bytes, &out);
        assert(plain_data(out@) =~= Seq::empty());
        assert(bytes@ =~= Seq::<u8>::empty());
        Finish { bytes, unwritten: self.order.held() }
    }
}

} // verus!
