//! What holds of a container as a whole.

use crate::chunk::{DecryptedChunk, FinishedChunk};
use vstd::prelude::*;

verus! {

/// A whole container: the preamble, a record for each chunk, and the empty
/// record.
pub open spec fn container(
    salt: Seq<u8>,
    sealed_header: Seq<u8>,
    chunks: Seq<crate::chunk::FinishedView>,
) -> Seq<u8> {
    crate::header::preamble(salt, sealed_header) + (crate::record::records(chunks)
        + crate::record::end_record())
}

/// The bytes of a container behind its preamble.
pub open spec fn behind_preamble(file: Seq<u8>, sealed_header: Seq<u8>) -> Seq<u8> {
    file.subrange(crate::header::FIXED_PREAMBLE + sealed_header.len(), file.len() as int)
}

/// A container gives back what went into it: the salt, the kind and name of
/// what is packed, and the data of every chunk in order, whatever follows the
/// container. A sealed header of more than 65535 bytes does not fit its length
/// field and is left out.
pub proof fn law_container_round_trip(
    key: Seq<u8>,
    salt: Seq<u8>,
    is_directory: bool,
    name: Seq<char>,
    sealed_header: Seq<u8>,
    raws: Seq<crate::chunk::ChunkView>,
    chunks: Seq<crate::chunk::FinishedView>,
    rest: Seq<u8>,
)
    requires
        salt.len() == crate::key::SALT_SIZE,
        crate::cipher::is_sealed(
            key,
            sealed_header,
            crate::header::header_plaintext(is_directory, vstd::utf8::encode_utf8(name)),
        ),
        sealed_header.len() <= 65535,
        chunks.len() == raws.len(),
        forall|i: int|
            0 <= i < raws.len() ==> crate::chunk::is_finished(key, #[trigger] chunks[i], raws[i]),
        forall|i: int|
            0 <= i < raws.len() ==> (#[trigger] raws[i]).data.len() <= crate::chunk::CHUNK_SIZE,
    ensures
        crate::header::parsed_preamble(container(salt, sealed_header, chunks) + rest) == Ok::<
            crate::header::PreambleView,
            crate::header::PreambleError,
        >(crate::header::PreambleView { salt, header: sealed_header }),
        crate::header::header_of(key, sealed_header) == Ok::<
            crate::header::CryptHeaderView,
            crate::header::OpenHeaderError,
        >(crate::header::CryptHeaderView { is_directory, original_name: name }),
        ({
            let s = crate::record::scan(
                behind_preamble(container(salt, sealed_header, chunks) + rest, sealed_header),
            );
            &&& !s.truncated
            &&& s.bodies.len() == raws.len()
            &&& forall|i: int|
                0 <= i < raws.len() ==> crate::chunk::chunk_content(key, #[trigger] s.bodies[i])
                    == Some(raws[i].data)
        }),
{
    let body = crate::record::records(chunks) + crate::record::end_record();
    let file = container(salt, sealed_header, chunks) + rest;
    assert(file =~= crate::header::preamble(salt, sealed_header) + (body + rest));
    crate::header::law_preamble_round_trip(salt, sealed_header, body + rest);
    let name_bytes = vstd::utf8::encode_utf8(name);
    crate::bytes::lemma_le_bytes_len(name_bytes.len(), 2);
    crate::header::law_header_round_trip(key, sealed_header, is_directory, name);
    assert(behind_preamble(file, sealed_header) =~= body + rest);
    assert forall|i: int| 0 <= i < chunks.len() implies crate::record::readable(
        #[trigger] chunks[i],
    ) by {
        assert(crate::chunk::is_finished(key, chunks[i], raws[i]));
        assert(raws[i].data.len() <= crate::chunk::CHUNK_SIZE);
    }
    crate::record::law_records_round_trip(chunks, rest);
    let s = crate::record::scan(body + rest);
    assert forall|i: int| 0 <= i < raws.len() implies crate::chunk::chunk_content(
        key,
        #[trigger] s.bodies[i],
    ) == Some(raws[i].data) by {
        assert(crate::chunk::is_finished(key, chunks[i], raws[i]));
    }
}

/// Records written on one arrival after the other are the records of all the
/// chunks that left.
pub proof fn law_records_of_arrivals(outs: Seq<Seq<FinishedChunk>>)
    ensures
        outs.map_values(
            |out: Seq<FinishedChunk>|
                crate::record::records(crate::writer::finished_views(out)),
        ).flatten() == crate::record::records(crate::writer::finished_views(outs.flatten())),
    decreases outs.len(),
{
    let write = |out: Seq<FinishedChunk>|
        crate::record::records(crate::writer::finished_views(out));
    if outs.len() == 0 {
        assert(outs.map_values(write).flatten() =~= Seq::<u8>::empty());
        assert(crate::writer::finished_views(outs.flatten()) =~= Seq::empty());
    } else {
        let front = outs.drop_last();
        let last = outs.last();
        law_records_of_arrivals(front);
        assert(outs =~= front.push(last));
        front.lemma_flatten_push(last);
        assert(outs.map_values(write) =~= front.map_values(write).push(write(last)));
        front.map_values(write).lemma_flatten_push(write(last));
        assert(crate::writer::finished_views(outs.flatten())
            =~= crate::writer::finished_views(front.flatten())
            + crate::writer::finished_views(last));
        lemma_records_concat(
            crate::writer::finished_views(front.flatten()),
            crate::writer::finished_views(last),
        );
    }
}

proof fn lemma_records_concat(
    a: Seq<crate::chunk::FinishedView>,
    b: Seq<crate::chunk::FinishedView>,
)
    ensures
        crate::record::records(a + b) == crate::record::records(a) + crate::record::records(b),
    decreases b.len(),
{
    if b.len() == 0 {
        assert(a + b =~= a);
        assert(crate::record::records(a) + crate::record::records(b) =~= crate::record::records(
            a,
        ));
    } else {
        lemma_records_concat(a, b.drop_last());
        assert((a + b).drop_last() =~= a + b.drop_last());
        assert(crate::record::records(a + b) =~= crate::record::records(a)
            + crate::record::records(b));
    }
}

/// Data written on one arrival after the other is the data of all the chunks
/// that left.
pub proof fn law_data_of_arrivals(outs: Seq<Seq<DecryptedChunk>>)
    ensures
        outs.map_values(
            |out: Seq<DecryptedChunk>| crate::writer::plain_data(out).flatten(),
        ).flatten() == crate::writer::plain_data(outs.flatten()).flatten(),
    decreases outs.len(),
{
    let write = |out: Seq<DecryptedChunk>| crate::writer::plain_data(out).flatten();
    if outs.len() == 0 {
        assert(outs.map_values(write).flatten() =~= Seq::<u8>::empty());
        assert(crate::writer::plain_data(outs.flatten()) =~= Seq::empty());
    } else {
        let front = outs.drop_last();
        let last = outs.last();
        law_data_of_arrivals(front);
        assert(outs =~= front.push(last));
        front.lemma_flatten_push(last);
        assert(outs.map_values(write) =~= front.map_values(write).push(write(last)));
        front.map_values(write).lemma_flatten_push(write(last));
        let a = crate::writer::plain_data(front.flatten());
        let b = crate::writer::plain_data(last);
        assert(crate::writer::plain_data(outs.flatten()) =~= a + b);
        lemma_flatten_concat(a, b);
    }
}

proof fn lemma_flatten_concat(a: Seq<Seq<u8>>, b: Seq<Seq<u8>>)
    ensures
        (a + b).flatten() == a.flatten() + b.flatten(),
    decreases b.len(),
{
    if b.len() == 0 {
        assert(a + b =~= a);
        assert(a.flatten() + b.flatten() =~= a.flatten());
    } else {
        let front = b.drop_last();
        lemma_flatten_concat(a, front);
        assert(b =~= front.push(b.last()));
        front.lemma_flatten_push(b.last());
        assert(a + b =~= (a + front).push(b.last()));
        (a + front).lemma_flatten_push(b.last());
        assert((a + b).flatten() =~= a.flatten() + b.flatten());
    }
}

/// What is unpacked is what was packed. A stream comes in by any reads; its
/// chunks are finished and arrive at the writer in any order; the container is
/// read, and its chunks, decrypted, arrive at the other writer in any order.
/// The data that this writer gives, put together, is the stream.
pub proof fn law_stream_round_trip(
    key: Seq<u8>,
    reads: Seq<Seq<u8>>,
    finished: Seq<FinishedChunk>,
    order: Seq<u64>,
    outs: Seq<Seq<FinishedChunk>>,
    states: Seq<crate::reorder::OrderState<FinishedChunk>>,
    rest: Seq<u8>,
    decrypted: Seq<DecryptedChunk>,
    order_back: Seq<u64>,
    outs_back: Seq<Seq<DecryptedChunk>>,
    states_back: Seq<crate::reorder::OrderState<DecryptedChunk>>,
)
    requires
        crate::chunk::reads_fit(crate::chunk::cut_start(), reads),
        ({
            let raws = crate::chunk::cut(crate::chunk::cut_start(), reads.push(Seq::empty()));
            &&& finished.len() == raws.len()
            &&& forall|i: int|
                0 <= i < raws.len() ==> crate::chunk::is_finished(
                    key,
                    (#[trigger] finished[i])@,
                    raws[i],
                )
        }),
        crate::reorder::distinct_arrivals(finished, order),
        order.len() == finished.len(),
        crate::reorder::is_run(finished, order, outs, states),
        ({
            let s = crate::record::scan(
                crate::record::records(crate::writer::finished_views(outs.flatten()))
                    + crate::record::end_record() + rest,
            );
            &&& decrypted.len() == s.bodies.len()
            &&& forall|i: int|
                0 <= i < s.bodies.len() ==> crate::chunk::chunk_content(
                    key,
                    #[trigger] s.bodies[i],
                ) == Some(decrypted[i]@.data)
        }),
        crate::reorder::distinct_arrivals(decrypted, order_back),
        order_back.len() == decrypted.len(),
        crate::reorder::is_run(decrypted, order_back, outs_back, states_back),
    ensures
        outs_back.map_values(
            |out: Seq<DecryptedChunk>| crate::writer::plain_data(out).flatten(),
        ).flatten() == reads.flatten(),
{
    let raws = crate::chunk::cut(crate::chunk::cut_start(), reads.push(Seq::empty()));
    crate::chunk::law_chunks_of_stream(reads);
    crate::chunk::law_pieces_cover_stream(reads.flatten());
    crate::reorder::law_any_arrival_order(finished, order, outs, states);
    let views = crate::writer::finished_views(finished);
    assert forall|i: int| 0 <= i < views.len() implies crate::record::readable(
        #[trigger] views[i],
    ) by {
        assert(crate::chunk::is_finished(key, finished[i]@, raws[i]));
        assert(raws[i].data == crate::chunk::data_of(raws)[i]);
        assert(raws[i].data == crate::chunk::pieces_of(reads.flatten())[i]);
    }
    crate::record::law_records_round_trip(views, rest);
    let s = crate::record::scan(
        crate::record::records(views) + crate::record::end_record() + rest,
    );
    crate::reorder::law_any_arrival_order(decrypted, order_back, outs_back, states_back);
    law_data_of_arrivals(outs_back);
    let data = crate::writer::plain_data(decrypted);
    assert forall|i: int| 0 <= i < data.len() implies data[i] == crate::chunk::data_of(
        raws,
    )[i] by {
        assert(s.bodies[i] == views[i].encrypted);
        assert(crate::chunk::is_finished(key, finished[i]@, raws[i]));
    }
    assert(data =~= crate::chunk::data_of(raws));
}

} // verus!
