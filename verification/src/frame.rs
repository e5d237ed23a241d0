//! Zstandard frames.

use crate::text::same_text;
use std::io::Write;
use vstd::prelude::*;

verus! {

/// The compression level of every frame: the highest that Zstandard has.
pub const ZSTD_COMPRESSION_LEVEL: i32 = 22;

/// The error of the Zstandard streams.
#[verifier::external_type_specification]
#[verifier::external_body]
pub struct ExIoError(std::io::Error);

/// Why frames were not decoded.
#[derive(Debug)]
pub enum FrameError {
    /// There was no memory for the decoder's buffers.
    OutOfMemory(std::io::Error),
    /// The bytes are no frames, or damaged ones.
    Refused(std::io::Error),
}

/// The frame that the Zstandard stream encoder makes of `data`, written in one
/// piece, at `level`.
pub uninterp spec fn zstd_frame(data: Seq<u8>, level: int) -> Seq<u8>;

/// What the Zstandard stream decoder makes of `frames`, where they are whole
/// and sound.
pub uninterp spec fn zstd_content(frames: Seq<u8>) -> Option<Seq<u8>>;

/// More bytes than a frame for `n` bytes of data takes. A block of a frame holds
/// a byte of data at least and takes three bytes more than its data at most;
/// the rest is room for the frame's header, an empty last block and a checksum.
pub open spec fn frame_bound(n: nat) -> nat {
    4 * n + 64
}

/// `frame` is `data` as one frame: it is not empty, it has no more than
/// `frame_bound` bytes, and it decodes to the data.
pub open spec fn is_frame_of(frame: Seq<u8>, data: Seq<u8>) -> bool {
    &&& frame == zstd_frame(data, ZSTD_COMPRESSION_LEVEL as int)
    &&& 0 < frame.len() <= frame_bound(data.len())
    &&& zstd_content(frame) == Some(data)
}

/// `frames` is a frame that the encoder makes of some data.
pub open spec fn is_frame(frames: Seq<u8>) -> bool {
    exists|data: Seq<u8>| frames == #[trigger] zstd_frame(data, ZSTD_COMPRESSION_LEVEL as int)
}

/// The text of the error for want of memory.
pub open spec fn out_of_memory_text() -> Seq<char> {
    "Allocation error : not enough memory"@
}

/// `e` is what the encoder, run on the whole of `data` at the library's level,
/// came back with.
pub closed spec fn is_encoder_error(data: Seq<u8>, e: std::io::Error) -> bool {
    exists|whole: &[u8]|
        whole@ == data && #[trigger] call_ensures(
            zstd_compress,
            (whole, ZSTD_COMPRESSION_LEVEL),
            Err::<Vec<u8>, std::io::Error>(e),
        )
}

/// `e` with the text `text` is what the decoder, run on the whole of `frames`,
/// came back with.
pub closed spec fn is_decoder_error(
    frames: Seq<u8>,
    e: std::io::Error,
    text: Seq<char>,
) -> bool {
    exists|whole: &[u8], words: String|
        whole@ == frames && words@ == text && #[trigger] call_ensures(
            zstd_decompress,
            (whole,),
            Err::<Vec<u8>, (std::io::Error, String)>((e, words)),
        )
}

/// `e` is what the decoder, run on the whole of `frames`, came back with, and it
/// does not tell want of memory.
pub open spec fn is_refusal(frames: Seq<u8>, e: std::io::Error) -> bool {
    exists|text: Seq<char>|
        text != out_of_memory_text() && #[trigger] is_decoder_error(frames, e, text)
}

/// What decoding `frames` comes to: what they hold, or the error that the
/// decoder, run on the whole of them, came back with. Want of memory is told by
/// the text of the error; for another reason a frame that the encoder makes is
/// never refused.
pub open spec fn is_decoding(frames: Seq<u8>, r: Result<Vec<u8>, FrameError>) -> bool {
    match r {
        Ok(content) => zstd_content(frames) == Some(content@),
        Err(FrameError::OutOfMemory(e)) => is_decoder_error(frames, e, out_of_memory_text()),
        Err(FrameError::Refused(e)) => !is_frame(frames) && is_refusal(frames, e),
    }
}

/// The errors of encoding and decoding are outcomes of running the encoder, at
/// its highest level, and the decoder on the whole of what was handed in; want
/// of memory is told by the text that Zstandard has for it.
proof fn law_errors_are_outcomes(input: Seq<u8>, e: std::io::Error, text: Seq<char>)
    ensures
        is_encoder_error(input, e) ==> exists|whole: &[u8]|
            whole@ == input && #[trigger] call_ensures(
                zstd_compress,
                (whole, 22i32),
                Err::<Vec<u8>, std::io::Error>(e),
            ),
        is_decoder_error(input, e, text) ==> exists|whole: &[u8], words: String|
            whole@ == input && words@ == text && #[trigger] call_ensures(
                zstd_decompress,
                (whole,),
                Err::<Vec<u8>, (std::io::Error, String)>((e, words)),
            ),
        is_refusal(input, e) ==> exists|other: Seq<char>|
            other != "Allocation error : not enough memory"@ && #[trigger] is_decoder_error(
                input,
                e,
                other,
            ),
        out_of_memory_text() == "Allocation error : not enough memory"@,
{
}

/// A frame of the library is what Zstandard makes of the data at its highest
/// level.
pub proof fn law_frames_at_the_highest_level(frame: Seq<u8>, data: Seq<u8>)
    requires
        is_frame_of(frame, data),
    ensures
        frame == zstd_frame(data, 22),
        zstd_content(frame) == Some(data),
        is_frame(frame),
{
}

/// Decoding a frame gives the data that the frame was made of, unless the
/// decoder, run on the whole frame, told want of memory.
pub proof fn law_frame_round_trip(
    data: Seq<u8>,
    frame: Seq<u8>,
    r: Result<Vec<u8>, FrameError>,
)
    requires
        is_frame_of(frame, data),
        is_decoding(frame, r),
    ensures
        match r {
            Ok(content) => content@ == data,
            Err(FrameError::OutOfMemory(e)) => is_decoder_error(frame, e, out_of_memory_text()),
            Err(FrameError::Refused(_)) => false,
        },
{
}

/// Decoding any bytes gives what they hold, or the error that the decoder came
/// back with when it was run on the whole of them.
pub proof fn law_decoding(frames: Seq<u8>, r: Result<Vec<u8>, FrameError>)
    requires
        is_decoding(frames, r),
    ensures
        match r {
            Ok(content) => zstd_content(frames) == Some(content@),
            Err(FrameError::OutOfMemory(e)) => is_decoder_error(frames, e, out_of_memory_text()),
            Err(FrameError::Refused(e)) => is_refusal(frames, e),
        },
{
}

/// `Encoder::new`, `write_all` and `finish` of `zstd::stream::write::Encoder`,
/// into a vector. A frame is not empty (it starts with a magic number), stays
/// within `frame_bound` (a block that would grow is stored as it is), and
/// decodes to the data. The call can fail for want of memory, so nothing is
/// said of when it succeeds.
#[verifier::external_body]
fn zstd_compress(data: &[u8], level: i32) -> (r: Result<Vec<u8>, std::io::Error>)
    requires
        1 <= level <= 22,
    ensures
        r matches Ok(frame) ==> frame@ == zstd_frame(data@, level as int),
        r matches Ok(frame) ==> frame@.len() > 0,
        r matches Ok(frame) ==> frame@.len() <= frame_bound(data@.len()),
        r matches Ok(frame) ==> zstd_content(frame@) == Some(data@),
{
    let mut compressed = Vec::new();
    let mut encoder = zstd::stream::write::Encoder::new(&mut compressed, level)?;
    encoder.write_all(data)?;
    encoder.finish()?;
    Ok(compressed)
}

/// `zstd::stream::read::Decoder::new` over a slice, read to its end. An error
/// comes with its text. The call fails on damaged frames; on a frame that the
/// encoder makes it fails only where the decoder's buffers cannot be allocated,
/// and the error then has the text that Zstandard gives that failure. When that
/// happens is not said: it rests with the machine.
#[verifier::external_body]
fn zstd_decompress(frames: &[u8]) -> (r: Result<Vec<u8>, (std::io::Error, String)>)
    ensures
        r matches Ok(data) ==> zstd_content(frames@) == Some(data@),
        r matches Err(e) ==> (is_frame(frames@) ==> e.1@ == out_of_memory_text()),
{
    let mut data = Vec::new();
    let decoder = match zstd::stream::read::Decoder::new(std::io::Cursor::new(frames)) {
        Ok(decoder) => decoder,
        Err(e) => {
            let text = e.to_string();
            return Err((e, text));
        },
    };
    match std::io::copy(&mut std::io::BufReader::new(decoder), &mut data) {
        Ok(_) => Ok(data),
        Err(e) => {
            let text = e.to_string();
            Err((e, text))
        },
    }
}

/// `data` as one Zstandard frame. Whether there is memory for it rests with the
/// machine.
pub fn compress_frame(data: &[u8]) -> (r: Result<Vec<u8>, std::io::Error>)
    ensures
        r matches Ok(frame) ==> is_frame_of(frame@, data@),
        r matches Err(e) ==> is_encoder_error(data@, e),
{
    let encode = zstd_compress;
    encode(data, ZSTD_COMPRESSION_LEVEL)
}

/// What the Zstandard frames in `data` hold. Damaged frames are refused; whether
/// there is memory for sound ones rests with the machine.
pub fn decompress_frame(data: &[u8]) -> (r: Result<Vec<u8>, FrameError>)
    ensures
        is_decoding(data@, r),
{
    let decode = zstd_decompress;
    match decode(data) {
        Ok(content) => Ok(content),
        Err((e, text)) => {
            assert(is_decoder_error(data@, e, text@));
            if same_text(text.as_str(), "Allocation error : not enough memory") {
                Err(FrameError::OutOfMemory(e))
            } else {
                assert(is_refusal(data@, e));
                Err(FrameError::Refused(e))
            }
        },
    }
}

} // verus!
