use crypt::bytes::{push_le, read_le16, read_le32};
use crypt::chunk::{decrypt_chunk, encrypt_chunk, ChunkCutter, DecryptedChunk, FinishedChunk, RawChunk, ReadStep, CHUNK_SIZE};
use crypt::cipher::aes_encrypt;
use crypt::header::{
    build_header, data_offset, data_size, open_crypt_header, parse_crypt_header, push_header, read_preamble,
    write_crypt_header, write_crypt_header_with_nonce, OpenHeaderError, PreambleError, WriteHeaderError,
};
use crypt::record::{push_end, push_record, read_length, read_records, LengthStep, RecordReader};
use crypt::reorder::ReorderBuffer;
use crypt::writer::{ContainerWriter, PlainWriter};

const KEY: [u8; 32] = [3u8; 32];
const SALT: [u8; 32] = [4u8; 32];

fn finished(index: u64, body: u8) -> FinishedChunk {
    FinishedChunk { index, compressed_len: 1, encrypted: vec![body; 29] }
}

#[test]
fn numbers_are_little_endian() {
    let mut out = vec![9u8];
    push_le(&mut out, 0x0102_0304, 4);
    assert_eq!(out, vec![9, 4, 3, 2, 1]);
    assert_eq!(read_le32(&out, 1), 0x0102_0304);
    assert_eq!(read_le16(&out, 2), 0x0203);
    let mut cut = Vec::new();
    push_le(&mut cut, 0x1_0005, 2);
    assert_eq!(cut, vec![5, 0]);
}

#[test]
fn header_plaintext_is_exact() {
    assert_eq!(build_header(true, "ab").unwrap(), vec![b'D', 2, 0, b'a', b'b']);
    assert_eq!(build_header(false, "\u{e9}").unwrap(), vec![b'F', 2, 0, 0xc3, 0xa9]);
    assert_eq!(build_header(false, "").unwrap(), vec![b'F', 0, 0]);
    assert!(build_header(false, &"n".repeat(65535)).is_ok());
    assert_eq!(build_header(false, &"n".repeat(65536)).unwrap_err(), WriteHeaderError::NameTooLong);
}

#[test]
fn preamble_is_exact() {
    let mut out = Vec::new();
    write_crypt_header_with_nonce(&mut out, &KEY, &[1u8; 12], &SALT, true, "docs").unwrap();
    assert_eq!(&out[..6], b"CRPT\x01\x00");
    assert_eq!(&out[6..38], &SALT);
    assert_eq!(&out[38..40], &[12 + 7 + 16, 0]);
    assert_eq!(&out[40..52], &[1u8; 12]);
    assert_eq!(out.len(), 40 + 35);
    let mut header = Vec::new();
    push_header(&mut header, &build_header(true, "docs").unwrap(), &KEY, &[1u8; 12]).unwrap();
    assert_eq!(&out[38..], &header[..]);
}

#[test]
fn a_header_reads_back() {
    for (is_directory, name) in [(true, "docs"), (false, "report.pdf"), (false, ""), (true, "d\u{e9}j\u{e0}")] {
        let mut file = Vec::new();
        write_crypt_header(&mut file, &KEY, &SALT, is_directory, name).unwrap();
        file.extend_from_slice(b"what follows");
        let p = read_preamble(&file).unwrap();
        assert_eq!(p.salt, SALT);
        let h = open_crypt_header(&p.header, &KEY).unwrap();
        assert_eq!(h.is_directory, is_directory);
        assert_eq!(h.original_name, name);
        assert_eq!(data_offset(p.header.len() as u16), file.len() as u64 - 12);
    }
}

#[test]
fn a_name_that_is_too_long_leaves_the_start_written() {
    let mut out = Vec::new();
    let r = write_crypt_header(&mut out, &KEY, &SALT, false, &"n".repeat(65536));
    assert_eq!(r.unwrap_err(), WriteHeaderError::NameTooLong);
    assert_eq!(out.len(), 38);
}

#[test]
fn preamble_errors() {
    let mut file = Vec::new();
    write_crypt_header(&mut file, &KEY, &SALT, false, "n").unwrap();
    let err = |bytes: &[u8]| read_preamble(bytes).err().unwrap();
    assert_eq!(err(&[]), PreambleError::BadMagic);
    assert_eq!(err(&file[..3]), PreambleError::BadMagic);
    assert_eq!(err(b"CRPX\x01\x00"), PreambleError::BadMagic);
    assert_eq!(err(&file[..4]), PreambleError::MissingVersion);
    assert_eq!(err(&file[..5]), PreambleError::MissingVersion);
    assert_eq!(err(b"CRPT\x00\x00"), PreambleError::UnsupportedVersion(0));
    assert_eq!(err(b"CRPT\x02\x00"), PreambleError::UnsupportedVersion(2));
    assert_eq!(err(b"CRPT\x01\x01"), PreambleError::UnsupportedVersion(257));
    assert_eq!(err(&file[..6]), PreambleError::MissingSalt);
    assert_eq!(err(&file[..37]), PreambleError::MissingSalt);
    assert_eq!(err(&file[..38]), PreambleError::MissingHeader);
    assert_eq!(err(&file[..39]), PreambleError::MissingHeader);
    assert_eq!(err(&file[..40]), PreambleError::MissingHeaderData);
    assert_eq!(err(&file[..file.len() - 1]), PreambleError::MissingHeaderData);
    assert!(read_preamble(&file).is_ok());
}

#[test]
fn header_errors() {
    let seal = |plain: &[u8]| aes_encrypt(plain, &KEY).unwrap();
    assert_eq!(open_crypt_header(&seal(b"F\x01\x00n"), &[0u8; 32]).err(), Some(OpenHeaderError::DecryptionFailed));
    assert_eq!(open_crypt_header(&[], &KEY).err(), Some(OpenHeaderError::DecryptionFailed));
    assert_eq!(open_crypt_header(&seal(b"F\x00"), &KEY).err(), Some(OpenHeaderError::TooShort));
    assert_eq!(open_crypt_header(&seal(b"F\x02\x00n"), &KEY).err(), Some(OpenHeaderError::NameOverrun));
    let h = open_crypt_header(&seal(b"X\x01\x00nmore"), &KEY).unwrap();
    assert!(!h.is_directory);
    assert_eq!(h.original_name, "n");
}

#[test]
fn a_name_that_is_not_utf8_is_read_with_replacements() {
    let h = parse_crypt_header(b"D\x03\x00a\xffb").unwrap();
    assert!(h.is_directory);
    assert_eq!(h.original_name, "a\u{fffd}b");
}

#[test]
fn sizes_behind_the_preamble() {
    assert_eq!(data_offset(35), 75);
    assert_eq!(data_size(100, 35), 25);
    assert_eq!(data_size(75, 35), 0);
    assert_eq!(data_size(10, 35), 0);
}

#[test]
fn a_stream_is_cut_into_chunks() {
    let mut cutter = ChunkCutter::new();
    assert_eq!(cutter.wanted(), CHUNK_SIZE);
    assert!(matches!(cutter.on_read(&vec![1u8; CHUNK_SIZE - 1]), ReadStep::More));
    assert_eq!(cutter.wanted(), 1);
    match cutter.on_read(&[2u8]) {
        ReadStep::Chunk(c) => {
            assert_eq!(c.index, 0);
            assert_eq!(c.data.len(), CHUNK_SIZE);
            assert_eq!(c.data[CHUNK_SIZE - 2..], [1, 2]);
        }
        _ => panic!("the chunk is full"),
    }
    assert!(matches!(cutter.on_read(&[3u8, 4]), ReadStep::More));
    match cutter.on_read(&[]) {
        ReadStep::Chunk(c) => {
            assert_eq!(c.index, 1);
            assert_eq!(c.data, vec![3, 4]);
        }
        _ => panic!("bytes were held"),
    }
    assert!(matches!(cutter.on_read(&[]), ReadStep::End));
}

#[test]
fn a_stream_that_is_given_up_leaves_nothing_held() {
    let mut cutter = ChunkCutter::new();
    assert!(matches!(cutter.on_read(&[1u8, 2]), ReadStep::More));
    cutter.discard();
    assert_eq!(cutter.wanted(), CHUNK_SIZE);
    assert!(matches!(cutter.on_read(&[]), ReadStep::End));
}

#[test]
fn records_read_back() {
    let mut out = Vec::new();
    push_record(&mut out, &finished(0, 7));
    assert_eq!(&out[..4], &[1, 0, 0, 0]);
    assert_eq!(out.len(), 33);
    push_record(&mut out, &finished(1, 8));
    push_end(&mut out);
    assert_eq!(&out[66..], &[0, 0, 0, 0]);
    out.extend_from_slice(b"what follows");
    let r = read_records(&out);
    assert!(!r.truncated);
    assert_eq!(r.chunks.len(), 2);
    assert_eq!(r.chunks[0].index, 0);
    assert_eq!(r.chunks[0].data, vec![7u8; 29]);
    assert_eq!(r.chunks[1].index, 1);
    assert_eq!(r.chunks[1].data, vec![8u8; 29]);
}

#[test]
fn records_may_end_with_the_file() {
    let mut out = Vec::new();
    push_record(&mut out, &finished(0, 7));
    assert_eq!(read_records(&out).chunks.len(), 1);
    out.extend_from_slice(&[1, 0, 0]);
    let r = read_records(&out);
    assert_eq!(r.chunks.len(), 1);
    assert!(!r.truncated);
    out.push(0);
    out.extend_from_slice(&[5u8; 28]);
    let r = read_records(&out);
    assert_eq!(r.chunks.len(), 1);
    assert!(r.truncated);
}

#[test]
fn a_length_tells_what_follows() {
    assert_eq!(read_length(&[]), LengthStep::End);
    assert_eq!(read_length(&[1, 0, 0]), LengthStep::End);
    assert_eq!(read_length(&[0, 0, 0, 0]), LengthStep::End);
    assert_eq!(read_length(&[1, 0, 0, 0]), LengthStep::Body(29));
    assert_eq!(read_length(&[0xff, 0xff, 0xff, 0xff]), LengthStep::Body(0xffff_ffff + 28));
    let mut reader = RecordReader::new();
    assert_eq!(reader.on_body(vec![1]).index, 0);
    assert_eq!(reader.on_body(vec![2]).index, 1);
}

#[test]
fn items_leave_in_order() {
    let mut b: ReorderBuffer<&str> = ReorderBuffer::new(1);
    assert!(b.push(2, "two").is_empty());
    assert!(b.push(1, "one").is_empty());
    assert!(b.push(4, "four").is_empty());
    assert!(b.push(5, "five").is_empty());
    assert_eq!(b.push(0, "zero"), vec!["zero", "one", "two"]);
    assert_eq!(b.held(), 2);
    assert!(b.finish().is_empty());
    assert_eq!(b.held(), 2);
    assert_eq!(b.push(3, "three"), vec!["three", "four", "five"]);
    assert_eq!(b.held(), 0);
}

#[test]
fn a_container_is_written_in_order() {
    let mut w = ContainerWriter::new(2);
    assert!(w.accept(finished(1, 8)).is_empty());
    let mut expected = Vec::new();
    push_record(&mut expected, &finished(0, 7));
    push_record(&mut expected, &finished(1, 8));
    assert_eq!(w.accept(finished(0, 7)), expected);
    assert_eq!(w.total_chunks(), 2);
    assert!(w.accept(finished(3, 9)).is_empty());
    let f = w.finish();
    assert_eq!(f.bytes, vec![0, 0, 0, 0]);
    assert_eq!(f.unwritten, 1);
    assert_eq!(w.total_chunks(), 2);
}

#[test]
fn plain_data_is_written_in_order() {
    let mut w = PlainWriter::new(1);
    assert!(w.accept(DecryptedChunk { index: 1, data: vec![3, 4] }).is_empty());
    assert_eq!(w.accept(DecryptedChunk { index: 0, data: vec![1, 2] }), vec![1, 2, 3, 4]);
    assert!(w.accept(DecryptedChunk { index: 3, data: vec![7] }).is_empty());
    let f = w.finish();
    assert!(f.bytes.is_empty());
    assert_eq!(f.unwritten, 1);
}

#[test]
fn a_container_gives_back_what_went_into_it() {
    let parts: [&[u8]; 3] = [b"first part, ", b"second part, ", b"third part"];
    let mut file = Vec::new();
    write_crypt_header(&mut file, &KEY, &SALT, true, "parts").unwrap();
    let mut w = ContainerWriter::new(1);
    for index in [2u64, 0, 1] {
        let raw = RawChunk { index, data: parts[index as usize].to_vec() };
        file.extend(w.accept(encrypt_chunk(raw, &KEY).unwrap()));
    }
    file.extend(w.finish().bytes);

    let p = read_preamble(&file).unwrap();
    let h = open_crypt_header(&p.header, &KEY).unwrap();
    assert_eq!(h.original_name, "parts");
    let at = data_offset(p.header.len() as u16) as usize;
    let r = read_records(&file[at..]);
    assert!(!r.truncated);
    let mut plain = PlainWriter::new(1);
    let mut stream = Vec::new();
    for chunk in r.chunks.iter().rev() {
        stream.extend(plain.accept(decrypt_chunk(chunk, &KEY).unwrap()));
    }
    assert_eq!(stream, b"first part, second part, third part".to_vec());
    assert_eq!(plain.finish().unwritten, 0);
}
