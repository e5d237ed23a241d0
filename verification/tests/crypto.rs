use crypt::chunk::{decrypt_chunk, encrypt_chunk, seal_chunk, DecryptChunkError, EncryptedChunk, RawChunk};
use crypt::cipher::{aes_decrypt, aes_encrypt, seal_with_nonce, CipherError};
use crypt::frame::{compress_frame, decompress_frame, FrameError, ZSTD_COMPRESSION_LEVEL};
use crypt::key::{argon2_settings, build_argon2, derive_key_with, make_salt, Argon2Settings, KeyError};

#[test]
fn seals_the_known_empty_message() {
    let sealed = seal_with_nonce(&[], &[0u8; 32], &[0u8; 12]).unwrap();
    let mut expected = vec![0u8; 12];
    expected.extend_from_slice(&[
        0x53, 0x0f, 0x8a, 0xfb, 0xc7, 0x45, 0x36, 0xb9, 0xa9, 0x63, 0xb4, 0xf1, 0xc4, 0xcb, 0x73, 0x8b,
    ]);
    assert_eq!(sealed, expected);
}

#[test]
fn seals_the_known_zero_block() {
    let sealed = seal_with_nonce(&[0u8; 16], &[0u8; 32], &[0u8; 12]).unwrap();
    assert_eq!(
        &sealed[12..],
        &[
            0xce, 0xa7, 0x40, 0x3d, 0x4d, 0x60, 0x6b, 0x6e, 0x07, 0x4e, 0xc5, 0xd3, 0xba, 0xf3, 0x9d, 0x18,
            0xd0, 0xd1, 0xc8, 0xa7, 0x99, 0x99, 0x6b, 0xf0, 0x26, 0x5b, 0x98, 0xb5, 0xd4, 0x8a, 0xb9, 0x19,
        ]
    );
}

#[test]
fn opening_gives_back_what_was_sealed() {
    let key = [7u8; 32];
    let sealed = aes_encrypt(b"a message", &key).unwrap();
    assert_eq!(sealed.len(), 12 + 9 + 16);
    assert_eq!(aes_decrypt(&sealed, &key).unwrap(), b"a message".to_vec());
}

#[test]
fn two_seals_have_two_nonces() {
    let key = [7u8; 32];
    let a = aes_encrypt(b"same", &key).unwrap();
    let b = aes_encrypt(b"same", &key).unwrap();
    assert_ne!(a[..12], b[..12]);
    assert_ne!(a, b);
}

#[test]
fn opening_fails_under_another_key() {
    let sealed = aes_encrypt(b"a message", &[7u8; 32]).unwrap();
    assert_eq!(aes_decrypt(&sealed, &[8u8; 32]).unwrap_err(), CipherError::DecryptionFailed);
}

#[test]
fn opening_fails_on_altered_bytes() {
    let key = [7u8; 32];
    let sealed = aes_encrypt(b"a message", &key).unwrap();
    for i in 0..sealed.len() {
        let mut altered = sealed.clone();
        altered[i] ^= 1;
        assert_eq!(aes_decrypt(&altered, &key).unwrap_err(), CipherError::DecryptionFailed);
    }
}

#[test]
fn opening_fails_on_too_few_bytes() {
    let key = [7u8; 32];
    for n in 0..28 {
        assert_eq!(aes_decrypt(&vec![0u8; n], &key).unwrap_err(), CipherError::DecryptionFailed);
    }
    assert_eq!(aes_decrypt(&[0u8; 11], &[]).unwrap_err(), CipherError::DecryptionFailed);
}

#[test]
fn settings_follow_the_processors() {
    let one = Argon2Settings { mem_cost: 262144, time_cost: 12, lanes: 1 };
    assert_eq!(argon2_settings(0).unwrap(), one);
    assert_eq!(argon2_settings(1).unwrap(), one);
    assert_eq!(argon2_settings(8).unwrap().lanes, 8);
    assert_eq!(argon2_settings(32768).unwrap().lanes, 32768);
    assert_eq!(argon2_settings(32769).unwrap_err(), KeyError::InvalidSettings);
    assert_eq!(argon2_settings(0x1_0000_0000).unwrap_err(), KeyError::InvalidSettings);
}

#[test]
fn settings_of_this_machine() {
    let settings = build_argon2().unwrap();
    assert_eq!(settings.lanes as usize, num_cpus::get().max(1));
    assert_eq!(settings.mem_cost, 262144);
    assert_eq!(settings.time_cost, 12);
}

#[test]
fn derives_what_argon2id_derives() {
    let settings = Argon2Settings { mem_cost: 64, time_cost: 3, lanes: 2 };
    let salt = [5u8; 32];
    let key = derive_key_with(&settings, "correct horse", &salt).unwrap();
    let params = argon2::Params::new(64, 3, 2, None).unwrap();
    let context = argon2::Argon2::new(argon2::Algorithm::Argon2id, argon2::Version::V0x13, params);
    let mut expected = [0u8; 32];
    context.hash_password_into(b"correct horse", &salt, &mut expected).unwrap();
    assert_eq!(key, expected);
    assert_ne!(key, derive_key_with(&settings, "correct horsf", &salt).unwrap());
    assert_ne!(key, derive_key_with(&settings, "correct horse", &[6u8; 32]).unwrap());
}

#[test]
fn refuses_settings_that_argon2_does_not_take() {
    let salt = [5u8; 32];
    let refused = [
        Argon2Settings { mem_cost: 64, time_cost: 0, lanes: 2 },
        Argon2Settings { mem_cost: 64, time_cost: 3, lanes: 0 },
        Argon2Settings { mem_cost: 64, time_cost: 3, lanes: 9 },
        Argon2Settings { mem_cost: u32::MAX, time_cost: 3, lanes: 0x100_0000 },
    ];
    for settings in refused {
        assert_eq!(derive_key_with(&settings, "p", &salt).unwrap_err(), KeyError::InvalidSettings);
    }
}

#[test]
fn salts_differ() {
    assert_ne!(make_salt().unwrap(), make_salt().unwrap());
}

#[test]
fn frames_give_back_their_data() {
    let data: Vec<u8> = (0..100_000u32).map(|i| (i % 251) as u8).collect();
    let frame = compress_frame(&data).unwrap();
    assert!(frame.len() < data.len());
    assert_eq!(frame[..4], [0x28, 0xb5, 0x2f, 0xfd]);
    assert_eq!(decompress_frame(&frame).unwrap(), data);
}

#[test]
fn what_opens_is_sealed_from_what_comes_out() {
    let key = [7u8; 32];
    let sealed = aes_encrypt(b"a message", &key).unwrap();
    let plain = aes_decrypt(&sealed, &key).unwrap();
    assert_eq!(seal_with_nonce(&plain, &key, &sealed[..12]).unwrap(), sealed);
}

#[test]
fn frames_stay_within_their_bound() {
    let mut state = 1u64;
    for n in [0usize, 1, 2, 100, 200_000] {
        let mut data = Vec::new();
        for _ in 0..n {
            state = state.wrapping_mul(6364136223846793005).wrapping_add(1442695040888963407);
            data.push((state >> 56) as u8);
        }
        assert!(compress_frame(&data).unwrap().len() <= 4 * n + 64);
        assert!(compress_frame(&vec![0u8; n]).unwrap().len() <= 4 * n + 64);
    }
}

#[test]
fn frames_of_nothing_are_not_empty() {
    let frame = compress_frame(&[]).unwrap();
    assert!(!frame.is_empty());
    assert_eq!(decompress_frame(&frame).unwrap(), Vec::<u8>::new());
}

#[test]
fn compresses_at_the_maximum_level() {
    assert_eq!(ZSTD_COMPRESSION_LEVEL, *zstd::compression_level_range().end());
}

#[test]
fn damaged_frames_are_refused() {
    let frame = compress_frame(b"some data that is compressed").unwrap();
    let cut = decompress_frame(&frame[..frame.len() - 1]);
    assert!(matches!(cut, Err(FrameError::Refused(_))));
    assert!(matches!(decompress_frame(b"no frame at all"), Err(FrameError::Refused(_))));
}

#[test]
fn want_of_memory_has_its_text() {
    let memory_allocation = 0usize.wrapping_sub(64);
    assert_eq!(
        zstd::zstd_safe::get_error_name(memory_allocation),
        "Allocation error : not enough memory"
    );
}

#[test]
fn chunks_give_back_their_data() {
    let key = [9u8; 32];
    let finished = encrypt_chunk(RawChunk { index: 3, data: b"chunk data".to_vec() }, &key).unwrap();
    assert_eq!(finished.index, 3);
    assert_eq!(finished.encrypted.len(), finished.compressed_len as usize + 28);
    let back = decrypt_chunk(&EncryptedChunk { index: 5, data: finished.encrypted }, &key).unwrap();
    assert_eq!(back.index, 5);
    assert_eq!(back.data, b"chunk data".to_vec());
}

#[test]
fn a_chunk_sealed_under_another_key_is_refused() {
    let finished = encrypt_chunk(RawChunk { index: 0, data: vec![1, 2, 3] }, &[9u8; 32]).unwrap();
    let chunk = EncryptedChunk { index: 0, data: finished.encrypted };
    let r = decrypt_chunk(&chunk, &[8u8; 32]);
    assert!(matches!(r, Err(DecryptChunkError::DecryptionFailed)));
}

#[test]
fn a_chunk_that_holds_no_frame_is_refused() {
    let key = [9u8; 32];
    let chunk = EncryptedChunk { index: 0, data: aes_encrypt(b"no frame at all", &key).unwrap() };
    assert!(matches!(decrypt_chunk(&chunk, &key), Err(DecryptChunkError::Decompression(FrameError::Refused(_)))));
}

#[test]
fn sealing_a_chunk_with_a_nonce_is_exact() {
    let key = [9u8; 32];
    let f = seal_chunk(2, b"frame", &key, &[1u8; 12]).unwrap();
    assert_eq!(f.index, 2);
    assert_eq!(f.compressed_len, 5);
    assert_eq!(f.encrypted, seal_with_nonce(b"frame", &key, &[1u8; 12]).unwrap());
}
