//! The preamble of a container: magic, version, salt, and the sealed header
//! that holds the kind and the name of what is packed.

use crate::bytes::{push_le, read_le16};
use crate::cipher::{aes_decrypt, draw_nonce, seal_with_nonce, CipherError, KEY_SIZE, NONCE_SIZE};
use crate::key::SALT_SIZE;
use crate::text::from_utf8_lossy;
use vstd::prelude::*;

verus! {

/// The version of the format that is written, and the last that is read.
pub const CRYPT_VERSION: u16 = 1;

/// Most bytes in the name that a header holds.
pub const MAX_NAME_LEN: usize = 65535;

/// Bytes of a preamble in front of the sealed header.
pub const FIXED_PREAMBLE: usize = 40;

/// Why no header was written.
#[derive(Debug, Clone, Copy, PartialEq, Eq, Structural)]
pub enum WriteHeaderError {
    /// The name has more than `MAX_NAME_LEN` bytes.
    NameTooLong,
    /// The header could not be sealed.
    Cipher(CipherError),
}

/// Why a file is no container that can be read.
#[derive(Debug, Clone, Copy, PartialEq, Eq, Structural)]
pub enum PreambleError {
    /// The file does not start with the magic.
    BadMagic,
    /// The file ends before the version does.
    MissingVersion,
    /// The version is not one that can be read.
    UnsupportedVersion(u16),
    /// The file ends before the salt does.
    MissingSalt,
    /// The file ends before the length of the header does.
    MissingHeader,
    /// The file ends before the header does.
    MissingHeaderData,
}

/// Why a sealed header gave no kind and name.
#[derive(Debug, Clone, Copy, PartialEq, Eq, Structural)]
pub enum OpenHeaderError {
    /// Wrong password, or the header was altered.
    DecryptionFailed,
    /// The header is shorter than its fixed part.
    TooShort,
    /// The header ends before the name does.
    NameOverrun,
}

/// What a preamble holds.
pub struct Preamble {
    pub salt: [u8; SALT_SIZE],
    pub header: Vec<u8>,
}

/// What a preamble holds, as sequences.
pub struct PreambleView {
    pub salt: Seq<u8>,
    pub header: Seq<u8>,
}

impl View for Preamble {
    type V = PreambleView;

    open spec fn view(&self) -> PreambleView {
        PreambleView { salt: self.salt@, header: self.header@ }
    }
}

/// What an opened header holds.
pub struct CryptHeader {
    pub is_directory: bool,
    pub original_name: String,
}

/// What an opened header holds, with the name as a sequence.
pub struct CryptHeaderView {
    pub is_directory: bool,
    pub original_name: Seq<char>,
}

impl View for CryptHeader {
    type V = CryptHeaderView;

    open spec fn view(&self) -> CryptHeaderView {
        CryptHeaderView { is_directory: self.is_directory, original_name: self.original_name@ }
    }
}

/// The magic, `CRPT`.
pub open spec fn crypt_magic() -> Seq<u8> {
    seq![0x43u8, 0x52u8, 0x50u8, 0x54u8]
}

/// Magic, version and salt.
pub open spec fn preamble_start(salt: Seq<u8>) -> Seq<u8> {
    crypt_magic() + crate::bytes::le_bytes(CRYPT_VERSION as nat, 2) + salt
}

/// A whole preamble. The length in front of the sealed header has two bytes;
/// what does not fit in them is cut off.
pub open spec fn preamble(salt: Seq<u8>, sealed: Seq<u8>) -> Seq<u8> {
    preamble_start(salt) + crate::bytes::le_bytes(sealed.len(), 2) + sealed
}

/// The header before it is sealed: a kind (`D` or `F`), the length of the name
/// in two bytes, and the name.
pub open spec fn header_plaintext(is_directory: bool, name: Seq<u8>) -> Seq<u8> {
    seq![
        if is_directory {
            0x44u8
        } else {
            0x46u8
        },
    ] + crate::bytes::le_bytes(name.len(), 2) + name
}

/// What the preamble at the front of `file` holds, or the first thing that is
/// wrong with it.
pub open spec fn parsed_preamble(file: Seq<u8>) -> Result<PreambleView, PreambleError> {
    if file.len() < 4 || file.subrange(0, 4) != crypt_magic() {
        Err(PreambleError::BadMagic)
    } else if file.len() < 6 {
        Err(PreambleError::MissingVersion)
    } else {
        let version = crate::bytes::le_value(file.subrange(4, 6));
        if version < 1 || version > CRYPT_VERSION {
            Err(PreambleError::UnsupportedVersion(version as u16))
        } else if file.len() < 6 + SALT_SIZE {
            Err(PreambleError::MissingSalt)
        } else if file.len() < FIXED_PREAMBLE {
            Err(PreambleError::MissingHeader)
        } else {
            let len = crate::bytes::le_value(file.subrange(6 + SALT_SIZE, FIXED_PREAMBLE as int));
            if file.len() < FIXED_PREAMBLE + len {
                Err(PreambleError::MissingHeaderData)
            } else {
                Ok(
                    PreambleView {
                        salt: file.subrange(6, 6 + SALT_SIZE),
                        header: file.subrange(FIXED_PREAMBLE as int, FIXED_PREAMBLE + len),
                    },
                )
            }
        }
    }
}

/// The length of the name that a header before sealing states.
pub open spec fn stated_name_len(plain: Seq<u8>) -> nat {
    crate::bytes::le_value(plain.subrange(1, 3))
}

/// What the header that opened to `plain` holds.
pub open spec fn header_in(plain: Seq<u8>) -> Result<CryptHeaderView, OpenHeaderError> {
    if plain.len() < 3 {
        Err(OpenHeaderError::TooShort)
    } else if plain.len() < 3 + stated_name_len(plain) {
        Err(OpenHeaderError::NameOverrun)
    } else {
        Ok(
            CryptHeaderView {
                is_directory: plain[0] == 0x44,
                original_name: crate::text::text_in(
                    plain.subrange(3, 3 + stated_name_len(plain) as int),
                ),
            },
        )
    }
}

/// What the sealed header holds, opened under `key`.
pub open spec fn header_of(key: Seq<u8>, sealed: Seq<u8>) -> Result<
    CryptHeaderView,
    OpenHeaderError,
> {
    match crate::cipher::opened(key, sealed) {
        None => Err(OpenHeaderError::DecryptionFailed),
        Some(plain) => header_in(plain),
    }
}

/// A preamble reads back as the salt and the sealed header it was made of,
/// whatever follows it. The length of the header has two bytes, so a longer
/// header does not read back.
pub proof fn law_preamble_round_trip(salt: Seq<u8>, sealed: Seq<u8>, rest: Seq<u8>)
    requires
        salt.len() == SALT_SIZE,
        sealed.len() <= 65535,
    ensures
        parsed_preamble(preamble(salt, sealed) + rest) == Ok::<PreambleView, PreambleError>(
            PreambleView { salt, header: sealed },
        ),
        preamble(salt, sealed).len() == FIXED_PREAMBLE + sealed.len(),
{
    let file = preamble(salt, sealed) + rest;
    crate::bytes::lemma_le_bytes_len(CRYPT_VERSION as nat, 2);
    crate::bytes::lemma_le_bytes_len(sealed.len(), 2);
    assert(crate::bytes::le_bound(2) == 65536) by {
        reveal_with_fuel(crate::bytes::le_bound, 3);
    }
    crate::bytes::law_le_round_trip(CRYPT_VERSION as nat, 2);
    crate::bytes::law_le_round_trip(sealed.len(), 2);
    assert(file.subrange(0, 4) =~= crypt_magic());
    assert(file.subrange(4, 6) =~= crate::bytes::le_bytes(CRYPT_VERSION as nat, 2));
    assert(file.subrange(6, 6 + SALT_SIZE) =~= salt);
    assert(file.subrange(6 + SALT_SIZE, FIXED_PREAMBLE as int) =~= crate::bytes::le_bytes(
        sealed.len(),
        2,
    ));
    assert(file.subrange(FIXED_PREAMBLE as int, FIXED_PREAMBLE + sealed.len()) =~= sealed);
}

/// A header reads back as the kind and the name it was made of, whatever key
/// and nonce sealed it.
pub proof fn law_header_round_trip(
    key: Seq<u8>,
    sealed: Seq<u8>,
    is_directory: bool,
    name: Seq<char>,
)
    requires
        vstd::utf8::encode_utf8(name).len() <= MAX_NAME_LEN,
        crate::cipher::is_sealed(
            key,
            sealed,
            header_plaintext(is_directory, vstd::utf8::encode_utf8(name)),
        ),
    ensures
        header_of(key, sealed) == Ok::<CryptHeaderView, OpenHeaderError>(
            CryptHeaderView { is_directory, original_name: name },
        ),
{
    let bytes = vstd::utf8::encode_utf8(name);
    let plain = header_plaintext(is_directory, bytes);
    crate::bytes::lemma_le_bytes_len(bytes.len(), 2);
    assert(crate::bytes::le_bound(2) == 65536) by {
        reveal_with_fuel(crate::bytes::le_bound, 3);
    }
    crate::bytes::law_le_round_trip(bytes.len(), 2);
    assert(plain.subrange(1, 3) =~= crate::bytes::le_bytes(bytes.len(), 2));
    assert(plain.subrange(3, 3 + bytes.len() as int) =~= bytes);
    vstd::utf8::encode_utf8_valid_utf8(name);
    vstd::utf8::encode_utf8_decode_utf8(name);
}

/// Where what stands in a preamble: `CRPT`, version 1 in two bytes, the salt,
/// the length of the sealed header in two bytes, and the sealed header.
pub proof fn law_preamble_layout(salt: Seq<u8>, sealed: Seq<u8>)
    requires
        salt.len() == 32,
    ensures
        preamble(salt, sealed).len() == 40 + sealed.len(),
        preamble(salt, sealed)[0] == 0x43,
        preamble(salt, sealed)[1] == 0x52,
        preamble(salt, sealed)[2] == 0x50,
        preamble(salt, sealed)[3] == 0x54,
        preamble(salt, sealed)[4] == 1,
        preamble(salt, sealed)[5] == 0,
        preamble(salt, sealed).subrange(6, 38) == salt,
        preamble(salt, sealed)[38] as int == sealed.len() % 256,
        preamble(salt, sealed)[39] as int == (sealed.len() / 256) % 256,
        preamble(salt, sealed).subrange(40, 40 + sealed.len() as int) == sealed,
        preamble_start(salt) == preamble(salt, sealed).subrange(0, 38),
{
    let p = preamble(salt, sealed);
    reveal_with_fuel(crate::bytes::le_bytes, 3);
    crate::bytes::lemma_le_bytes_len(CRYPT_VERSION as nat, 2);
    crate::bytes::lemma_le_bytes_len(sealed.len(), 2);
    assert(p[4] == crate::bytes::le_bytes(CRYPT_VERSION as nat, 2)[0]);
    assert(p[5] == crate::bytes::le_bytes(CRYPT_VERSION as nat, 2)[1]);
    assert(p[38] == crate::bytes::le_bytes(sealed.len(), 2)[0]);
    assert(p[39] == crate::bytes::le_bytes(sealed.len(), 2)[1]);
    assert(p.subrange(6, 38) =~= salt);
    assert(p.subrange(40, 40 + sealed.len() as int) =~= sealed);
    assert(preamble_start(salt) =~= p.subrange(0, 38));
}

/// Where what stands in a header before it is sealed: `D` for a directory and
/// `F` for a file, the length of the name in two bytes, and the name.
pub proof fn law_header_layout(is_directory: bool, name: Seq<u8>)
    ensures
        header_plaintext(is_directory, name).len() == 3 + name.len(),
        header_plaintext(is_directory, name)[0] == (if is_directory {
            0x44u8
        } else {
            0x46u8
        }),
        header_plaintext(is_directory, name)[1] as int == name.len() % 256,
        header_plaintext(is_directory, name)[2] as int == (name.len() / 256) % 256,
        header_plaintext(is_directory, name).subrange(3, 3 + name.len() as int) == name,
        MAX_NAME_LEN == 65535,
{
    let h = header_plaintext(is_directory, name);
    reveal_with_fuel(crate::bytes::le_bytes, 3);
    crate::bytes::lemma_le_bytes_len(name.len(), 2);
    assert(h[1] == crate::bytes::le_bytes(name.len(), 2)[0]);
    assert(h[2] == crate::bytes::le_bytes(name.len(), 2)[1]);
    assert(h.subrange(3, 3 + name.len() as int) =~= name);
}

/// A file is read as a container exactly where it starts with `CRPT` and version
/// 1 and is as long as its preamble says; salt and sealed header are then the
/// bytes in their places. Else the first thing that is missing or wrong is told.
pub proof fn law_what_is_read(file: Seq<u8>)
    ensures
        ({
            let magic = file.len() >= 4 && file[0] == 0x43 && file[1] == 0x52 && file[2] == 0x50
                && file[3] == 0x54;
            let version = file[4] + 256 * file[5];
            let len = file[38] + 256 * file[39];
            &&& parsed_preamble(file) == Err::<PreambleView, PreambleError>(
                PreambleError::BadMagic,
            ) <==> !magic
            &&& parsed_preamble(file) == Err::<PreambleView, PreambleError>(
                PreambleError::MissingVersion,
            ) <==> magic && file.len() < 6
            &&& magic && file.len() >= 6 && version != 1 ==> parsed_preamble(file) == Err::<
                PreambleView,
                PreambleError,
            >(PreambleError::UnsupportedVersion(version as u16))
            &&& parsed_preamble(file) == Err::<PreambleView, PreambleError>(
                PreambleError::MissingSalt,
            ) <==> magic && 6 <= file.len() < 38 && version == 1
            &&& parsed_preamble(file) == Err::<PreambleView, PreambleError>(
                PreambleError::MissingHeader,
            ) <==> magic && 38 <= file.len() < 40 && version == 1
            &&& parsed_preamble(file) == Err::<PreambleView, PreambleError>(
                PreambleError::MissingHeaderData,
            ) <==> magic && 40 <= file.len() < 40 + len && version == 1
            &&& magic && version == 1 && 40 <= file.len() && 40 + len <= file.len()
                ==> parsed_preamble(file) == Ok::<PreambleView, PreambleError>(
                PreambleView {
                    salt: file.subrange(6, 38),
                    header: file.subrange(40, 40 + len),
                },
            )
        }),
{
    if file.len() >= 4 {
        let front = file.subrange(0, 4);
        assert(front[0] == file[0] && front[1] == file[1] && front[2] == file[2] && front[3]
            == file[3]);
        if file[0] == 0x43 && file[1] == 0x52 && file[2] == 0x50 && file[3] == 0x54 {
            assert(front =~= crypt_magic());
        }
    }
    if file.len() >= 6 {
        crate::bytes::law_le_value(file[4], file[5], 0, 0);
        assert(file.subrange(4, 6) =~= seq![file[4], file[5]]);
    }
    if file.len() >= 40 {
        crate::bytes::law_le_value(file[38], file[39], 0, 0);
        assert(file.subrange(38, 40) =~= seq![file[38], file[39]]);
    }
}

/// What an opened header holds: a directory exactly where it starts with `D`,
/// under the name that the stated number of bytes after the length encodes. It
/// is refused exactly where it is shorter than three bytes or than it says.
pub proof fn law_what_a_header_holds(plain: Seq<u8>)
    ensures
        header_in(plain) == Err::<CryptHeaderView, OpenHeaderError>(OpenHeaderError::TooShort)
            <==> plain.len() < 3,
        header_in(plain) == Err::<CryptHeaderView, OpenHeaderError>(OpenHeaderError::NameOverrun)
            <==> plain.len() >= 3 && plain.len() < 3 + plain[1] + 256 * plain[2],
        plain.len() >= 3 && 3 + plain[1] + 256 * plain[2] <= plain.len() ==> header_in(plain)
            == Ok::<CryptHeaderView, OpenHeaderError>(
            CryptHeaderView {
                is_directory: plain[0] == 0x44,
                original_name: crate::text::text_in(
                    plain.subrange(3, 3 + plain[1] + 256 * plain[2]),
                ),
            },
        ),
{
    if plain.len() >= 3 {
        crate::bytes::law_le_value(plain[1], plain[2], 0, 0);
        assert(plain.subrange(1, 3) =~= seq![plain[1], plain[2]]);
    }
}

/// What a sealed header holds is what the header that it opens to holds.
pub proof fn law_sealed_header(key: Seq<u8>, sealed: Seq<u8>, plain: Seq<u8>)
    ensures
        crate::cipher::opened(key, sealed) is None ==> header_of(key, sealed) == Err::<
            CryptHeaderView,
            OpenHeaderError,
        >(OpenHeaderError::DecryptionFailed),
        crate::cipher::opened(key, sealed) == Some(plain) ==> header_of(key, sealed) == header_in(
            plain,
        ),
{
}

/// Appends magic, version and salt.
fn push_preamble_start(output: &mut Vec<u8>, salt: &[u8])
    ensures
        final(output)@ == old(output)@ + preamble_start(salt@),
{
    output.push(0x43);
    output.push(0x52);
    output.push(0x50);
    output.push(0x54);
    push_le(output, CRYPT_VERSION as u128, 2);
    output.extend_from_slice(salt);
    assert(output@ =~= old(output)@ + preamble_start(salt@));
}

/// Seals the header `plain` with the given nonce, and appends its length in two
/// bytes and the sealed header.
pub fn push_header(output: &mut Vec<u8>, plain: &[u8], key: &[u8], nonce: &[u8]) -> (r: Result<
    (),
    CipherError,
>)
    requires
        key@.len() == KEY_SIZE,
        nonce@.len() == NONCE_SIZE,
    ensures
        r is Ok <==> plain@.len() <= crate::cipher::MAX_PLAINTEXT,
        r is Ok ==> ({
            let sealed = nonce@ + crate::cipher::gcm_sealed(key@, nonce@, plain@);
            &&& crate::cipher::is_sealed(key@, sealed, plain@)
            &&& final(output)@ == old(output)@ + crate::bytes::le_bytes(sealed.len(), 2) + sealed
        }),
        r matches Err(e) ==> e == CipherError::EncryptionFailed && final(output)@ == old(output)@,
{
    match seal_with_nonce(plain, key, nonce) {
        Err(e) => Err(e),
        Ok(sealed) => {
            push_le(output, sealed.len() as u128, 2);
            output.extend_from_slice(sealed.as_slice());
            assert(output@ =~= old(output)@ + crate::bytes::le_bytes(sealed@.len(), 2) + sealed@);
            Ok(())
        },
    }
}

/// The header before it is sealed.
pub fn build_header(is_directory: bool, archive_name: &str) -> (r: Result<
    Vec<u8>,
    WriteHeaderError,
>)
    ensures
        r is Ok <==> vstd::utf8::encode_utf8(archive_name@).len() <= MAX_NAME_LEN,
        r matches Ok(plain) ==> plain@ == header_plaintext(
            is_directory,
            vstd::utf8::encode_utf8(archive_name@),
        ),
        r matches Err(e) ==> e == WriteHeaderError::NameTooLong,
{
    let name = archive_name.as_bytes();
    if name.len() > MAX_NAME_LEN {
        return Err(WriteHeaderError::NameTooLong);
    }
    let mut plain: Vec<u8> = Vec::new();
    plain.push(
        if is_directory {
            0x44
        } else {
            0x46
        },
    );
    push_le(&mut plain, name.len() as u128, 2);
    plain.extend_from_slice(name);
    assert(plain@ =~= header_plaintext(is_directory, name@));
    Ok(plain)
}

/// Appends a preamble whose header is sealed with the given nonce. Where the
/// name is too long, magic, version and salt are appended all the same.
pub fn write_crypt_header_with_nonce(
    output: &mut Vec<u8>,
    key: &[u8],
    nonce: &[u8],
    salt: &[u8],
    is_directory: bool,
    archive_name: &str,
) -> (r: Result<(), WriteHeaderError>)
    requires
        key@.len() == KEY_SIZE,
        nonce@.len() == NONCE_SIZE,
    ensures
        r is Ok <==> vstd::utf8::encode_utf8(archive_name@).len() <= MAX_NAME_LEN,
        r is Ok ==> final(output)@ == old(output)@ + preamble(
            salt@,
            nonce@ + crate::cipher::gcm_sealed(
                key@,
                nonce@,
                header_plaintext(is_directory, vstd::utf8::encode_utf8(archive_name@)),
            ),
        ),
        r matches Err(e) ==> e == WriteHeaderError::NameTooLong && final(output)@ == old(output)@
            + preamble_start(salt@),
{
    push_preamble_start(output, salt);
    match build_header(is_directory, archive_name) {
        Err(e) => Err(e),
        Ok(plain) => {
            proof {
                crate::bytes::lemma_le_bytes_len(
                    vstd::utf8::encode_utf8(archive_name@).len(),
                    2,
                );
            }
            match push_header(output, plain.as_slice(), key, nonce) {
                Err(e) => Err(WriteHeaderError::Cipher(e)),
                Ok(()) => {
                    let ghost sealed = nonce@ + crate::cipher::gcm_sealed(key@, nonce@, plain@);
                    assert(output@ =~= old(output)@ + preamble(salt@, sealed));
                    Ok(())
                },
            }
        },
    }
}

/// Appends a preamble whose header is sealed with a fresh random nonce. Where
/// the name is too long, or no nonce comes, magic, version and salt are
/// appended all the same.
pub fn write_crypt_header(
    output: &mut Vec<u8>,
    key: &[u8],
    salt: &[u8],
    is_directory: bool,
    archive_name: &str,
) -> (r: Result<(), WriteHeaderError>)
    requires
        key@.len() == KEY_SIZE,
    ensures
        r is Ok ==> vstd::utf8::encode_utf8(archive_name@).len() <= MAX_NAME_LEN && exists|
            sealed: Seq<u8>,
        |
            #[trigger] crate::cipher::is_sealed(
                key@,
                sealed,
                header_plaintext(is_directory, vstd::utf8::encode_utf8(archive_name@)),
            ) && crate::cipher::is_drawn_nonce(crate::cipher::nonce_of(sealed)) && final(output)@
                == old(output)@ + preamble(salt@, sealed),
        r is Err ==> final(output)@ == old(output)@ + preamble_start(salt@),
        r matches Err(e) ==> e == (if vstd::utf8::encode_utf8(archive_name@).len()
            > MAX_NAME_LEN {
            WriteHeaderError::NameTooLong
        } else {
            WriteHeaderError::Cipher(CipherError::NoRandomness)
        }),
        r is Err && vstd::utf8::encode_utf8(archive_name@).len() <= MAX_NAME_LEN
            ==> crate::cipher::no_nonce_came(),
{
    push_preamble_start(output, salt);
    match build_header(is_directory, archive_name) {
        Err(e) => Err(e),
        Ok(plain) => {
            proof {
                crate::bytes::lemma_le_bytes_len(
                    vstd::utf8::encode_utf8(archive_name@).len(),
                    2,
                );
            }
            match draw_nonce() {
                Err(e) => Err(WriteHeaderError::Cipher(e)),
                Ok(nonce) => match push_header(output, plain.as_slice(), key, nonce.as_slice()) {
                    Err(e) => Err(WriteHeaderError::Cipher(e)),
                    Ok(()) => {
                        let ghost sealed = nonce@ + crate::cipher::gcm_sealed(
                            key@,
                            nonce@,
                            plain@,
                        );
                        assert(crate::cipher::nonce_of(sealed) =~= nonce@);
                        assert(output@ =~= old(output)@ + preamble(salt@, sealed));
                        Ok(())
                    },
                },
            }
        },
    }
}

/// Reads the preamble at the front of a file.
pub fn read_preamble(file: &[u8]) -> (r: Result<Preamble, PreambleError>)
    ensures
        r is Ok <==> parsed_preamble(file@) is Ok,
        r matches Ok(p) ==> parsed_preamble(file@) == Ok::<PreambleView, PreambleError>(p@),
        r matches Err(e) ==> parsed_preamble(file@) == Err::<PreambleView, PreambleError>(e),
{
    if file.len() < 4 {
        return Err(PreambleError::BadMagic);
    }
    assert(file@.subrange(0, 4) == crypt_magic() <==> file@[0] == 0x43 && file@[1] == 0x52
        && file@[2] == 0x50 && file@[3] == 0x54) by {
        assert(file@.subrange(0, 4)[0] == file@[0]);
        assert(file@.subrange(0, 4)[1] == file@[1]);
        assert(file@.subrange(0, 4)[2] == file@[2]);
        assert(file@.subrange(0, 4)[3] == file@[3]);
        if file@[0] == 0x43 && file@[1] == 0x52 && file@[2] == 0x50 && file@[3] == 0x54 {
            assert(file@.subrange(0, 4) =~= crypt_magic());
        }
    }
    if file[0] != 0x43 || file[1] != 0x52 || file[2] != 0x50 || file[3] != 0x54 {
        return Err(PreambleError::BadMagic);
    }
    if file.len() < 6 {
        return Err(PreambleError::MissingVersion);
    }
    let version = read_le16(file, 4);
    if version < 1 || version > CRYPT_VERSION {
        return Err(PreambleError::UnsupportedVersion(version));
    }
    if file.len() < 6 + SALT_SIZE {
        return Err(PreambleError::MissingSalt);
    }
    if file.len() < FIXED_PREAMBLE {
        return Err(PreambleError::MissingHeader);
    }
    let len: usize = read_le16(file, 6 + SALT_SIZE) as usize;
    if file.len() - FIXED_PREAMBLE < len {
        return Err(PreambleError::MissingHeaderData);
    }
    let mut salt = [0u8; SALT_SIZE];
    let mut i: usize = 0;
    while i < SALT_SIZE
        invariant
            i <= SALT_SIZE,
            file@.len() >= FIXED_PREAMBLE,
            forall|k: int| 0 <= k < i ==> salt@[k] == file@[6 + k],
        decreases SALT_SIZE - i,
    {
        salt[i] = file[6 + i];
        i = i + 1;
    }
    assert(salt@ =~= file@.subrange(6, 6 + SALT_SIZE));
    let header = vstd::slice::slice_to_vec(
        vstd::slice::slice_subrange(file, FIXED_PREAMBLE, FIXED_PREAMBLE + len),
    );
    Ok(Preamble { salt, header })
}

/// What the header that opened to `plain` holds.
pub fn parse_crypt_header(plain: &[u8]) -> (r: Result<CryptHeader, OpenHeaderError>)
    requires
        plain@.len() >= 3 ==> 3 + stated_name_len(plain@) <= plain@.len(),
    ensures
        r is Ok <==> header_in(plain@) is Ok,
        r matches Ok(h) ==> header_in(plain@) == Ok::<CryptHeaderView, OpenHeaderError>(h@),
        r matches Err(e) ==> header_in(plain@) == Err::<CryptHeaderView, OpenHeaderError>(e),
{
    if plain.len() < 3 {
        return Err(OpenHeaderError::TooShort);
    }
    let len: usize = read_le16(plain, 1) as usize;
    let original_name = from_utf8_lossy(vstd::slice::slice_subrange(plain, 3, 3 + len));
    Ok(CryptHeader { is_directory: plain[0] == 0x44, original_name })
}

/// Opens a sealed header under `key` and reads what it holds.
pub fn open_crypt_header(sealed: &[u8], key: &[u8]) -> (r: Result<CryptHeader, OpenHeaderError>)
    requires
        sealed@.len() >= NONCE_SIZE ==> key@.len() == KEY_SIZE,
    ensures
        r is Ok <==> header_of(key@, sealed@) is Ok,
        r matches Ok(h) ==> header_of(key@, sealed@) == Ok::<CryptHeaderView, OpenHeaderError>(h@),
        r matches Err(e) ==> header_of(key@, sealed@) == Err::<CryptHeaderView, OpenHeaderError>(
            e,
        ),
{
    match aes_decrypt(sealed, key) {
        Err(_) => Err(OpenHeaderError::DecryptionFailed),
        Ok(plain) => {
            if plain.len() >= 3 && plain.len() - 3 < read_le16(plain.as_slice(), 1) as usize {
                Err(OpenHeaderError::NameOverrun)
            } else {
                parse_crypt_header(plain.as_slice())
            }
        },
    }
}

/// Where the records start in a file whose sealed header has `header_len`
/// bytes.
pub fn data_offset(header_len: u16) -> (at: u64)
    ensures
        at == FIXED_PREAMBLE + header_len,
{
    FIXED_PREAMBLE as u64 + header_len as u64
}

/// How many bytes follow the preamble in a file of `file_len` bytes, and none
/// where the file is shorter than that.
pub fn data_size(file_len: u64, header_len: u16) -> (size: u64)
    ensures
        size == if file_len < FIXED_PREAMBLE + header_len {
            0
        } else {
            file_len - FIXED_PREAMBLE - header_len
        },
{
    file_len.saturating_sub(data_offset(header_len))
}

} // verus!
