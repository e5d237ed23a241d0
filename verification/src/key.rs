//! Key derivation: a random salt, and Argon2id over the password.

use crate::cipher::{random_bytes, KEY_SIZE};
use vstd::prelude::*;

verus! {

/// Bytes in an Argon2id salt (256 bits).
pub const SALT_SIZE: usize = 32;

/// Argon2id memory cost in KiB (256 MB).
pub const ARGON2_MEM_COST: u32 = 262144;

/// Argon2id iterations.
pub const ARGON2_TIME_COST: u32 = 12;

/// Most bytes that Argon2 takes as a password.
pub const MAX_PASSWORD_LEN: u64 = 0xFFFF_FFFF;

/// Most lanes that Argon2 runs.
pub const MAX_LANES: u32 = 0xFF_FFFF;

/// Why no salt or key came about.
#[derive(Debug, Clone, Copy, PartialEq, Eq, Structural)]
pub enum KeyError {
    /// The operating system gave no random bytes.
    NoRandomness,
    /// Argon2 does not take the cost settings.
    InvalidSettings,
    /// The password is longer than Argon2 takes.
    PasswordTooLong,
}

/// The error of the Argon2 implementation.
#[verifier::external_type_specification]
#[verifier::external_body]
pub struct ExArgon2Error(argon2::Error);

/// The cost settings of Argon2id: what one derivation takes in memory (KiB),
/// in iterations, and in lanes.
#[derive(Debug, Clone, Copy, PartialEq, Eq, Structural)]
pub struct Argon2Settings {
    pub mem_cost: u32,
    pub time_cost: u32,
    pub lanes: u32,
}

impl Argon2Settings {
    /// Whether Argon2 takes these settings: one iteration at least, between
    /// one lane and `MAX_LANES`, and memory for eight blocks per lane.
    pub open spec fn accepted(self) -> bool {
        &&& 1 <= self.time_cost
        &&& 1 <= self.lanes <= MAX_LANES
        &&& 8 * self.lanes <= self.mem_cost
    }
}

/// What Argon2id, version 0x13, without secret or associated data, derives
/// from `password` and `salt` in `len` bytes, with so much memory (KiB), so
/// many iterations and so many lanes.
pub uninterp spec fn argon2id(
    mem_cost: u32,
    time_cost: u32,
    lanes: u32,
    password: Seq<u8>,
    salt: Seq<u8>,
    len: nat,
) -> Seq<u8>;

/// The key that `password` and `salt` give under the settings.
pub open spec fn derived_key(settings: Argon2Settings, password: Seq<char>, salt: Seq<u8>) -> Seq<
    u8,
> {
    argon2id(
        settings.mem_cost,
        settings.time_cost,
        settings.lanes,
        vstd::utf8::encode_utf8(password),
        salt,
        KEY_SIZE as nat,
    )
}

/// `Argon2::hash_password_into` with Argon2id, version 0x13, and the settings
/// given, into an array of `N` bytes. It fails where the settings are refused,
/// and where password, salt or output have a length that Argon2 does not take.
#[verifier::external_body]
fn argon2id_hash<const N: usize>(
    settings: &Argon2Settings,
    password: &[u8],
    salt: &[u8],
) -> (r: Result<[u8; N], argon2::Error>)
    requires
        8 * settings.lanes <= u32::MAX,
    ensures
        r is Ok <==> (settings.accepted() && password@.len() <= MAX_PASSWORD_LEN && 8 <= salt@.len()
            && salt@.len() <= 0xFFFF_FFFF && 4 <= N && N <= 0xFFFF_FFFF),
        r matches Ok(key) ==> key@ == argon2id(
            settings.mem_cost,
            settings.time_cost,
            settings.lanes,
            password@,
            salt@,
            N as nat,
        ),
{
    let (m, t, p) = (settings.mem_cost, settings.time_cost, settings.lanes);
    let params = argon2::Params::new(m, t, p, None)?;
    let context = argon2::Argon2::new(argon2::Algorithm::Argon2id, argon2::Version::V0x13, params);
    let mut key = [0u8; N];
    context.hash_password_into(password, salt, &mut key)?;
    Ok(key)
}

/// `num_cpus::get`. The number is the machine's; there is always one at least.
pub assume_specification[ num_cpus::get ]() -> (n: usize)
    ensures
        n >= 1,
;

/// `cpus` is a number of processors that `num_cpus::get` reported.
pub open spec fn is_cpu_count(cpus: usize) -> bool {
    call_ensures(num_cpus::get, (), cpus)
}

/// `salt` is what the random number generator gave for a salt.
pub closed spec fn is_drawn_salt(salt: [u8; SALT_SIZE]) -> bool {
    call_ensures(random_bytes::<SALT_SIZE>, (), Ok::<[u8; SALT_SIZE], rand_core::Error>(salt))
}

/// The random number generator had no bytes for a salt.
pub closed spec fn no_salt_came() -> bool {
    exists|e: rand_core::Error| #[trigger]
        call_ensures(random_bytes::<SALT_SIZE>, (), Err::<[u8; SALT_SIZE], rand_core::Error>(e))
}

/// A drawn salt, and the want of one, are outcomes of asking the random number
/// generator for 32 bytes; a processor count is one of asking for it.
pub(crate) proof fn law_salts_are_drawn(salt: [u8; 32], cpus: usize)
    ensures
        is_drawn_salt(salt) ==> call_ensures(
            random_bytes::<32>,
            (),
            Ok::<[u8; 32], rand_core::Error>(salt),
        ),
        no_salt_came() ==> exists|e: rand_core::Error| #[trigger]
            call_ensures(random_bytes::<32>, (), Err::<[u8; 32], rand_core::Error>(e)),
        is_cpu_count(cpus) ==> call_ensures(num_cpus::get, (), cpus),
{
}

/// A fresh random salt. The bytes come from the operating system, which may
/// also have none.
pub fn make_salt() -> (r: Result<[u8; SALT_SIZE], KeyError>)
    ensures
        r matches Ok(salt) ==> is_drawn_salt(salt),
        r matches Err(e) ==> e == KeyError::NoRandomness && no_salt_came(),
{
    let draw = random_bytes::<SALT_SIZE>;
    match draw() {
        Ok(salt) => Ok(salt),
        Err(e) => {
            assert(call_ensures(
                random_bytes::<SALT_SIZE>,
                (),
                Err::<[u8; SALT_SIZE], rand_core::Error>(e),
            ));
            Err(KeyError::NoRandomness)
        },
    }
}

/// The Argon2id settings for a machine with `cpus` processors: a lane for each
/// of them, and one where there is none.
pub open spec fn settings_for(cpus: nat) -> Argon2Settings {
    Argon2Settings {
        mem_cost: ARGON2_MEM_COST,
        time_cost: ARGON2_TIME_COST,
        lanes: if cpus == 0 {
            1
        } else {
            (cpus % 0x1_0000_0000) as u32
        },
    }
}

/// The Argon2id settings for a machine with `cpus` processors. The number of
/// lanes is the number of processors, at least one, in 32 bits. Fails where
/// Argon2 does not take so many lanes in the memory that is set.
pub fn argon2_settings(cpus: usize) -> (r: Result<Argon2Settings, KeyError>)
    ensures
        r is Ok <==> settings_for(cpus as nat).accepted(),
        r matches Ok(s) ==> s == settings_for(cpus as nat),
        r matches Err(e) ==> e == KeyError::InvalidSettings,
{
    let at_least_one: usize = if cpus == 0 {
        1
    } else {
        cpus
    };
    let lanes: u32 = (at_least_one as u64 % 0x1_0000_0000) as u32;
    if lanes == 0 || lanes > ARGON2_MEM_COST / 8 {
        return Err(KeyError::InvalidSettings);
    }
    Ok(
        Argon2Settings { mem_cost: ARGON2_MEM_COST, time_cost: ARGON2_TIME_COST, lanes },
    )
}

/// The Argon2id settings for this machine. How many processors it has decides
/// the number of lanes, and with it the key that a password gives, and whether
/// there are settings at all; `argon2_settings` says it for each number.
pub fn build_argon2() -> (r: Result<Argon2Settings, KeyError>)
    ensures
        r matches Ok(s) ==> s.accepted() && exists|cpus: nat| s == #[trigger] settings_for(cpus),
        r matches Err(e) ==> e == KeyError::InvalidSettings,
        exists|cpus: usize| #[trigger]
            is_cpu_count(cpus) && (r is Ok <==> settings_for(cpus as nat).accepted()) && (
            r matches Ok(s) ==> s == settings_for(cpus as nat)),
{
    let count = num_cpus::get;
    let cpus = count();
    assert(is_cpu_count(cpus));
    argon2_settings(cpus)
}

/// What deriving a key under the settings comes to: the key where Argon2 takes
/// the settings and the password is not too long, and only there.
pub open spec fn is_derivation(
    settings: Argon2Settings,
    password: Seq<char>,
    salt: Seq<u8>,
    r: Result<[u8; KEY_SIZE], KeyError>,
) -> bool {
    match r {
        Ok(key) => settings.accepted() && vstd::utf8::encode_utf8(password).len()
            <= MAX_PASSWORD_LEN && key@ == derived_key(settings, password, salt),
        Err(e) => if settings.accepted() {
            e == KeyError::PasswordTooLong && vstd::utf8::encode_utf8(password).len()
                > MAX_PASSWORD_LEN
        } else {
            e == KeyError::InvalidSettings
        },
    }
}

/// With up to 32768 processors, and a password that is not too long, deriving a
/// key gives one: what Argon2id derives from the password in UTF-8 and the salt
/// with 262144 KiB, twelve iterations and a lane for each processor, in 32
/// bytes. With more processors there is none.
pub proof fn law_derivation(
    cpus: nat,
    password: Seq<char>,
    salt: Seq<u8>,
    r: Result<[u8; KEY_SIZE], KeyError>,
)
    requires
        1 <= cpus < 0x1_0000_0000,
        is_derivation(settings_for(cpus), password, salt, r),
    ensures
        r is Ok <==> cpus <= 32768 && vstd::utf8::encode_utf8(password).len() < 0x1_0000_0000,
        r matches Ok(key) ==> key@ == argon2id(
            262144,
            12,
            cpus as u32,
            vstd::utf8::encode_utf8(password),
            salt,
            32,
        ),
        r matches Err(e) ==> e == (if cpus <= 32768 {
            KeyError::PasswordTooLong
        } else {
            KeyError::InvalidSettings
        }),
{
}

/// The key that `password` and `salt` give under the settings.
pub fn derive_key_with(
    settings: &Argon2Settings,
    password: &str,
    salt: &[u8; SALT_SIZE],
) -> (r: Result<[u8; KEY_SIZE], KeyError>)
    ensures
        r is Ok <==> settings.accepted() && vstd::utf8::encode_utf8(password@).len()
            <= MAX_PASSWORD_LEN,
        r matches Ok(key) ==> key@ == derived_key(*settings, password@, salt@),
        r matches Err(e) ==> e == (if settings.accepted() {
            KeyError::PasswordTooLong
        } else {
            KeyError::InvalidSettings
        }),
{
    if settings.time_cost == 0 || settings.lanes == 0 || settings.lanes > MAX_LANES
        || settings.lanes > settings.mem_cost / 8 {
        return Err(KeyError::InvalidSettings);
    }
    match argon2id_hash::<KEY_SIZE>(settings, password.as_bytes(), salt.as_slice()) {
        Ok(key) => Ok(key),
        Err(_) => Err(KeyError::PasswordTooLong),
    }
}

/// The key that `password` and `salt` give on this machine.
pub fn derive_key(password: &str, salt: &[u8; SALT_SIZE]) -> (r: Result<
    [u8; KEY_SIZE],
    KeyError,
>)
    ensures
        r matches Ok(key) ==> exists|cpus: nat|
            (#[trigger] settings_for(cpus)).accepted() && key@ == derived_key(
                settings_for(cpus),
                password@,
                salt@,
            ),
        vstd::utf8::encode_utf8(password@).len() > MAX_PASSWORD_LEN ==> r is Err,
        r matches Err(e) ==> e == KeyError::InvalidSettings || (e == KeyError::PasswordTooLong
            && vstd::utf8::encode_utf8(password@).len() > MAX_PASSWORD_LEN),
        exists|cpus: usize| #[trigger]
            is_cpu_count(cpus) && is_derivation(settings_for(cpus as nat), password@, salt@, r),
{
    match build_argon2() {
        Ok(settings) => derive_key_with(&settings, password, salt),
        Err(e) => Err(e),
    }
}

} // verus!
