//! The suffix of a container's name, taken from the time.

use crate::bytes::push_le;
use crate::text::from_chars;
use std::collections::hash_map::DefaultHasher;
use std::hash::Hasher;
use vstd::prelude::*;
use vstd::std_specs::hash::DefaultHasherAdditionalSpecFns;

verus! {

/// Characters in a suffix.
pub const SUFFIX_LEN: usize = 8;

/// A point in time (`std::time::SystemTime`).
#[verifier::external_type_specification]
#[verifier::external_body]
pub struct ExSystemTime(std::time::SystemTime);

/// The error of a clock that stands before the Unix epoch.
#[verifier::external_type_specification]
#[verifier::external_body]
pub struct ExSystemTimeError(std::time::SystemTimeError);

/// `SystemTime::now`. Nothing is claimed of the time.
pub assume_specification[ std::time::SystemTime::now ]() -> std::time::SystemTime
;

/// `SystemTime::duration_since` the Unix epoch. It fails where the clock
/// stands before the epoch; nothing is claimed of the time.
#[verifier::external_body]
fn since_epoch(time: &std::time::SystemTime) -> (r: Result<
    std::time::Duration,
    std::time::SystemTimeError,
>) {
    time.duration_since(std::time::SystemTime::UNIX_EPOCH)
}

/// `Duration::as_nanos`. Nothing is claimed of the span.
pub assume_specification[ std::time::Duration::as_nanos ](span: &std::time::Duration) -> u128
;

/// The hexadecimal digit with the value `d`.
pub open spec fn hex_digit(d: nat) -> char {
    if d < 10 {
        (0x30 + d) as char
    } else {
        (0x57 + d) as char
    }
}

/// `n` in lower-case hexadecimal, with leading zeros up to `width` digits.
pub open spec fn hex(n: nat, width: nat) -> Seq<char>
    decreases n + width,
{
    if n == 0 && width == 0 {
        Seq::empty()
    } else {
        hex(
            n / 16,
            if width == 0 {
                0
            } else {
                (width - 1) as nat
            },
        ).push(hex_digit(n % 16))
    }
}

/// The suffix for a hash: its first eight hexadecimal digits, where a hash of
/// fewer digits has leading zeros up to eight.
pub open spec fn suffix_of(hash: u64) -> Seq<char> {
    hex(hash as nat, SUFFIX_LEN as nat).take(SUFFIX_LEN as int)
}

/// What the standard hasher makes of a number of nanoseconds, written to it in
/// one piece.
pub open spec fn hash_of(nanos: u128) -> u64 {
    DefaultHasher::spec_finish(seq![crate::bytes::le_bytes(nanos as nat, 16)])
}

/// The suffix for a point in time, in nanoseconds since the Unix epoch. A time
/// before the epoch counts as the epoch.
pub open spec fn suffix_at(nanos: Option<u128>) -> Seq<char> {
    suffix_of(
        hash_of(
            match nanos {
                Some(n) => n,
                None => 0,
            },
        ),
    )
}

proof fn lemma_hex_len(n: nat, width: nat)
    ensures
        hex(n, width).len() >= width,
        forall|i: int|
            0 <= i < hex(n, width).len() ==> ('0' <= #[trigger] hex(n, width)[i] <= '9') || ('a'
                <= hex(n, width)[i] <= 'f'),
    decreases n + width,
{
    if n != 0 || width != 0 {
        lemma_hex_len(
            n / 16,
            if width == 0 {
                0
            } else {
                (width - 1) as nat
            },
        );
    }
}

/// `c` is the lower-case hexadecimal digit with the value `v`: one of `0` to `9`
/// and then of `a` to `f`.
pub open spec fn shows_digit(c: char, v: int) -> bool {
    &&& 0 <= v < 16
    &&& v < 10 ==> c as int == 48 + v
    &&& v >= 10 ==> c as int == 97 + (v - 10)
}

proof fn lemma_hex_digits(n: nat, width: nat)
    ensures
        n < vstd::arithmetic::power::pow(16, hex(n, width).len()),
        hex(n, width).len() > width ==> n >= vstd::arithmetic::power::pow(
            16,
            (hex(n, width).len() - 1) as nat,
        ),
        forall|i: nat|
            i < hex(n, width).len() ==> shows_digit(
                #[trigger] hex(n, width)[hex(n, width).len() - 1 - i],
                (n as int / vstd::arithmetic::power::pow(16, i)) % 16,
            ),
    decreases n + width,
{
    let digits = hex(n, width);
    vstd::arithmetic::power::lemma_pow0(16);
    lemma_hex_len(n, width);
    if n != 0 || width != 0 {
        let fewer: nat = if width == 0 {
            0
        } else {
            (width - 1) as nat
        };
        lemma_hex_digits(n / 16, fewer);
        let front = hex(n / 16, fewer);
        let k = front.len();
        assert(digits == front.push(hex_digit(n % 16)));
        assert(vstd::arithmetic::power::pow(16, (k + 1) as nat) == 16
            * vstd::arithmetic::power::pow(16, k)) by {
            reveal(vstd::arithmetic::power::pow);
        }
        if k > 0 {
            assert(vstd::arithmetic::power::pow(16, k) == 16 * vstd::arithmetic::power::pow(
                16,
                (k - 1) as nat,
            )) by {
                reveal(vstd::arithmetic::power::pow);
            }
        }
        assert forall|i: nat| i < digits.len() implies shows_digit(
            #[trigger] digits[digits.len() - 1 - i],
            (n as int / vstd::arithmetic::power::pow(16, i)) % 16,
        ) by {
            if i > 0 {
                let p = vstd::arithmetic::power::pow(16, (i - 1) as nat);
                vstd::arithmetic::power::lemma_pow_positive(16, (i - 1) as nat);
                assert(vstd::arithmetic::power::pow(16, i) == 16 * p) by {
                    reveal(vstd::arithmetic::power::pow);
                }
                vstd::arithmetic::div_mod::lemma_div_denominator(n as int, 16, p);
                assert(digits[digits.len() - 1 - i] == front[k - 1 - (i - 1)]);
                assert(shows_digit(front[k - 1 - (i - 1)], ((n / 16) as int / p) % 16));
            }
        }
    }
}

/// A suffix is the eight highest digits of the hash to the base 16, in order,
/// where a hash of fewer digits counts with zeros in front.
pub proof fn law_suffix_is_the_highest_digits(hash: u64, digits: nat, i: nat)
    requires
        digits >= 8,
        hash < vstd::arithmetic::power::pow(16, digits),
        digits > 8 ==> hash >= vstd::arithmetic::power::pow(16, (digits - 1) as nat),
        i < 8,
    ensures
        shows_digit(
            suffix_of(hash)[i as int],
            (hash as int / vstd::arithmetic::power::pow(16, (digits - 1 - i) as nat)) % 16,
        ),
{
    let all = hex(hash as nat, 8);
    let k = all.len();
    lemma_hex_len(hash as nat, 8);
    lemma_hex_digits(hash as nat, 8);
    if k < digits {
        vstd::arithmetic::power::lemma_pow_increases(16, k, (digits - 1) as nat);
    }
    if k > digits {
        vstd::arithmetic::power::lemma_pow_increases(16, digits, (k - 1) as nat);
    }
    let j = (digits - 1 - i) as nat;
    assert(all[all.len() - 1 - j] == suffix_of(hash)[i as int]);
}

/// The suffix of a time comes from the standard hasher, handed the nanoseconds
/// in sixteen bytes, the lowest first, in one piece; a time before the epoch has
/// the suffix of the epoch.
pub proof fn law_suffix_of_a_time(nanos: u128, bytes: Seq<u8>)
    requires
        bytes.len() == 16,
        forall|i: nat|
            i < 16 ==> #[trigger] bytes[i as int] as int == (nanos as int
                / vstd::arithmetic::power::pow(256, i)) % 256,
    ensures
        suffix_at(Some(nanos)) == suffix_of(DefaultHasher::spec_finish(seq![bytes])),
        suffix_at(None) == suffix_at(Some(0)),
{
    let own = crate::bytes::le_bytes(nanos as nat, 16);
    crate::bytes::lemma_le_bytes_len(nanos as nat, 16);
    assert forall|i: int| 0 <= i < 16 implies own[i] == bytes[i] by {
        crate::bytes::law_le_digit(nanos as nat, 16, i as nat);
        assert(bytes[(i as nat) as int] as int == (nanos as int / vstd::arithmetic::power::pow(
            256,
            i as nat,
        )) % 256);
    }
    assert(own =~= bytes);
}

/// Every suffix has eight characters, each of them a lower-case hexadecimal
/// digit.
pub proof fn law_suffix_shape(hash: u64)
    ensures
        suffix_of(hash).len() == SUFFIX_LEN,
        forall|i: int|
            0 <= i < SUFFIX_LEN ==> ('0' <= #[trigger] suffix_of(hash)[i] <= '9') || ('a'
                <= suffix_of(hash)[i] <= 'f'),
{
    lemma_hex_len(hash as nat, SUFFIX_LEN as nat);
}

/// The hexadecimal digit with the value `d`.
fn hex_digit_char(d: u8) -> (c: char)
    requires
        d < 16,
    ensures
        c == hex_digit(d as nat),
{
    if d < 10 {
        (0x30 + d) as char
    } else {
        (0x57 + d) as char
    }
}

/// The digits of `n`, with leading zeros up to `width` digits.
fn hex_chars(n: u64, width: usize) -> (digits: Vec<char>)
    ensures
        digits@ == hex(n as nat, width as nat),
    decreases n + width,
{
    if n == 0 && width == 0 {
        return Vec::new();
    }
    let fewer: usize = if width == 0 {
        0
    } else {
        width - 1
    };
    let mut digits = hex_chars(n / 16, fewer);
    digits.push(hex_digit_char((n % 16) as u8));
    digits
}

/// The suffix for a hash.
pub fn hash_suffix(hash: u64) -> (r: String)
    ensures
        r@ == suffix_of(hash),
{
    proof {
        lemma_hex_len(hash as nat, SUFFIX_LEN as nat);
    }
    let digits = hex_chars(hash, SUFFIX_LEN);
    let r = from_chars(&digits, 0, SUFFIX_LEN);
    assert(r@ =~= suffix_of(hash));
    r
}

/// The suffix for a point in time, in nanoseconds since the Unix epoch, and
/// nothing where it is before the epoch.
pub fn date_hash_at(nanos: Option<u128>) -> (r: String)
    ensures
        r@ == suffix_at(nanos),
{
    let n: u128 = match nanos {
        Some(n) => n,
        None => 0,
    };
    let mut bytes: Vec<u8> = Vec::new();
    push_le(&mut bytes, n, 16);
    let mut hasher = DefaultHasher::new();
    hasher.write(bytes.as_slice());
    proof {
        assert(bytes@ =~= crate::bytes::le_bytes(n as nat, 16));
        assert(hasher@ =~= seq![crate::bytes::le_bytes(n as nat, 16)]);
    }
    hash_suffix(hasher.finish())
}

/// `nanos` is what the clock showed, in nanoseconds since the Unix epoch, and
/// nothing where it showed a time before the epoch.
pub closed spec fn is_clock_time(nanos: Option<u128>) -> bool {
    exists|now: std::time::SystemTime| #[trigger]
        call_ensures(std::time::SystemTime::now, (), now) && match nanos {
            Some(n) => exists|span: std::time::Duration| #[trigger]
                call_ensures(
                    since_epoch,
                    (&now,),
                    Ok::<std::time::Duration, std::time::SystemTimeError>(span),
                ) && call_ensures(std::time::Duration::as_nanos, (&span,), n),
            None => exists|e: std::time::SystemTimeError| #[trigger]
                call_ensures(
                    since_epoch,
                    (&now,),
                    Err::<std::time::Duration, std::time::SystemTimeError>(e),
                ),
        }
}

/// What the clock showed is the outcome of asking it for the time and counting
/// the nanoseconds since the epoch, or of there being none to count.
proof fn law_clock_time(nanos: u128)
    ensures
        is_clock_time(Some(nanos)) ==> exists|
            now: std::time::SystemTime,
            span: std::time::Duration,
        |
            call_ensures(std::time::SystemTime::now, (), now) && #[trigger] call_ensures(
                since_epoch,
                (&now,),
                Ok::<std::time::Duration, std::time::SystemTimeError>(span),
            ) && call_ensures(std::time::Duration::as_nanos, (&span,), nanos),
        is_clock_time(None) ==> exists|
            now: std::time::SystemTime,
            e: std::time::SystemTimeError,
        |
            call_ensures(std::time::SystemTime::now, (), now) && #[trigger] call_ensures(
                since_epoch,
                (&now,),
                Err::<std::time::Duration, std::time::SystemTimeError>(e),
            ),
{
}

/// The suffix for the current time: the first eight hexadecimal digits of its
/// hash. Which time it is rests with the clock.
pub fn date_hash() -> (r: String)
    ensures
        exists|nanos: Option<u128>| r@ == #[trigger] suffix_at(nanos),
        r@.len() == SUFFIX_LEN,
        exists|nanos: Option<u128>| #[trigger] is_clock_time(nanos) && r@ == suffix_at(nanos),
{
    let clock = std::time::SystemTime::now;
    let since = since_epoch;
    let count = std::time::Duration::as_nanos;
    let now = clock();
    let nanos: Option<u128> = match since(&now) {
        Ok(span) => {
            let n: u128 = count(&span);
            assert(call_ensures(
                since_epoch,
                (&now,),
                Ok::<std::time::Duration, std::time::SystemTimeError>(span),
            ));
            Some(n)
        },
        Err(e) => {
            assert(call_ensures(
                since_epoch,
                (&now,),
                Err::<std::time::Duration, std::time::SystemTimeError>(e),
            ));
            None
        },
    };
    assert(is_clock_time(nanos));
    proof {
        law_suffix_shape(
            hash_of(
                match nanos {
                    Some(n) => n,
                    None => 0,
                },
            ),
        );
    }
    date_hash_at(nanos)
}

} // verus!
