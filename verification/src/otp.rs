//! The OTP engine: HMAC-based dynamic truncation over a counter value
//! (RFC 4226), with the counter either stored (HOTP) or derived from the
//! wall clock (TOTP).

use vstd::prelude::*;

use crate::codec::b32_decode;
use crate::codec::base32_decode;
use crate::error::OtpError;
use crate::text::chars_to_string;
use crate::text::format_padded;
use crate::text::is_digit_char;
use crate::text::padded_decimal;

verus! {

/// The hash function an account's HMAC uses.
#[derive(Copy, Clone, Debug, PartialEq, Eq, Structural)]
pub enum Algorithm {
    Sha1,
    Sha256,
    Sha384,
    Sha512,
}

impl Algorithm {
    /// The HMAC tag length in bytes for this hash.
    pub open spec fn digest_len(self) -> nat {
        match self {
            Algorithm::Sha1 => 20,
            Algorithm::Sha256 => 32,
            Algorithm::Sha384 => 48,
            Algorithm::Sha512 => 64,
        }
    }
}

/// The HMAC tag that `alg` with `key` assigns to `msg`; it depends on the
/// three arguments alone.
pub uninterp spec fn hmac_of(alg: Algorithm, key: Seq<u8>, msg: Seq<u8>) -> Seq<u8>;

/// Relies on `ring::hmac::sign` (with `ring::hmac::Key::new`): the tag is a
/// function of the algorithm, key and message alone, and its length is the
/// hash's digest length (20, 32, 48 or 64 bytes). ring refuses only inputs
/// beyond the hash's internal length bound, far above what the `requires`
/// admits.
#[verifier::external_body]
fn hmac_sign(alg: Algorithm, key: &Vec<u8>, msg: &Vec<u8>) -> (r: Vec<u8>)
    requires
        key@.len() < 0x1000000000000000,
        msg@.len() < 0x1000000000000000,
    ensures
        r@ == hmac_of(alg, key@, msg@),
        r@.len() == alg.digest_len(),
{
    let a = match alg {
        Algorithm::Sha1 => ring::hmac::HMAC_SHA1_FOR_LEGACY_USE_ONLY,
        Algorithm::Sha256 => ring::hmac::HMAC_SHA256,
        Algorithm::Sha384 => ring::hmac::HMAC_SHA384,
        Algorithm::Sha512 => ring::hmac::HMAC_SHA512,
    };
    let k = ring::hmac::Key::new(a, key.as_slice());
    ring::hmac::sign(&k, msg.as_slice()).as_ref().to_vec()
}

/// Relies on `std::time::SystemTime::now` / `duration_since` / `as_secs`:
/// whole seconds since the Unix epoch. Nothing is assumed of the value; a
/// clock before the epoch reads as zero.
#[verifier::external_body]
fn unix_time_secs() -> u64 {
    std::time::SystemTime::now()
        .duration_since(std::time::SystemTime::UNIX_EPOCH)
        .map(|d| d.as_secs())
        .unwrap_or(0)
}

/// The TOTP counter for a clock reading: the index of its 30-second
/// window since the epoch.
pub fn time_window(secs: u64) -> (r: u64)
    ensures
        r == secs / 30,
{
    secs / 30
}

/// Ten to the `n`th power.
pub open spec fn pow10(n: nat) -> nat
    decreases n,
{
    if n == 0 {
        1
    } else {
        10 * pow10((n - 1) as nat)
    }
}

proof fn lemma_pow10_bound(n: nat)
    requires
        n <= 9,
    ensures
        pow10(n) >= 1,
        n <= 9 ==> pow10(n) <= 1000000000,
        n <= 8 ==> pow10(n) <= 100000000,
        n <= 7 ==> pow10(n) <= 10000000,
        n <= 6 ==> pow10(n) <= 1000000,
        n <= 5 ==> pow10(n) <= 100000,
        n <= 4 ==> pow10(n) <= 10000,
        n <= 3 ==> pow10(n) <= 1000,
        n <= 2 ==> pow10(n) <= 100,
        n <= 1 ==> pow10(n) <= 10,
    decreases n,
{
    if n > 0 {
        lemma_pow10_bound((n - 1) as nat);
    }
}

/// Ten to the `n`th power, executable.
pub fn pow10_of(n: usize) -> (r: u32)
    requires
        n <= 9,
    ensures
        r as nat == pow10(n as nat),
        r >= 1,
    decreases n,
{
    if n == 0 {
        1
    } else {
        let p = pow10_of(n - 1);
        proof {
            lemma_pow10_bound((n - 1) as nat);
        }
        10 * p
    }
}

/// The counter serialized as eight big-endian bytes.
pub open spec fn be64(x: u64) -> Seq<u8> {
    seq![
        ((x as nat / 0x100000000000000) % 256) as u8,
        ((x as nat / 0x1000000000000) % 256) as u8,
        ((x as nat / 0x10000000000) % 256) as u8,
        ((x as nat / 0x100000000) % 256) as u8,
        ((x as nat / 0x1000000) % 256) as u8,
        ((x as nat / 0x10000) % 256) as u8,
        ((x as nat / 0x100) % 256) as u8,
        (x as nat % 256) as u8,
    ]
}

/// Serialize `x` as eight big-endian bytes.
pub fn be64_bytes(x: u64) -> (r: Vec<u8>)
    ensures
        r@ == be64(x),
{
    let mut r: Vec<u8> = Vec::new();
    r.push(((x / 0x100000000000000) % 256) as u8);
    r.push(((x / 0x1000000000000) % 256) as u8);
    r.push(((x / 0x10000000000) % 256) as u8);
    r.push(((x / 0x100000000) % 256) as u8);
    r.push(((x / 0x1000000) % 256) as u8);
    r.push(((x / 0x10000) % 256) as u8);
    r.push(((x / 0x100) % 256) as u8);
    r.push((x % 256) as u8);
    proof {
        assert(r@ =~= be64(x));
    }
    r
}

/// The dynamic-truncation offset: the low four bits of the tag's last byte.
pub open spec fn dt_offset(tag: Seq<u8>) -> int {
    (tag[tag.len() - 1] & 0x0f) as int
}

/// The 31-bit dynamic binary code: four bytes of the tag starting at the
/// offset, big-endian, the first masked to seven bits.
pub open spec fn dbc(tag: Seq<u8>) -> nat {
    let off = dt_offset(tag);
    (tag[off] & 0x7f) as nat * 0x1000000 + tag[off + 1] as nat * 0x10000 + tag[off + 2] as nat
        * 0x100 + tag[off + 3] as nat
}

/// The finished code for a tag: the dynamic binary code reduced modulo
/// `10^length`, rendered as exactly `length` decimal digits.
pub open spec fn code_chars(tag: Seq<u8>, length: nat) -> Seq<char> {
    padded_decimal(dbc(tag) % pow10(length), length)
}

/// The HOTP code for the given inputs: dynamic truncation of the HMAC tag
/// over the big-endian counter.
pub open spec fn hotp_chars(alg: Algorithm, key: Seq<u8>, counter: u64, length: nat) -> Seq<char> {
    code_chars(hmac_of(alg, key, be64(counter)), length)
}

/// A stateless OTP generator, built from an account's fields. It never
/// mutates a stored counter; advancing the counter after a successful HOTP
/// generation is the caller's side of the contract.
#[derive(Clone, Debug)]
pub struct Otp {
    pub key: Vec<u8>,
    pub totp: bool,
    pub counter: u64,
    pub length: usize,
    pub algorithm: Algorithm,
}

impl Otp {
    /// The inputs `generate` is defined on: a practical digit count and a
    /// key below the crypto backend's input bound.
    pub open spec fn wf(self) -> bool {
        &&& 1 <= self.length <= 9
        &&& self.key@.len() < 0x1000000000000000
    }

    /// Build a generator from a Base32-encoded secret; fails with
    /// `InvalidKey` exactly when the secret is not valid unpadded Base32.
    /// A missing counter reads as zero.
    pub fn new(key: &str, algorithm: Algorithm, totp: bool, counter: Option<u64>, length: usize)
        -> (r: Result<Otp, OtpError>)
        requires
            1 <= length <= 9,
            key@.len() < 0x1000000000000000,
        ensures
            r is Ok <==> b32_decode(key@) is Some,
            r is Err ==> r->Err_0 is InvalidKey,
            r is Ok ==> {
                let o = r->Ok_0;
                &&& o.key@ == b32_decode(key@)->0
                &&& o.totp == totp
                &&& o.counter == (if counter is Some { counter->0 } else { 0u64 })
                &&& o.length == length
                &&& o.algorithm == algorithm
                &&& o.wf()
            },
    {
        match base32_decode(key) {
            Some(bytes) => Ok(Otp {
                key: bytes,
                totp,
                counter: match counter {
                    Some(c) => c,
                    None => 0,
                },
                length,
                algorithm,
            }),
            None => Err(OtpError::InvalidKey),
        }
    }

    /// The counter value a code is generated for: the stored counter for
    /// HOTP; for TOTP the 30-second window index of the current clock
    /// reading, so at most `u64::MAX / 30`.
    pub fn counter(&self) -> (r: u64)
        ensures
            !self.totp ==> r == self.counter,
            self.totp ==> r <= u64::MAX / 30,
    {
        if self.totp {
            let now = unix_time_secs();
            proof {
                assert(now / 30 <= u64::MAX / 30) by (nonlinear_arith)
                    requires now <= u64::MAX;
            }
            time_window(now)
        } else {
            self.counter
        }
    }

    /// Generate the code: always exactly `length` decimal digits; for an
    /// HOTP generator the code is a pure function of key, algorithm,
    /// counter and length.
    pub fn generate(&self) -> (r: String)
        requires
            self.wf(),
        ensures
            r@.len() == self.length,
            forall|i: int| 0 <= i < r@.len() ==> is_digit_char(#[trigger] r@[i]),
            !self.totp ==> r@ == hotp_chars(self.algorithm, self.key@, self.counter,
                self.length as nat,
            ),
            self.totp ==> exists|c: u64| c <= u64::MAX / 30 && r@ == hotp_chars(
                self.algorithm,
                self.key@,
                c,
                self.length as nat,
            ),
            exists|c: u64| r@ == hotp_chars(self.algorithm, self.key@, c, self.length as nat),
    {
        let counter = self.counter();
        let value = be64_bytes(counter);
        let tag = hmac_sign(self.algorithm, &self.key, &value);
        let out = self.compute(tag.as_slice());
        proof {
            assert(out@ == hotp_chars(self.algorithm, self.key@, counter, self.length as nat));
        }
        out
    }

    /// Dynamic truncation and decimal formatting of a raw HMAC tag.
    pub fn compute(&self, tag: &[u8]) -> (r: String)
        requires
            self.wf(),
            tag@.len() >= 20,
        ensures
            r@ == code_chars(tag@, self.length as nat),
            r@.len() == self.length,
            forall|i: int| 0 <= i < r@.len() ==> is_digit_char(#[trigger] r@[i]),
    {
        let bin = dynamic_binary_code(tag);
        let modulus = pow10_of(self.length);
        let out = format_padded(bin % modulus, self.length);
        proof {
            crate::text::lemma_padded_decimal_shape((dbc(tag@) % pow10(self.length as nat)), self.length as nat);
        }
        chars_to_string(&out)
    }
}

/// Determinism of HOTP generation: the code is a function of key,
/// algorithm, counter and length alone, so any two generations for the
/// same inputs yield the same string.
pub proof fn lemma_hotp_code_deterministic(
    alg: Algorithm,
    key: Seq<u8>,
    counter: u64,
    length: nat,
    r1: Seq<char>,
    r2: Seq<char>,
)
    requires
        r1 == hotp_chars(alg, key, counter, length),
        r2 == hotp_chars(alg, key, counter, length),
    ensures
        r1 == r2,
{
}

/// The 31-bit dynamic binary code of a tag, before the modulo step.
pub fn dynamic_binary_code(tag: &[u8]) -> (r: u32)
    requires
        tag@.len() >= 20,
    ensures
        r as nat == dbc(tag@),
        r < 0x80000000,
{
    let last = tag[tag.len() - 1];
    proof {
        assert(last & 0x0f <= 0x0f) by (bit_vector);
    }
    let offset = (last & 0x0f) as usize;
    let first = tag[offset];
    proof {
        assert(first & 0x7f <= 0x7f) by (bit_vector);
    }
    let b0 = (first & 0x7f) as u32;
    let b1 = tag[offset + 1] as u32;
    let b2 = tag[offset + 2] as u32;
    let b3 = tag[offset + 3] as u32;
    b0 * 0x1000000 + b1 * 0x10000 + b2 * 0x100 + b3
}

} // verus!
