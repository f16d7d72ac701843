use argon2::Algorithm;
use argon2::Argon2;
use argon2::Params;
use argon2::Version;
use blake2::digest::consts::U16;
use blake2::digest::Mac;
use blake2::Blake2bMac;
use vstd::prelude::*;

verus! {

// The whole chain is frozen for compatibility with the stock client. None of
// these numbers may be tuned, however weak they look: changing any of them
// makes every existing client fail the password check.
pub const SALT_KEY: [u8; 16] = [
    0xEB, 0x52, 0x1D, 0x14, 0x87, 0xA8, 0xB8, 0x61, 0x07, 0xF0, 0x30, 0x6D, 0x08, 0x22, 0x9E, 0x20,
];

/// 32768 bytes, in the 1 KiB blocks Argon2 counts in.
pub const M_COST_KIB: u32 = 32;

pub const T_COST: u32 = 2;

pub const P_COST: u32 = 1;

pub const OUTPUT_LEN: usize = 32;

/// The 16-byte BLAKE2b code of some data under a key.
pub uninterp spec fn blake2b_mac(key: Seq<u8>, data: Seq<u8>) -> Seq<u8>;

/// `blake2::Blake2bMac` with a 16-byte output: the keyed hash of the data. A
/// key of more than 64 bytes is refused there.
#[verifier::external_body]
fn keyed_digest(key: &[u8], data: &[u8]) -> (r: Vec<u8>)
    requires
        key@.len() <= 64,
    ensures
        r@ == blake2b_mac(key@, data@),
        r@.len() == 16,
{
    let mut mac = Blake2bMac::<U16>::new_from_slice(key).expect("the key is short enough");
    mac.update(data);
    mac.finalize().into_bytes().to_vec()
}

/// The Argon2id hash, version 0x13, of a password: the memory in KiB, the
/// passes, the lanes, the length of the hash, the password and the salt.
pub uninterp spec fn argon2id(
    m_cost: u32,
    t_cost: u32,
    p_cost: u32,
    len: usize,
    password: Seq<u8>,
    salt: Seq<u8>,
) -> Seq<u8>;

/// `argon2::Argon2::hash_password_into`, for Argon2id version 0x13. It refuses
/// parameters, salts and passwords out of its range.
#[verifier::external_body]
fn argon2id_hash(
    m_cost: u32,
    t_cost: u32,
    p_cost: u32,
    len: usize,
    password: &[u8],
    salt: &[u8],
) -> (r: Vec<u8>)
    requires
        1 <= p_cost <= 0xff_ffff,
        8 * p_cost <= m_cost,
        1 <= t_cost,
        4 <= len <= 0xffff_ffff,
        password@.len() <= 0xffff_ffff,
        8 <= salt@.len() <= 0xffff_ffff,
    ensures
        r@ == argon2id(m_cost, t_cost, p_cost, len, password@, salt@),
        r@.len() == len,
{
    let params = Params::new(m_cost, t_cost, p_cost, Some(len)).expect("in range");
    let mut out = vec![0u8; len];
    Argon2::new(Algorithm::Argon2id, Version::V0x13, params)
        .hash_password_into(password, salt, &mut out)
        .expect("in range");
    out
}

/// The upper-case hexadecimal digit for a number below sixteen.
pub open spec fn hex_digit(n: nat) -> char {
    if n < 10 {
        (('0' as u32) + n) as char
    } else {
        (('A' as u32) + n - 10) as char
    }
}

/// Two upper-case hexadecimal digits for each byte.
pub open spec fn upper_hex(bytes: Seq<u8>) -> Seq<char> {
    Seq::new(
        2 * bytes.len(),
        |i: int|
            hex_digit(
                if i % 2 == 0 {
                    bytes[i / 2] as nat / 16
                } else {
                    bytes[i / 2] as nat % 16
                },
            ),
    )
}

/// `hex::encode_upper`: two upper-case hexadecimal digits for each byte, the
/// high half first.
#[verifier::external_body]
pub(crate) fn hex_text(bytes: &[u8]) -> (r: String)
    ensures
        r@ == upper_hex(bytes@),
{
    hex::encode_upper(bytes)
}

/// What the stock client makes of a password and a salt.
pub open spec fn hashed(input: Seq<char>, salt: Seq<u8>) -> Seq<char> {
    if input.len() == 0 {
        Seq::empty()
    } else {
        upper_hex(
            argon2id(
                M_COST_KIB,
                T_COST,
                P_COST,
                OUTPUT_LEN,
                vstd::utf8::encode_utf8(input),
                blake2b_mac(SALT_KEY@, salt),
            ),
        )
    }
}

/// Upper-case hexadecimal, or nothing for an empty input: that is what makes a
/// server with no password accept the empty password every direct client sends.
pub fn hash(input: &str, salt: &[u8]) -> (r: String)
    requires
        vstd::utf8::encode_utf8(input@).len() <= 0xffff_ffff,
    ensures
        r@ == hashed(input@, salt@),
{
    if input.is_empty() {
        return String::new();
    }
    let derived = keyed_digest(SALT_KEY.as_slice(), salt);
    let out = argon2id_hash(
        M_COST_KIB,
        T_COST,
        P_COST,
        OUTPUT_LEN,
        input.as_bytes(),
        derived.as_slice(),
    );
    hex_text(out.as_slice())
}

/// A server without a password asks for the empty one.
pub proof fn no_password_is_empty(salt: Seq<u8>)
    ensures
        hashed(Seq::empty(), salt) == Seq::<char>::empty(),
{
}

} // verus!
