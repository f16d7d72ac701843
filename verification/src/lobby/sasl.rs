//! The password an account logs in with. The stock client hashes what was
//! typed before it authenticates, so the lobby server stores the hashed form
//! and whoever logs in must hash the same way. None of these numbers may be
//! changed, nor the block of 32 bytes where the standard has 64.

use sha2::Digest;
use sha2::Sha256;
use vstd::prelude::*;

use crate::relay::password;

verus! {

pub const DIGEST_SIZE: usize = 32;

pub const ITERATIONS: u32 = 1337;

pub const SALT_BASE: [u8; 32] = [
    244, 243, 249, 244, 32, 33, 34, 35, 10, 11, 12, 13, 14, 15, 16, 17, 18, 19, 20, 32, 33, 244,
    224, 127, 129, 130, 140, 153, 133, 123, 234, 123,
];

/// The SHA-256 digest of some data.
pub uninterp spec fn sha256(data: Seq<u8>) -> Seq<u8>;

/// `sha2::Sha256::digest`: the digest of the data, 32 bytes long.
#[verifier::external_body]
fn digest(data: &[u8]) -> (r: Vec<u8>)
    ensures
        r@ == sha256(data@),
        r@.len() == 32,
{
    Sha256::digest(data).to_vec()
}

/// A key brought to the size of a block.
pub open spec fn key_block(key: Seq<u8>) -> Seq<u8> {
    if key.len() > DIGEST_SIZE {
        sha256(key)
    } else {
        key + Seq::new((DIGEST_SIZE - key.len()) as nat, |i: int| 0u8)
    }
}

/// Every byte with some of its bits turned.
pub open spec fn turned(block: Seq<u8>, bits: u8) -> Seq<u8> {
    block.map_values(|b: u8| b ^ bits)
}

/// The keyed digest the stock client has.
pub open spec fn keyed(text: Seq<u8>, key: Seq<u8>) -> Seq<u8> {
    let block = key_block(key);
    sha256(turned(block, 0x5c) + sha256(turned(block, 0x36) + text))
}

/// The salt an account's name makes.
pub open spec fn salt_of(username: Seq<u8>) -> Seq<u8> {
    sha256(SALT_BASE@ + username)
}

/// The block after as many rounds.
pub open spec fn block_after(key: Seq<u8>, salt: Seq<u8>, rounds: nat) -> Seq<u8>
    decreases rounds,
{
    if rounds == 0 {
        keyed(salt + seq![0u8, 0u8, 0u8, 1u8], key)
    } else {
        keyed(block_after(key, salt, (rounds - 1) as nat), key)
    }
}

/// Two blocks with every bit that is set in just one of them.
pub open spec fn mixed(a: Seq<u8>, b: Seq<u8>) -> Seq<u8> {
    Seq::new(a.len(), |i: int| a[i] ^ b[i])
}

/// Everything the rounds made, mixed.
pub open spec fn stretched(key: Seq<u8>, salt: Seq<u8>, rounds: nat) -> Seq<u8>
    decreases rounds,
{
    if rounds == 0 {
        block_after(key, salt, 0)
    } else {
        mixed(stretched(key, salt, (rounds - 1) as nat), block_after(key, salt, rounds))
    }
}

/// What an account logs in with.
pub open spec fn login(password: Seq<u8>, username: Seq<u8>) -> Seq<char> {
    password::upper_hex(stretched(password, salt_of(username), (ITERATIONS - 1) as nat))
}

fn turn(block: &Vec<u8>, bits: u8) -> (r: Vec<u8>)
    ensures
        r@ == turned(block@, bits),
{
    let mut out: Vec<u8> = Vec::new();
    let mut i: usize = 0;
    while i < block.len()
        invariant
            i <= block@.len(),
            out@ == turned(block@, bits).take(i as int),
        decreases block@.len() - i,
    {
        out.push(block[i] ^ bits);
        assert(out@ =~= turned(block@, bits).take(i + 1));
        i += 1;
    }
    assert(turned(block@, bits).take(i as int) =~= turned(block@, bits));
    out
}

fn extend(out: &mut Vec<u8>, data: &[u8])
    ensures
        final(out)@ == old(out)@ + data@,
{
    crate::utils::put_bytes(out, data);
}

fn block_of(key: &[u8]) -> (r: Vec<u8>)
    ensures
        r@ == key_block(key@),
{
    if key.len() > DIGEST_SIZE {
        return digest(key);
    }
    let mut block = vstd::slice::slice_to_vec(key);
    while block.len() < DIGEST_SIZE
        invariant
            key@.len() <= block@.len() <= DIGEST_SIZE,
            block@ == key@ + Seq::new((block@.len() - key@.len()) as nat, |i: int| 0u8),
        decreases DIGEST_SIZE - block@.len(),
    {
        let ghost n = (block@.len() - key@.len()) as nat;
        block.push(0);
        assert(block@ =~= key@ + Seq::new(n + 1, |i: int| 0u8));
    }
    block
}

/// The keyed digest of a text, 32 bytes long.
pub fn hmac_sha256_nonstandard(text: &[u8], key: &[u8]) -> (r: Vec<u8>)
    ensures
        r@ == keyed(text@, key@),
        r@.len() == 32,
{
    let block = block_of(key);
    let mut inner = turn(&block, 0x36);
    extend(&mut inner, text);
    let inner_hash = digest(inner.as_slice());
    let mut outer = turn(&block, 0x5c);
    extend(&mut outer, inner_hash.as_slice());
    digest(outer.as_slice())
}

fn mix(a: &Vec<u8>, b: &Vec<u8>) -> (r: Vec<u8>)
    requires
        a@.len() == b@.len(),
    ensures
        r@ == mixed(a@, b@),
{
    let mut out: Vec<u8> = Vec::new();
    let mut i: usize = 0;
    while i < a.len()
        invariant
            a@.len() == b@.len(),
            i <= a@.len(),
            out@ == mixed(a@, b@).take(i as int),
        decreases a@.len() - i,
    {
        out.push(a[i] ^ b[i]);
        assert(out@ =~= mixed(a@, b@).take(i + 1));
        i += 1;
    }
    assert(mixed(a@, b@).take(i as int) =~= mixed(a@, b@));
    out
}

/// What an account logs in with.
pub fn sasl_password(password: &str, username: &str) -> (r: String)
    ensures
        r@ == login(
            vstd::utf8::encode_utf8(password@),
            vstd::utf8::encode_utf8(username@),
        ),
{
    let mut salted = vstd::slice::slice_to_vec(SALT_BASE.as_slice());
    extend(&mut salted, username.as_bytes());
    let salt = digest(salted.as_slice());
    let key = password.as_bytes();
    let mut first = vstd::slice::slice_to_vec(salt.as_slice());
    first.push(0);
    first.push(0);
    first.push(0);
    first.push(1);
    assert(first@ =~= salt@ + seq![0u8, 0u8, 0u8, 1u8]);
    let mut block = hmac_sha256_nonstandard(first.as_slice(), key);
    let mut out = vstd::slice::slice_to_vec(block.as_slice());
    let mut round: u32 = 1;
    while round < ITERATIONS
        invariant
            1 <= round <= ITERATIONS,
            block@ == block_after(key@, salt@, (round - 1) as nat),
            out@ == stretched(key@, salt@, (round - 1) as nat),
            block@.len() == 32,
            out@.len() == 32,
        decreases ITERATIONS - round,
    {
        block = hmac_sha256_nonstandard(block.as_slice(), key);
        out = mix(&out, &block);
        round += 1;
    }
    password::hex_text(out.as_slice())
}

} // verus!
