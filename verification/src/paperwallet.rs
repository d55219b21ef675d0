//! The scrambling of a paper wallet: the secret xored with a pad that is
//! derived from a password and a four byte initialisation vector.

use crypto::hmac::Hmac;
use crypto::pbkdf2::pbkdf2;
use crypto::sha2::Sha512;
use vstd::prelude::*;

verus! {

/// The number of rounds of the key derivation.
pub const ITERS: u32 = 10000;

/// The length of the initialisation vector that a scrambled text starts with.
pub const IV_SIZE: usize = 4;

/// The length of the salt: the initialisation vector and the four bytes
/// `IOHK`.
pub const SALT_SIZE: usize = 8;

/// The most bytes that the key derivation gives: it counts its blocks of 64
/// bytes in 32 bits.
pub const MAX_PAD: u64 = 0x3f_ffff_ffc0;

/// The key that PBKDF2 with HMAC-SHA512 derives: `len` bytes, from a
/// password, a salt and a number of rounds.
pub uninterp spec fn spec_pbkdf2_hmac_sha512(
    password: Seq<u8>,
    salt: Seq<u8>,
    iterations: u32,
    len: nat,
) -> Seq<u8>;

/// `pbkdf2` of the crate `crypto`, with its `Hmac` over `Sha512` keyed by
/// the password, on a buffer of `len` bytes. The result is the key that the
/// function derives, which is as long as the buffer it is given. The
/// function refuses a count of 0 and more blocks than 32 bits count.
#[verifier::external_body]
fn pbkdf2_hmac_sha512(password: &[u8], salt: &[u8], iterations: u32, len: usize) -> (r: Vec<u8>)
    requires
        iterations > 0,
        len <= MAX_PAD,
    ensures
        r@ == spec_pbkdf2_hmac_sha512(password@, salt@, iterations, len as nat),
        r@.len() == len,
{
    let mut mac = Hmac::new(Sha512::new(), password);
    let mut out = vec![0u8; len];
    pbkdf2(&mut mac, salt, iterations, &mut out);
    out
}

/// The salt of an initialisation vector: the vector and then `IOHK`.
pub open spec fn spec_salt(iv: Seq<u8>) -> Seq<u8> {
    iv + seq![0x49u8, 0x4fu8, 0x48u8, 0x4bu8]
}

/// The pad of `len` bytes that a password and an initialisation vector give.
pub open spec fn spec_pad(iv: Seq<u8>, password: Seq<u8>, len: nat) -> Seq<u8> {
    spec_pbkdf2_hmac_sha512(password, spec_salt(iv), ITERS, len)
}

/// The bytes of `data`, each one xored with the byte of `pad` at its place.
pub open spec fn spec_xor(data: Seq<u8>, pad: Seq<u8>) -> Seq<u8> {
    Seq::new(data.len(), |i: int| data[i] ^ pad[i])
}

/// What `scramble` gives: the initialisation vector, and then the input
/// xored with the pad.
pub open spec fn spec_scramble(iv: Seq<u8>, password: Seq<u8>, input: Seq<u8>) -> Seq<u8> {
    iv + spec_xor(input, spec_pad(iv, password, input.len()))
}

/// What `unscramble` gives: the input without its first four bytes, xored
/// with the pad that these four bytes and the password give.
pub open spec fn spec_unscramble(password: Seq<u8>, input: Seq<u8>) -> Seq<u8> {
    spec_xor(
        input.skip(IV_SIZE as int),
        spec_pad(input.take(IV_SIZE as int), password, (input.len() - IV_SIZE) as nat),
    )
}

/// The pad of `len` bytes that a password and an initialisation vector give.
fn gen(iv: &[u8], password: &[u8], len: usize) -> (r: Vec<u8>)
    requires
        iv@.len() == IV_SIZE,
        len <= MAX_PAD,
    ensures
        r@ == spec_pad(iv@, password@, len as nat),
        r@.len() == len,
{
    let mut salt: Vec<u8> = Vec::new();
    let mut i: usize = 0;
    while i < IV_SIZE
        invariant
            i <= IV_SIZE,
            iv@.len() == IV_SIZE,
            salt@ == iv@.take(i as int),
        decreases IV_SIZE - i,
    {
        salt.push(iv[i]);
        i += 1;
        proof {
            assert(salt@ =~= iv@.take(i as int));
        }
    }
    salt.push(0x49u8);
    salt.push(0x4fu8);
    salt.push(0x48u8);
    salt.push(0x4bu8);
    proof {
        assert(iv@.take(IV_SIZE as int) =~= iv@);
        assert(salt@ =~= spec_salt(iv@));
    }
    pbkdf2_hmac_sha512(password, salt.as_slice(), ITERS, len)
}

/// Given a 4 bytes IV, and a password, scramble the input using a simple
/// XOR, and return the IV prepended to the shielded input.
pub fn scramble(iv: &[u8], password: &[u8], input: &[u8]) -> (out: Vec<u8>)
    requires
        iv@.len() == IV_SIZE,
        input@.len() <= MAX_PAD,
        input@.len() + IV_SIZE <= usize::MAX,
    ensures
        out@ == spec_scramble(iv@, password@, input@),
{
    let sz = IV_SIZE + input.len();
    let pad = gen(iv, password, input.len());
    let mut out: Vec<u8> = Vec::with_capacity(sz);
    let mut i: usize = 0;
    while i < IV_SIZE
        invariant
            i <= IV_SIZE,
            iv@.len() == IV_SIZE,
            out@ == iv@.take(i as int),
        decreases IV_SIZE - i,
    {
        out.push(iv[i]);
        i += 1;
        proof {
            assert(out@ =~= iv@.take(i as int));
        }
    }
    proof {
        assert(iv@.take(IV_SIZE as int) =~= iv@);
    }
    let mut j: usize = 0;
    while j < input.len()
        invariant
            j <= input.len(),
            pad@.len() == input@.len(),
            out@ == iv@ + spec_xor(input@, pad@).take(j as int),
        decreases input.len() - j,
    {
        out.push(input[j] ^ pad[j]);
        j += 1;
        proof {
            assert(out@ =~= iv@ + spec_xor(input@, pad@).take(j as int));
        }
    }
    proof {
        assert(spec_xor(input@, pad@).take(input@.len() as int) =~= spec_xor(input@, pad@));
    }
    out
}

/// Try to reverse the scramble operation, using the first `IV_SIZE` bytes as
/// IV, and the rest as the shielded input.
pub fn unscramble(password: &[u8], input: &[u8]) -> (out: Vec<u8>)
    requires
        input@.len() > IV_SIZE,
        input@.len() - IV_SIZE <= MAX_PAD,
    ensures
        out@ == spec_unscramble(password@, input@),
{
    let out_sz = input.len() - IV_SIZE;
    let mut iv: Vec<u8> = Vec::new();
    let mut i: usize = 0;
    while i < IV_SIZE
        invariant
            i <= IV_SIZE,
            input@.len() > IV_SIZE,
            iv@ == input@.take(i as int),
        decreases IV_SIZE - i,
    {
        iv.push(input[i]);
        i += 1;
        proof {
            assert(iv@ =~= input@.take(i as int));
        }
    }
    let pad = gen(iv.as_slice(), password, out_sz);
    let ghost shielded = input@.skip(IV_SIZE as int);
    let mut out: Vec<u8> = Vec::with_capacity(out_sz);
    let mut j: usize = 0;
    while j < out_sz
        invariant
            j <= out_sz,
            out_sz == input@.len() - IV_SIZE,
            shielded == input@.skip(IV_SIZE as int),
            pad@.len() == out_sz,
            input@.len() > IV_SIZE,
            input@.len() <= usize::MAX,
            out@ == spec_xor(shielded, pad@).take(j as int),
        decreases out_sz - j,
    {
        out.push(input[IV_SIZE + j] ^ pad[j]);
        j += 1;
        proof {
            assert(out@ =~= spec_xor(shielded, pad@).take(j as int));
        }
    }
    proof {
        assert(spec_xor(shielded, pad@).take(out_sz as int) =~= spec_xor(shielded, pad@));
    }
    out
}

/// What was scrambled comes back when it is unscrambled with the same
/// password.
pub proof fn lemma_unscramble_scramble(iv: Seq<u8>, password: Seq<u8>, input: Seq<u8>)
    requires
        iv.len() == IV_SIZE,
    ensures
        spec_unscramble(password, spec_scramble(iv, password, input)) == input,
{
    let pad = spec_pad(iv, password, input.len());
    let shielded = spec_scramble(iv, password, input);
    assert(shielded.take(IV_SIZE as int) =~= iv);
    assert(shielded.skip(IV_SIZE as int) =~= spec_xor(input, pad));
    assert((shielded.len() - IV_SIZE) as nat == input.len());
    let back = spec_xor(spec_xor(input, pad), pad);
    assert forall|i: int| 0 <= i < input.len() implies back[i] == input[i] by {
        let a = input[i];
        let b = pad[i];
        assert((a ^ b) ^ b == a) by (bit_vector);
    }
    assert(back =~= input);
}

} // verus!
