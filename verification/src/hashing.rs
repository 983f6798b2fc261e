//! The hashes the router and the factory compute: the commitment of a
//! commit-reveal swap and the salts pairs and their LP tokens are deployed
//! with. The byte layouts are built here; SHA-256 is computed by the host.
use vstd::prelude::*;

use crate::address::Digest;
use crate::commitment::{pair_salt_preimage, swap_commitment_preimage, swap_preimage};

verus! {

/// The host environment, which computes SHA-256.
#[verifier::external_type_specification]
#[verifier::external_body]
pub struct ExEnv(soroban_sdk::Env);

/// What SHA-256 hashes `data` to.
pub uninterp spec fn sha256_of(data: Seq<u8>) -> Seq<u8>;

/// SHA-256 of `data`, computed by the host through
/// `soroban_sdk::crypto::Crypto::sha256`: the 32 bytes of the hash of
/// `data`, which depend on `data` alone.
#[verifier::external_body]
fn sha256(env: &soroban_sdk::Env, data: &Vec<u8>) -> (r: Vec<u8>)
    ensures
        r@ == sha256_of(data@),
        r@.len() == 32,
{
    env.crypto().sha256(&soroban_sdk::Bytes::from_slice(env, data.as_slice())).to_array().to_vec()
}

/// The unsigned value of `bytes`, read big-endian.
pub open spec fn be_value(bytes: Seq<u8>) -> nat
    decreases bytes.len(),
{
    if bytes.len() == 0 {
        0
    } else {
        be_value(bytes.drop_last()) * 256 + bytes.last() as nat
    }
}

/// The digest whose 32 bytes, high half first, are `bytes`.
pub open spec fn digest_of(bytes: Seq<u8>) -> Digest {
    Digest { hi: be_value(bytes.subrange(0, 16)) as u128, lo: be_value(bytes.subrange(16, 32)) as u128 }
}

/// The commitment of a swap: the SHA-256 of its preimage, as a digest.
pub open spec fn swap_hash(
    sender: Seq<u8>,
    token_in: Seq<u8>,
    token_out: Seq<u8>,
    amount_in: i128,
    min_out: i128,
    nonce: u64,
    salt: Digest,
) -> Digest {
    digest_of(sha256_of(swap_preimage(sender, token_in, token_out, amount_in, min_out, nonce, salt)))
}

/// `256` to the power `k`.
spec fn pow256(k: nat) -> nat
    decreases k,
{
    if k == 0 {
        1
    } else {
        256 * pow256((k - 1) as nat)
    }
}

proof fn lemma_pow256_monotonic(i: nat, j: nat)
    requires
        i <= j,
    ensures
        pow256(i) <= pow256(j),
    decreases j,
{
    if i < j {
        lemma_pow256_monotonic(i, (j - 1) as nat);
    }
}

/// The 16 bytes of `bytes` from `start` on, read big-endian.
fn read_be_u128(bytes: &Vec<u8>, start: usize) -> (r: u128)
    requires
        start + 16 <= bytes@.len(),
    ensures
        r as nat == be_value(bytes@.subrange(start as int, start + 16)),
{
    let len = bytes.len();
    let mut acc: u128 = 0;
    let mut k: usize = 0;
    proof {
        assert(bytes@.subrange(start as int, start as int) =~= Seq::<u8>::empty());
    }
    while k < 16
        invariant
            start + 16 <= bytes@.len(),
            len == bytes@.len(),
            k <= 16,
            acc as nat == be_value(bytes@.subrange(start as int, start + k)),
            (acc as nat) < pow256(k as nat),
        decreases 16 - k,
    {
        let b = bytes[start + k];
        let ghost prev = acc as nat;
        let ghost p = pow256(k as nat);
        proof {
            lemma_pow256_monotonic((k + 1) as nat, 16);
            assert(pow256(16) == 0x1_0000_0000_0000_0000_0000_0000_0000_0000nat) by {
                reveal_with_fuel(pow256, 17);
            }
            assert(prev * 256 + b < 256 * p) by (nonlinear_arith)
                requires
                    prev < p,
                    b < 256,
            ;
            let s = bytes@.subrange(start as int, start + k + 1);
            assert(s.drop_last() =~= bytes@.subrange(start as int, start + k));
            assert(s.last() == b);
        }
        acc = acc * 256 + b as u128;
        k = k + 1;
    }
    acc
}

/// Reads a 32-byte hash as a digest.
fn digest_from_bytes(bytes: &Vec<u8>) -> (d: Digest)
    requires
        bytes@.len() == 32,
    ensures
        d == digest_of(bytes@),
{
    let hi = read_be_u128(bytes, 0);
    let lo = read_be_u128(bytes, 16);
    Digest { hi, lo }
}

/// The commitment of a swap: the SHA-256 of the XDR encodings of the
/// sender and the two tokens, the input amount, the minimum output and the
/// nonce (each big-endian) and the salt.
pub fn compute_swap_hash(
    env: &soroban_sdk::Env,
    sender_xdr: &Vec<u8>,
    token_in_xdr: &Vec<u8>,
    token_out_xdr: &Vec<u8>,
    amount_in: i128,
    min_out: i128,
    nonce: u64,
    salt: Digest,
) -> (r: Digest)
    ensures
        r == swap_hash(sender_xdr@, token_in_xdr@, token_out_xdr@, amount_in, min_out, nonce, salt),
{
    let preimage = swap_commitment_preimage(sender_xdr, token_in_xdr, token_out_xdr, amount_in, min_out, nonce, salt);
    let hash = sha256(env, &preimage);
    digest_from_bytes(&hash)
}

/// The salt a pair is deployed with: the SHA-256 of the XDR encodings of
/// its two sorted tokens, the lower first.
pub fn pair_salt(env: &soroban_sdk::Env, token_0_xdr: &Vec<u8>, token_1_xdr: &Vec<u8>) -> (r: Digest)
    ensures
        r == digest_of(sha256_of(token_0_xdr@ + token_1_xdr@)),
{
    let preimage = pair_salt_preimage(token_0_xdr, token_1_xdr);
    let hash = sha256(env, &preimage);
    digest_from_bytes(&hash)
}

/// The salt a pair's LP token is deployed with: the SHA-256 of the XDR
/// encoding of the pair's address.
pub fn lp_token_salt(env: &soroban_sdk::Env, pair_xdr: &Vec<u8>) -> (r: Digest)
    ensures
        r == digest_of(sha256_of(pair_xdr@)),
{
    let hash = sha256(env, pair_xdr);
    digest_from_bytes(&hash)
}

} // verus!
