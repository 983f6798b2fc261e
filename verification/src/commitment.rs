//! The byte layouts that are hashed: the router's swap commitment and the
//! factory's pair-deployment salt. Addresses enter as their XDR encoding,
//! which the host produces; `hashing` hashes them.
use vstd::prelude::*;

use crate::address::Digest;

verus! {

/// Byte `k` (0 = most significant) of the big-endian encoding of the
/// `n`-byte unsigned value `v`.
pub open spec fn be_byte(v: u128, n: nat, k: int) -> u8 {
    ((v >> (8 * (n - 1 - k)) as u128) & 0xff) as u8
}

/// The big-endian encoding of `v` in `n` bytes.
pub open spec fn be_bytes(v: u128, n: nat) -> Seq<u8> {
    Seq::new(n, |k: int| be_byte(v, n, k))
}

/// The 16 big-endian bytes of `x` (two's complement).
pub open spec fn i128_be(x: i128) -> Seq<u8> {
    be_bytes(x as u128, 16)
}

/// The 8 big-endian bytes of `x`.
pub open spec fn u64_be(x: u64) -> Seq<u8> {
    be_bytes(x as u128, 8)
}

/// The 32 bytes of a digest, high half first.
pub open spec fn digest_bytes(d: Digest) -> Seq<u8> {
    be_bytes(d.hi, 16) + be_bytes(d.lo, 16)
}

/// The bytes hashed into a swap commitment: the sender, the input and
/// output tokens (each as XDR), the input amount, the minimum output and
/// the nonce (each big-endian), and the 32-byte salt.
pub open spec fn swap_preimage(
    sender: Seq<u8>,
    token_in: Seq<u8>,
    token_out: Seq<u8>,
    amount_in: i128,
    min_out: i128,
    nonce: u64,
    salt: Digest,
) -> Seq<u8> {
    sender + token_in + token_out + i128_be(amount_in) + i128_be(min_out) + u64_be(nonce) + digest_bytes(
        salt,
    )
}

/// Appends the big-endian encoding of `v` in `n` bytes to `out`.
fn push_be(out: &mut Vec<u8>, v: u128, n: usize)
    requires
        1 <= n <= 16,
    ensures
        final(out)@ == old(out)@ + be_bytes(v, n as nat),
{
    let mut k: usize = 0;
    while k < n
        invariant
            1 <= n <= 16,
            k <= n,
            out@ == old(out)@ + be_bytes(v, n as nat).take(k as int),
        decreases n - k,
    {
        let shift: u128 = (8 * (n - 1 - k)) as u128;
        let b: u8 = ((v >> shift) & 0xff) as u8;
        proof {
            assert(b == be_byte(v, n as nat, k as int));
            assert(be_bytes(v, n as nat).take(k + 1) =~= be_bytes(v, n as nat).take(k as int).push(b));
        }
        out.push(b);
        proof {
            assert(out@ =~= old(out)@ + be_bytes(v, n as nat).take(k + 1));
        }
        k = k + 1;
    }
    proof {
        assert(be_bytes(v, n as nat).take(n as int) =~= be_bytes(v, n as nat));
    }
}

/// Appends `bytes` to `out`.
fn push_all(out: &mut Vec<u8>, bytes: &Vec<u8>)
    ensures
        final(out)@ == old(out)@ + bytes@,
{
    let mut i: usize = 0;
    while i < bytes.len()
        invariant
            i <= bytes@.len(),
            out@ == old(out)@ + bytes@.take(i as int),
        decreases bytes@.len() - i,
    {
        out.push(bytes[i]);
        proof {
            assert(bytes@.take(i + 1) =~= bytes@.take(i as int).push(bytes@[i as int]));
            assert(out@ =~= old(out)@ + bytes@.take(i + 1));
        }
        i = i + 1;
    }
    proof {
        assert(bytes@.take(bytes@.len() as int) =~= bytes@);
    }
}

/// Builds the bytes of a swap commitment from the XDR encodings of the
/// sender and the two tokens and the swap's parameters.
pub fn swap_commitment_preimage(
    sender_xdr: &Vec<u8>,
    token_in_xdr: &Vec<u8>,
    token_out_xdr: &Vec<u8>,
    amount_in: i128,
    min_out: i128,
    nonce: u64,
    salt: Digest,
) -> (r: Vec<u8>)
    ensures
        r@ == swap_preimage(sender_xdr@, token_in_xdr@, token_out_xdr@, amount_in, min_out, nonce, salt),
{
    let mut out: Vec<u8> = Vec::new();
    push_all(&mut out, sender_xdr);
    push_all(&mut out, token_in_xdr);
    push_all(&mut out, token_out_xdr);
    push_be(&mut out, amount_in as u128, 16);
    push_be(&mut out, min_out as u128, 16);
    push_be(&mut out, nonce as u128, 8);
    push_be(&mut out, salt.hi, 16);
    push_be(&mut out, salt.lo, 16);
    proof {
        assert(out@ =~= swap_preimage(sender_xdr@, token_in_xdr@, token_out_xdr@, amount_in, min_out, nonce, salt));
    }
    out
}

/// Builds the bytes hashed into the salt a pair is deployed with: the XDR
/// encodings of its two sorted tokens, the lower first.
pub fn pair_salt_preimage(token_0_xdr: &Vec<u8>, token_1_xdr: &Vec<u8>) -> (r: Vec<u8>)
    ensures
        r@ == token_0_xdr@ + token_1_xdr@,
{
    let mut out: Vec<u8> = Vec::new();
    push_all(&mut out, token_0_xdr);
    push_all(&mut out, token_1_xdr);
    proof {
        assert(out@ =~= token_0_xdr@ + token_1_xdr@);
    }
    out
}

} // verus!
