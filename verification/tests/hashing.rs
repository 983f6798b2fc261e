use coralswap::address::Digest;
use coralswap::commitment::swap_commitment_preimage;
use coralswap::hashing::{compute_swap_hash, lp_token_salt, pair_salt};
use soroban_sdk::Env;

const SHA256_EMPTY: Digest =
    Digest { hi: 0xe3b0c44298fc1c149afbf4c8996fb924, lo: 0x27ae41e4649b934ca495991b7852b855 };
const SHA256_ABC: Digest =
    Digest { hi: 0xba7816bf8f01cfea414140de5dae2223, lo: 0xb00361a396177a9cb410ff61f20015ad };

#[test]
fn salts_are_sha256_digests() {
    let env = Env::default();
    assert_eq!(lp_token_salt(&env, &vec![]), SHA256_EMPTY);
    assert_eq!(lp_token_salt(&env, &b"abc".to_vec()), SHA256_ABC);
    // The pair salt hashes the two encodings one after the other.
    assert_eq!(pair_salt(&env, &b"a".to_vec(), &b"bc".to_vec()), SHA256_ABC);
    assert_eq!(pair_salt(&env, &vec![], &vec![]), SHA256_EMPTY);
}

#[test]
fn swap_hash_is_the_sha256_of_the_preimage() {
    let env = Env::default();
    let sender = vec![1u8, 2, 3];
    let token_in = vec![4u8];
    let token_out = vec![5u8, 6];
    let salt = Digest { hi: 7, lo: 8 };
    let preimage = swap_commitment_preimage(&sender, &token_in, &token_out, 1_000, 990, 42, salt);
    let hash = compute_swap_hash(&env, &sender, &token_in, &token_out, 1_000, 990, 42, salt);
    assert_eq!(hash, lp_token_salt(&env, &preimage));
    // Any change to the revealed values changes the hash.
    assert_ne!(hash, compute_swap_hash(&env, &sender, &token_in, &token_out, 1_000, 991, 42, salt));
    assert_ne!(hash, compute_swap_hash(&env, &sender, &token_in, &token_out, 1_000, 990, 43, salt));
    assert_ne!(hash, compute_swap_hash(&env, &sender, &token_out, &token_in, 1_000, 990, 42, salt));
    assert_ne!(hash, compute_swap_hash(&env, &sender, &token_in, &token_out, 1_000, 990, 42, Digest { hi: 7, lo: 9 }));
}
