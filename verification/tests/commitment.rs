use coralswap::address::Digest;
use coralswap::commitment::{pair_salt_preimage, swap_commitment_preimage};

#[test]
fn swap_preimage_layout() {
    let sender = vec![0xAA, 0xBB];
    let token_in = vec![0x01];
    let token_out = vec![0x02, 0x03];
    let salt = Digest { hi: 0x0102_0304_0506_0708_090A_0B0C_0D0E_0F10, lo: 0x1112_1314_1516_1718_191A_1B1C_1D1E_1F20 };
    let bytes = swap_commitment_preimage(&sender, &token_in, &token_out, 1_000, -1, 0x0102_0304_0506_0708, salt);

    let mut expected: Vec<u8> = vec![0xAA, 0xBB, 0x01, 0x02, 0x03];
    expected.extend_from_slice(&1_000i128.to_be_bytes());
    expected.extend_from_slice(&(-1i128).to_be_bytes());
    expected.extend_from_slice(&0x0102_0304_0506_0708u64.to_be_bytes());
    expected.extend((1..=32).map(|b| b as u8));
    assert_eq!(bytes, expected);
    assert_eq!(bytes.len(), 5 + 16 + 16 + 8 + 32);
}

#[test]
fn pair_salt_layout() {
    assert_eq!(pair_salt_preimage(&vec![1, 2], &vec![3]), vec![1, 2, 3]);
}
