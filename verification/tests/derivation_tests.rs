use std::collections::HashSet;

use clock_in_system::derivation::derive_record_address;

fn ident(byte: u8) -> Vec<u8> {
    vec![byte; 32]
}

#[test]
fn derivation_is_deterministic() {
    let pid = ident(3);
    let owner = ident(5);
    let (addr1, bump1) = derive_record_address(&pid, &owner, 19000).unwrap();
    let (addr2, bump2) = derive_record_address(&pid, &owner, 19000).unwrap();
    assert_eq!(addr1, addr2);
    assert_eq!(bump1, bump2);
    assert_eq!(addr1.len(), 32);
}

#[test]
fn derivation_depends_on_owner_and_day() {
    let pid = ident(3);
    let owner = ident(5);
    let (addr, _) = derive_record_address(&pid, &owner, 19000).unwrap();
    let (other_day, _) = derive_record_address(&pid, &owner, 19001).unwrap();
    let (other_owner, _) = derive_record_address(&pid, &ident(6), 19000).unwrap();
    assert_ne!(addr, other_day);
    assert_ne!(addr, other_owner);
    // The derived address is a one-way image, not any input echoed back.
    assert_ne!(addr, owner);
    assert_ne!(addr, pid);
}

#[test]
fn derivation_has_no_collisions_over_many_pairs() {
    let pid = ident(3);
    let mut seen: HashSet<Vec<u8>> = HashSet::new();
    // A simple linear congruential generator picks distinct random-looking
    // (owner, day) pairs.
    let mut state: u64 = 0x2545F4914F6CDD1D;
    for i in 0..1000u64 {
        state = state.wrapping_mul(6364136223846793005).wrapping_add(1442695040888963407);
        let mut owner = Vec::with_capacity(32);
        for k in 0..32u64 {
            owner.push((state.rotate_left((k % 64) as u32) >> (k % 8)) as u8);
        }
        owner[0] = (i & 0xFF) as u8;
        owner[1] = ((i >> 8) & 0xFF) as u8;
        let day = state % 1_000_000;
        let (addr, _) = derive_record_address(&pid, &owner, day).unwrap();
        assert!(seen.insert(addr), "collision at pair {}", i);
    }
    assert_eq!(seen.len(), 1000);
}
