//! Canonical derivation of a record's storage slot address.
//!
//! A record for `(owner, day)` lives at the program-derived address built
//! from three seeds: the fixed namespace tag, the owner identity, and the
//! day number in little-endian bytes. The derivation is a deterministic,
//! one-way function of those seeds and the deriving program's identity;
//! it also yields a proof value (the bump seed), the derivation's
//! canonical disambiguator, which later authorizes operations on the
//! address.

use vstd::bytes::{spec_u64_to_le_bytes, u64_to_le_bytes};
use vstd::prelude::*;
use vstd::slice::slice_to_vec;

use crate::codec::IDENTITY_LEN;

verus! {

/// What `Pubkey::try_find_program_address` returns for given seeds and
/// program id: the derived address and bump seed, or nothing in the
/// statistically improbable event that no bump seed works.
pub uninterp spec fn pda_of(seeds: Seq<Seq<u8>>, program_id: Seq<u8>) -> Option<(Seq<u8>, u8)>;

/// Relies on `anchor_lang`'s `Pubkey::try_find_program_address`: the
/// result is a deterministic function of the seeds and the program id
/// alone, and a returned address is exactly 32 bytes (`Pubkey::to_bytes`).
#[verifier::external_body]
fn derive_program_address(seeds: &Vec<Vec<u8>>, program_id: &Vec<u8>) -> (r: Option<
    (Vec<u8>, u8),
>)
    requires
        program_id@.len() == IDENTITY_LEN,
    ensures
        match r {
            Some(pair) => pda_of(seeds.deep_view(), program_id@) == Some((pair.0@, pair.1))
                && pair.0@.len() == IDENTITY_LEN,
            None => pda_of(seeds.deep_view(), program_id@) is None,
        },
{
    let seed_refs: Vec<&[u8]> = seeds.iter().map(|s| s.as_slice()).collect();
    let pid = anchor_lang::prelude::Pubkey::new_from_array(
        program_id.as_slice().try_into().unwrap(),
    );
    anchor_lang::prelude::Pubkey::try_find_program_address(&seed_refs, &pid)
        .map(|(address, bump)| (address.to_bytes().to_vec(), bump))
}

/// The fixed namespace tag: the ASCII bytes of "attendance".
pub open spec fn attendance_tag() -> Seq<u8> {
    seq![97u8, 116u8, 116u8, 101u8, 110u8, 100u8, 97u8, 110u8, 99u8, 101u8]
}

/// The three seeds that name the slot of `(owner, day)`.
pub open spec fn record_seeds(owner: Seq<u8>, day: u64) -> Seq<Seq<u8>> {
    seq![attendance_tag(), owner, spec_u64_to_le_bytes(day)]
}

/// The canonical slot address and proof value for `(owner, day)` under a
/// deploying program's identity.
pub open spec fn record_pda(owner: Seq<u8>, day: u64, program_id: Seq<u8>) -> Option<
    (Seq<u8>, u8),
> {
    pda_of(record_seeds(owner, day), program_id)
}

/// The namespace tag as bytes.
fn attendance_tag_bytes() -> (r: Vec<u8>)
    ensures
        r@ == attendance_tag(),
{
    let mut tag: Vec<u8> = Vec::new();
    tag.push(97);
    tag.push(116);
    tag.push(116);
    tag.push(101);
    tag.push(110);
    tag.push(100);
    tag.push(97);
    tag.push(110);
    tag.push(99);
    tag.push(101);
    proof {
        assert(tag@ =~= attendance_tag());
    }
    tag
}

/// Compute the canonical slot address and its proof value for one owner
/// and one day. Pure: identical inputs always yield the identical pair.
pub fn derive_record_address(program_id: &Vec<u8>, owner: &Vec<u8>, day: u64) -> (r: Option<
    (Vec<u8>, u8),
>)
    requires
        program_id@.len() == IDENTITY_LEN,
        owner@.len() == IDENTITY_LEN,
    ensures
        match r {
            Some(pair) => record_pda(owner@, day, program_id@) == Some((pair.0@, pair.1))
                && pair.0@.len() == IDENTITY_LEN,
            None => record_pda(owner@, day, program_id@) is None,
        },
{
    let mut seeds: Vec<Vec<u8>> = Vec::new();
    seeds.push(attendance_tag_bytes());
    seeds.push(slice_to_vec(owner.as_slice()));
    seeds.push(u64_to_le_bytes(day));
    proof {
        assert(seeds.deep_view() =~~= record_seeds(owner@, day));
    }
    derive_program_address(&seeds, program_id)
}

/// Determinism of the derivation: the slot address and proof value depend
/// on nothing but the owner, the day and the deriving program's identity,
/// so two derivations over equal inputs name the same slot.
pub proof fn lemma_derivation_deterministic(
    owner1: Seq<u8>,
    day1: u64,
    pid1: Seq<u8>,
    owner2: Seq<u8>,
    day2: u64,
    pid2: Seq<u8>,
)
    requires
        owner1 == owner2,
        day1 == day2,
        pid1 == pid2,
    ensures
        record_pda(owner1, day1, pid1) == record_pda(owner2, day2, pid2),
{
}

} // verus!
