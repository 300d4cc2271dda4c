//! The clock-in orchestration and the guarantees it upholds.
//!
//! A clock-in runs a fixed pipeline: compute the day number, derive the
//! canonical slot address, guard against a spoofed address or a slot
//! that already holds data, provision the slot (fund, allocate, assign),
//! write the encoded record, and count the event on the user. A failure
//! at any step leaves every account and the user untouched.

use vstd::prelude::*;
use vstd::slice::slice_to_vec;

use crate::accounts::UserAccount;
use crate::codec::{
    lemma_record_round_trip, spec_decode, spec_encode, AttendanceRecord, RecordView, IDENTITY_LEN,
    RECORD_LEN,
};
use crate::derivation::{derive_record_address, record_pda};
use crate::errors::ErrorCode;
use crate::ledger::{
    bytes_eq, can_transfer, spec_allocate, spec_assign, spec_stored_len, spec_transfer,
    system_owner, AccountView, Ledger,
};

verus! {

/// Seconds in one day period.
pub const SECONDS_PER_DAY: u64 = 86400;

/// Day number of a timestamp: whole day periods since the epoch.
/// Pre-epoch timestamps are out of scope.
pub open spec fn spec_day_of(timestamp: i64) -> u64
    recommends
        0 <= timestamp,
{
    ((timestamp as int) / (SECONDS_PER_DAY as int)) as u64
}

/// Compute the day number of a timestamp.
pub fn get_current_day(timestamp: i64) -> (r: u64)
    requires
        0 <= timestamp,
    ensures
        r == spec_day_of(timestamp),
{
    (timestamp as u64) / SECONDS_PER_DAY
}

/// The minimum balance that keeps a region of `size` bytes alive on the
/// substrate.
pub uninterp spec fn rent_exempt_minimum(size: nat) -> u64;

/// Relies on `anchor_lang`'s `Rent::minimum_balance` under the default
/// rent configuration: the minimum balance for a region depends on its
/// byte size alone.
#[verifier::external_body]
fn minimum_balance(size: usize) -> (r: u64)
    requires
        size <= 1000000,
    ensures
        r == rent_exempt_minimum(size as nat),
{
    anchor_lang::prelude::Rent::default().minimum_balance(size)
}

/// Inspect a caller-supplied candidate slot for `(owner, day)`: recompute
/// the canonical address, reject a candidate that differs, and reject a
/// slot that already stores bytes. On success, hand back the canonical
/// address and its proof value.
pub fn check_candidate_slot(
    ledger: &Ledger,
    program_id: &Vec<u8>,
    owner: &Vec<u8>,
    day: u64,
    candidate: &Vec<u8>,
) -> (r: Result<(Vec<u8>, u8), ErrorCode>)
    requires
        ledger.wf(),
        program_id@.len() == IDENTITY_LEN,
        owner@.len() == IDENTITY_LEN,
    ensures
        match r {
            Ok(pair) => record_pda(owner@, day, program_id@) == Some((pair.0@, pair.1))
                && pair.0@ == candidate@ && pair.0@.len() == IDENTITY_LEN && spec_stored_len(
                ledger@,
                candidate@,
            ) == 0,
            Err(e) => match e {
                ErrorCode::AddressMismatch => !(record_pda(owner@, day, program_id@) matches Some(
                    p,
                ) && p.0 == candidate@),
                ErrorCode::AlreadyRecordedToday => (record_pda(owner@, day, program_id@) matches
                    Some(p) && p.0 == candidate@) && spec_stored_len(ledger@, candidate@) > 0,
                _ => false,
            },
        },
{
    match derive_record_address(program_id, owner, day) {
        None => Err(ErrorCode::AddressMismatch),
        Some((expected, proof_value)) => {
            if !bytes_eq(&expected, candidate) {
                return Err(ErrorCode::AddressMismatch);
            }
            if ledger.stored_len(candidate) > 0 {
                return Err(ErrorCode::AlreadyRecordedToday);
            }
            Ok((expected, proof_value))
        },
    }
}

/// A provision can complete when the target slot stores nothing and the
/// payer can fund it.
pub open spec fn can_provision(
    m: Map<Seq<u8>, AccountView>,
    payer: Seq<u8>,
    slot: Seq<u8>,
    required: u64,
) -> bool {
    &&& spec_stored_len(m, slot) == 0
    &&& can_transfer(m, payer, slot, required)
}

/// Effect of a completed provision: the funding transfer, then the
/// zeroed allocation, then the ownership binding.
pub open spec fn spec_provision(
    m: Map<Seq<u8>, AccountView>,
    payer: Seq<u8>,
    slot: Seq<u8>,
    required: u64,
    size: nat,
    pid: Seq<u8>,
) -> Map<Seq<u8>, AccountView> {
    spec_assign(spec_allocate(spec_transfer(m, payer, slot, required), slot, size), slot, pid)
}

/// Provision a new storage slot at a derived address: fund it from the
/// payer, have the substrate reserve exactly `size` zeroed bytes, and
/// bind the region to the deploying program. All or nothing: on any
/// failure the substrate is left exactly as it was.
///
/// Every stage is authorized by the same derivation proof `proof_value`;
/// checking it against the address is the substrate runtime's part and
/// is not modeled here.
#[allow(unused_variables)]
pub fn provision_slot(
    ledger: &mut Ledger,
    payer: &Vec<u8>,
    slot: &Vec<u8>,
    proof_value: u8,
    size: usize,
    required_lamports: u64,
    program_id: &Vec<u8>,
) -> (r: Result<(), ErrorCode>)
    requires
        old(ledger).wf(),
        payer@.len() == IDENTITY_LEN,
        slot@.len() == IDENTITY_LEN,
        program_id@.len() == IDENTITY_LEN,
    ensures
        final(ledger).wf(),
        match r {
            Ok(()) => can_provision(old(ledger)@, payer@, slot@, required_lamports)
                && final(ledger)@ == spec_provision(
                old(ledger)@,
                payer@,
                slot@,
                required_lamports,
                size as nat,
                program_id@,
            ),
            Err(e) => final(ledger)@ == old(ledger)@ && match e {
                ErrorCode::InsufficientPayerFunds => !can_transfer(
                    old(ledger)@,
                    payer@,
                    slot@,
                    required_lamports,
                ),
                ErrorCode::AddressAlreadyAllocated => can_transfer(
                    old(ledger)@,
                    payer@,
                    slot@,
                    required_lamports,
                ) && spec_stored_len(old(ledger)@, slot@) > 0,
                _ => false,
            },
        },
{
    let payer_balance = ledger.balance_of(payer);
    if payer_balance < required_lamports {
        return Err(ErrorCode::InsufficientPayerFunds);
    }
    if !bytes_eq(payer, slot) {
        let slot_balance = ledger.balance_of(slot);
        if u64::MAX - slot_balance < required_lamports {
            return Err(ErrorCode::InsufficientPayerFunds);
        }
    }
    if ledger.stored_len(slot) > 0 {
        return Err(ErrorCode::AddressAlreadyAllocated);
    }
    match ledger.transfer(payer, slot, required_lamports) {
        Ok(()) => (),
        Err(e) => {
            proof {
                assert(false);
            }
            return Err(e);
        },
    }
    match ledger.allocate(slot, size) {
        Ok(()) => (),
        Err(e) => {
            proof {
                assert(false);
            }
            return Err(e);
        },
    }
    ledger.assign(slot, program_id);
    Ok(())
}

/// The record that a successful clock-in writes.
pub open spec fn spec_new_record(owner: Seq<u8>, timestamp: i64) -> RecordView {
    RecordView { owner, day: spec_day_of(timestamp), timestamp }
}

/// Effect of writing stored bytes into an existing slot.
pub open spec fn spec_write(m: Map<Seq<u8>, AccountView>, a: Seq<u8>, bytes: Seq<u8>) -> Map<
    Seq<u8>,
    AccountView,
> {
    m.insert(a, AccountView { data: bytes, ..m[a] })
}

/// A slot the program owns holds a well-formed record encoding and sits
/// at the canonical address derived from that record's owner and day.
pub open spec fn slot_canonical(m: Map<Seq<u8>, AccountView>, pid: Seq<u8>, a: Seq<u8>) -> bool {
    m[a].owner_program == pid ==> (spec_decode(m[a].data) matches Some(rec) && (record_pda(
        rec.owner,
        rec.day,
        pid,
    ) matches Some(p) && p.0 == a))
}

/// Uniqueness invariant: every program-owned slot is canonical, so a
/// record can sit nowhere but at the one address derived from its owner
/// and day.
pub open spec fn records_canonical(m: Map<Seq<u8>, AccountView>, pid: Seq<u8>) -> bool {
    forall|a: Seq<u8>| #[trigger] m.contains_key(a) ==> slot_canonical(m, pid, a)
}

/// The predicate picking the slots that hold a record of one owner.
pub open spec fn is_user_record_slot(
    m: Map<Seq<u8>, AccountView>,
    pid: Seq<u8>,
    owner: Seq<u8>,
) -> spec_fn(Seq<u8>) -> bool {
    |a: Seq<u8>|
        m[a].owner_program == pid && (spec_decode(m[a].data) matches Some(rec) && rec.owner
            == owner)
}

/// All slots that hold a record of one owner.
pub open spec fn user_record_slots(
    m: Map<Seq<u8>, AccountView>,
    pid: Seq<u8>,
    owner: Seq<u8>,
) -> Set<Seq<u8>> {
    m.dom().filter(is_user_record_slot(m, pid, owner))
}

/// Counter invariant: a user's clock-in counter equals the number of
/// attendance records ever created for that user.
pub open spec fn counter_consistent(
    m: Map<Seq<u8>, AccountView>,
    pid: Seq<u8>,
    u: UserAccount,
) -> bool {
    &&& user_record_slots(m, pid, u.authority@).finite()
    &&& u.total_clock_ins == user_record_slots(m, pid, u.authority@).len()
}

/// Existing stored bytes are never removed or overwritten.
pub open spec fn preserves_records(
    m0: Map<Seq<u8>, AccountView>,
    m1: Map<Seq<u8>, AccountView>,
) -> bool {
    forall|a: Seq<u8>|
        #[trigger] m0.contains_key(a) && m0[a].data.len() > 0 ==> m1.contains_key(a) && m1[a].data
            == m0[a].data
}

/// Everything a successful clock-in did: the inputs passed the guard,
/// the slot was provisioned and holds exactly the encoded new record,
/// the payer was debited once, and the user's counter rose by one.
pub open spec fn clock_in_ok(
    m0: Map<Seq<u8>, AccountView>,
    u0: UserAccount,
    m1: Map<Seq<u8>, AccountView>,
    u1: UserAccount,
    pid: Seq<u8>,
    candidate: Seq<u8>,
    timestamp: i64,
    rec: RecordView,
) -> bool {
    let day = spec_day_of(timestamp);
    let required = rent_exempt_minimum(RECORD_LEN as nat);
    &&& u0.is_registered
    &&& (record_pda(u0.authority@, day, pid) matches Some(p) && p.0 == candidate)
    &&& spec_stored_len(m0, candidate) == 0
    &&& can_transfer(m0, u0.authority@, candidate, required)
    &&& rec == spec_new_record(u0.authority@, timestamp)
    &&& m1 == spec_write(
        spec_provision(m0, u0.authority@, candidate, required, RECORD_LEN as nat, pid),
        candidate,
        spec_encode(rec),
    )
    &&& u1.total_clock_ins == u0.total_clock_ins + 1
    &&& u1.authority@ == u0.authority@
    &&& u1.name@ == u0.name@
    &&& u1.is_registered == u0.is_registered
}

/// Exactly when each clock-in error is returned.
pub open spec fn clock_in_err(
    m0: Map<Seq<u8>, AccountView>,
    u0: UserAccount,
    pid: Seq<u8>,
    candidate: Seq<u8>,
    timestamp: i64,
    e: ErrorCode,
) -> bool {
    let day = spec_day_of(timestamp);
    let required = rent_exempt_minimum(RECORD_LEN as nat);
    match e {
        ErrorCode::UserNotRegistered => !u0.is_registered,
        ErrorCode::AddressMismatch => u0.is_registered && !(record_pda(
            u0.authority@,
            day,
            pid,
        ) matches Some(p) && p.0 == candidate),
        ErrorCode::AlreadyRecordedToday => u0.is_registered && (record_pda(
            u0.authority@,
            day,
            pid,
        ) matches Some(p) && p.0 == candidate) && spec_stored_len(m0, candidate) > 0,
        ErrorCode::InsufficientPayerFunds => u0.is_registered && (record_pda(
            u0.authority@,
            day,
            pid,
        ) matches Some(p) && p.0 == candidate) && spec_stored_len(m0, candidate) == 0
            && !can_transfer(m0, u0.authority@, candidate, required),
        _ => false,
    }
}

/// The sole entry point: one atomic clock-in for the signing user.
///
/// The caller supplies the slot address it believes is canonical; the
/// core recomputes and verifies it. On success exactly one new immutable
/// record exists, the payer's balance fell by the funding amount, and
/// the user's counter rose by one. On failure nothing changed.
pub fn clock_in(
    ledger: &mut Ledger,
    user_account: &mut UserAccount,
    program_id: &Vec<u8>,
    candidate_slot: &Vec<u8>,
    timestamp: i64,
) -> (r: Result<AttendanceRecord, ErrorCode>)
    requires
        old(ledger).wf(),
        old(user_account).wf(),
        program_id@.len() == IDENTITY_LEN,
        0 <= timestamp,
        old(user_account).total_clock_ins < u64::MAX,
    ensures
        final(ledger).wf(),
        final(user_account).wf(),
        match r {
            Ok(rec) => clock_in_ok(
                old(ledger)@,
                *old(user_account),
                final(ledger)@,
                *final(user_account),
                program_id@,
                candidate_slot@,
                timestamp,
                rec@,
            ) && rec.wf(),
            Err(e) => clock_in_err(
                old(ledger)@,
                *old(user_account),
                program_id@,
                candidate_slot@,
                timestamp,
                e,
            ) && final(ledger)@ == old(ledger)@ && *final(user_account) == *old(user_account),
        },
        preserves_records(old(ledger)@, final(ledger)@),
        records_canonical(old(ledger)@, program_id@) && program_id@ != system_owner()
            ==> records_canonical(final(ledger)@, program_id@),
        counter_consistent(old(ledger)@, program_id@, *old(user_account)) ==> counter_consistent(
            final(ledger)@,
            program_id@,
            *final(user_account),
        ),
{
    if !user_account.is_registered {
        return Err(ErrorCode::UserNotRegistered);
    }
    let day = get_current_day(timestamp);
    let (slot_addr, proof_value) = match check_candidate_slot(
        ledger,
        program_id,
        &user_account.authority,
        day,
        candidate_slot,
    ) {
        Err(e) => {
            return Err(e);
        },
        Ok(pair) => pair,
    };
    let required_lamports = minimum_balance(RECORD_LEN);
    match provision_slot(
        ledger,
        &user_account.authority,
        &slot_addr,
        proof_value,
        RECORD_LEN,
        required_lamports,
        program_id,
    ) {
        Err(e) => {
            proof {
                assert(e == ErrorCode::InsufficientPayerFunds);
            }
            return Err(e);
        },
        Ok(()) => (),
    }
    let record = AttendanceRecord {
        owner: slice_to_vec(user_account.authority.as_slice()),
        day,
        timestamp,
    };
    let record_bytes = record.encode();
    ledger.write_slot(&slot_addr, &record_bytes);
    user_account.total_clock_ins = user_account.total_clock_ins + 1;
    proof {
        let m0 = old(ledger)@;
        let m1 = ledger@;
        let pid = program_id@;
        let auth = old(user_account).authority@;
        let slot = slot_addr@;
        lemma_record_round_trip(record@);
        assert(m1 == spec_write(
            spec_provision(
                m0,
                auth,
                slot,
                rent_exempt_minimum(RECORD_LEN as nat),
                RECORD_LEN as nat,
                pid,
            ),
            slot,
            spec_encode(record@),
        ));
        assert(m1.contains_key(slot) && m1[slot].data == spec_encode(record@)
            && m1[slot].owner_program == pid);
        assert forall|a: Seq<u8>|
            a != slot && #[trigger] m1.contains_key(a) implies m0.contains_key(a)
            && m1[a].owner_program == m0[a].owner_program && m1[a].data == m0[a].data by {}
        // Existing stored bytes survive: the one rewritten slot stored none.
        assert(preserves_records(m0, m1));
        // The uniqueness invariant survives: the new slot is canonical by
        // construction, every other program-owned slot is untouched.
        if records_canonical(m0, pid) && pid != system_owner() {
            assert forall|a: Seq<u8>| #[trigger] m1.contains_key(a) implies slot_canonical(
                m1,
                pid,
                a,
            ) by {
                if a == slot {
                    assert(spec_decode(m1[a].data) == Some(record@));
                } else {
                    assert(slot_canonical(m0, pid, a));
                }
            }
        }
        // The counter invariant survives: exactly the new slot joins the
        // user's record set, and the counter rose by exactly one.
        if counter_consistent(m0, pid, *old(user_account)) {
            let s0 = user_record_slots(m0, pid, auth);
            let s1 = user_record_slots(m1, pid, auth);
            assert(spec_stored_len(m0, slot) == 0);
            assert(!s0.contains(slot));
            assert(s1.contains(slot));
            assert forall|a: Seq<u8>| a != slot implies s1.contains(a) == s0.contains(a) by {
                if m1.contains_key(a) || m0.contains_key(a) {
                    assert(m1.contains_key(a) == m0.contains_key(a));
                }
            }
            assert(s1 =~= s0.insert(slot));
            vstd::set::axiom_set_insert_len(s0, slot);
            assert(s1.len() == s0.len() + 1);
        }
    }
    Ok(record)
}

/// Base case of both invariants: an empty substrate is canonical, and a
/// user with a zeroed counter is consistent with it.
pub proof fn lemma_invariants_initially(pid: Seq<u8>, u: UserAccount)
    requires
        u.total_clock_ins == 0,
    ensures
        records_canonical(Map::<Seq<u8>, AccountView>::empty(), pid),
        counter_consistent(Map::<Seq<u8>, AccountView>::empty(), pid, u),
{
    let m = Map::<Seq<u8>, AccountView>::empty();
    assert(user_record_slots(m, pid, u.authority@) =~= Set::<Seq<u8>>::empty());
}

/// Funding a fresh payer account — the substrate bookkeeping outside this
/// core — disturbs neither invariant: the new account is system-owned and
/// stores nothing.
pub proof fn lemma_invariants_after_funding(
    m: Map<Seq<u8>, AccountView>,
    pid: Seq<u8>,
    a: Seq<u8>,
    lamports: u64,
    u: UserAccount,
)
    requires
        pid != system_owner(),
        !m.contains_key(a),
    ensures
        records_canonical(m, pid) ==> records_canonical(
            m.insert(a, AccountView { lamports, owner_program: system_owner(), data: Seq::empty() }),
            pid,
        ),
        counter_consistent(m, pid, u) ==> counter_consistent(
            m.insert(a, AccountView { lamports, owner_program: system_owner(), data: Seq::empty() }),
            pid,
            u,
        ),
{
    let account = AccountView { lamports, owner_program: system_owner(), data: Seq::empty() };
    let m1 = m.insert(a, account);
    if records_canonical(m, pid) {
        assert forall|b: Seq<u8>| #[trigger] m1.contains_key(b) implies slot_canonical(
            m1,
            pid,
            b,
        ) by {
            if b != a {
                assert(slot_canonical(m, pid, b));
            }
        }
    }
    if counter_consistent(m, pid, u) {
        assert(user_record_slots(m1, pid, u.authority@) =~= user_record_slots(
            m,
            pid,
            u.authority@,
        ));
    }
}

/// At most one attendance record per owner and day: under the uniqueness
/// invariant, two program-owned slots holding records with the same owner
/// and the same day are one and the same slot.
pub proof fn lemma_at_most_one_record(
    m: Map<Seq<u8>, AccountView>,
    pid: Seq<u8>,
    a1: Seq<u8>,
    a2: Seq<u8>,
    r1: RecordView,
    r2: RecordView,
)
    requires
        records_canonical(m, pid),
        m.contains_key(a1),
        m[a1].owner_program == pid,
        spec_decode(m[a1].data) == Some(r1),
        m.contains_key(a2),
        m[a2].owner_program == pid,
        spec_decode(m[a2].data) == Some(r2),
        r1.owner == r2.owner,
        r1.day == r2.day,
    ensures
        a1 == a2,
{
    assert(slot_canonical(m, pid, a1));
    assert(slot_canonical(m, pid, a2));
}

} // verus!
