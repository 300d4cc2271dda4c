use clock_in_system::accounts::{
    get_user_attendance, initialize_attendance_system, register_user, UserAccount,
};
use clock_in_system::clock_in::{clock_in, get_current_day, provision_slot};
use clock_in_system::codec::AttendanceRecord;
use clock_in_system::derivation::derive_record_address;
use clock_in_system::errors::ErrorCode;
use clock_in_system::ledger::Ledger;

fn ident(byte: u8) -> Vec<u8> {
    vec![byte; 32]
}

const PROGRAM_ID_BYTE: u8 = 3;
const RICH: u64 = 1_000_000_000;

/// A ledger with a funded payer account for the user, the registry, and
/// one registered user.
fn setup(user_byte: u8) -> (Ledger, UserAccount, Vec<u8>) {
    let pid = ident(PROGRAM_ID_BYTE);
    let mut ledger = Ledger::new();
    assert!(ledger.create_account(&ident(user_byte), RICH));
    let mut system = initialize_attendance_system(ident(1), "main office".to_string());
    let user = register_user(&mut system, ident(user_byte), "u one".to_string());
    assert_eq!(system.total_users, 1);
    (ledger, user, pid)
}

fn candidate_for(pid: &Vec<u8>, user: &UserAccount, timestamp: i64) -> Vec<u8> {
    let day = get_current_day(timestamp);
    derive_record_address(pid, &user.authority, day).unwrap().0
}

#[test]
fn scenario_first_clock_in_creates_record() {
    let (mut ledger, mut user, pid) = setup(5);
    let ts: i64 = 1_641_600_000;
    let candidate = candidate_for(&pid, &user, ts);

    let rec = clock_in(&mut ledger, &mut user, &pid, &candidate, ts).unwrap();
    assert_eq!(rec.owner, ident(5));
    assert_eq!(rec.day, 19000);
    assert_eq!(rec.timestamp, ts);
    assert_eq!(user.total_clock_ins, 1);

    // The record sits, encoded, at the canonical address.
    let stored = ledger.read_slot(&candidate).unwrap();
    assert_eq!(stored, rec.encode());
    let back = AttendanceRecord::decode(&stored).unwrap();
    assert_eq!(back.owner, ident(5));
    assert_eq!(back.day, 19000);
    assert_eq!(back.timestamp, ts);
}

#[test]
fn scenario_second_clock_in_same_day_fails() {
    let (mut ledger, mut user, pid) = setup(5);
    let first_ts: i64 = 1_641_600_000;
    let candidate = candidate_for(&pid, &user, first_ts);
    clock_in(&mut ledger, &mut user, &pid, &candidate, first_ts).unwrap();

    // Later the same day: same day number, same canonical address.
    let later_ts: i64 = 1_641_650_000;
    assert_eq!(get_current_day(later_ts), 19000);
    let same_candidate = candidate_for(&pid, &user, later_ts);
    assert_eq!(same_candidate, candidate);

    let err = clock_in(&mut ledger, &mut user, &pid, &same_candidate, later_ts).unwrap_err();
    assert_eq!(err, ErrorCode::AlreadyRecordedToday);
    assert_eq!(user.total_clock_ins, 1);
    // The first record is untouched.
    let stored = ledger.read_slot(&candidate).unwrap();
    let back = AttendanceRecord::decode(&stored).unwrap();
    assert_eq!(back.timestamp, first_ts);
}

#[test]
fn scenario_next_day_creates_second_record() {
    let (mut ledger, mut user, pid) = setup(5);
    let day0_ts: i64 = 1_641_600_000;
    let c0 = candidate_for(&pid, &user, day0_ts);
    clock_in(&mut ledger, &mut user, &pid, &c0, day0_ts).unwrap();

    let day1_ts: i64 = 1_641_690_000;
    assert_eq!(get_current_day(day1_ts), 19001);
    let c1 = candidate_for(&pid, &user, day1_ts);
    assert_ne!(c1, c0);
    let rec = clock_in(&mut ledger, &mut user, &pid, &c1, day1_ts).unwrap();
    assert_eq!(rec.day, 19001);
    assert_eq!(user.total_clock_ins, 2);
}

#[test]
fn scenario_racing_attempts_one_wins() {
    let (mut ledger, mut user, pid) = setup(5);
    let c0 = candidate_for(&pid, &user, 1_641_600_000);
    clock_in(&mut ledger, &mut user, &pid, &c0, 1_641_600_000).unwrap();
    let c1 = candidate_for(&pid, &user, 1_641_690_000);
    clock_in(&mut ledger, &mut user, &pid, &c1, 1_641_690_000).unwrap();

    // Two attempts for day 19002, submitted with the same inputs: the
    // substrate serializes them; the first finds the slot empty, the
    // second finds it taken.
    let race_ts: i64 = 1_641_772_800;
    assert_eq!(get_current_day(race_ts), 19002);
    let candidate = candidate_for(&pid, &user, race_ts);
    let first = clock_in(&mut ledger, &mut user, &pid, &candidate, race_ts);
    let second = clock_in(&mut ledger, &mut user, &pid, &candidate, race_ts);
    assert!(first.is_ok());
    assert_eq!(second.unwrap_err(), ErrorCode::AlreadyRecordedToday);
    assert_eq!(user.total_clock_ins, 3);
}

#[test]
fn unregistered_user_cannot_clock_in() {
    let pid = ident(PROGRAM_ID_BYTE);
    let mut ledger = Ledger::new();
    assert!(ledger.create_account(&ident(5), RICH));
    let mut user = UserAccount {
        authority: ident(5),
        name: "ghost".to_string(),
        total_clock_ins: 0,
        is_registered: false,
    };
    let ts: i64 = 1_641_600_000;
    let candidate = candidate_for(&pid, &user, ts);

    let err = clock_in(&mut ledger, &mut user, &pid, &candidate, ts).unwrap_err();
    assert_eq!(err, ErrorCode::UserNotRegistered);
    // No record, no funding debit, no counter change.
    assert!(ledger.read_slot(&candidate).is_none());
    assert_eq!(ledger.balance_of(&ident(5)), RICH);
    assert_eq!(user.total_clock_ins, 0);
}

#[test]
fn spoofed_candidate_address_is_rejected() {
    let (mut ledger, mut user, pid) = setup(5);
    let ts: i64 = 1_641_600_000;
    let spoofed = ident(9);

    let err = clock_in(&mut ledger, &mut user, &pid, &spoofed, ts).unwrap_err();
    assert_eq!(err, ErrorCode::AddressMismatch);
    assert_eq!(user.total_clock_ins, 0);
    assert_eq!(ledger.balance_of(&ident(5)), RICH);
}

#[test]
fn underfunded_payer_is_rejected() {
    let pid = ident(PROGRAM_ID_BYTE);
    let mut ledger = Ledger::new();
    assert!(ledger.create_account(&ident(5), 10));
    let mut system = initialize_attendance_system(ident(1), "main office".to_string());
    let mut user = register_user(&mut system, ident(5), "u one".to_string());
    let ts: i64 = 1_641_600_000;
    let candidate = candidate_for(&pid, &user, ts);

    let err = clock_in(&mut ledger, &mut user, &pid, &candidate, ts).unwrap_err();
    assert_eq!(err, ErrorCode::InsufficientPayerFunds);
    assert!(ledger.read_slot(&candidate).is_none());
    assert_eq!(ledger.balance_of(&ident(5)), 10);
    assert_eq!(user.total_clock_ins, 0);
}

#[test]
fn clock_in_debits_exactly_the_rent_minimum() {
    let (mut ledger, mut user, pid) = setup(5);
    let ts: i64 = 1_641_600_000;
    let candidate = candidate_for(&pid, &user, ts);
    clock_in(&mut ledger, &mut user, &pid, &candidate, ts).unwrap();
    // Default rent: (128 overhead + 49 data bytes) * 3480 lamports per
    // byte-year * 2 years.
    let expected: u64 = (128 + 49) * 3480 * 2;
    assert_eq!(ledger.balance_of(&ident(5)), RICH - expected);
    assert_eq!(ledger.balance_of(&candidate), expected);
}

#[test]
fn registration_counts_users_and_reads_back() {
    let mut system = initialize_attendance_system(ident(1), "main office".to_string());
    assert_eq!(system.total_users, 0);
    let u1 = register_user(&mut system, ident(5), "u one".to_string());
    let u2 = register_user(&mut system, ident(6), "u two".to_string());
    assert_eq!(system.total_users, 2);
    assert!(u1.is_registered);
    assert!(u2.is_registered);

    let (name, count, authority) = get_user_attendance(&u1);
    assert_eq!(name, "u one");
    assert_eq!(count, 0);
    assert_eq!(authority, &ident(5));
}

#[test]
fn day_number_boundaries() {
    assert_eq!(get_current_day(0), 0);
    assert_eq!(get_current_day(86399), 0);
    assert_eq!(get_current_day(86400), 1);
    assert_eq!(get_current_day(1_641_600_000), 19000);
}

#[test]
fn provisioning_is_create_once() {
    let mut ledger = Ledger::new();
    assert!(ledger.create_account(&ident(5), RICH));
    let slot = ident(8);
    provision_slot(&mut ledger, &ident(5), &slot, 255, 49, 1000, &ident(3)).unwrap();
    // The region exists: zeroed at the requested size, funded, and a
    // second provisioning at the same address fails.
    assert_eq!(ledger.read_slot(&slot).unwrap(), vec![0u8; 49]);
    assert_eq!(ledger.balance_of(&slot), 1000);
    assert_eq!(ledger.balance_of(&ident(5)), RICH - 1000);
    let err = provision_slot(&mut ledger, &ident(5), &slot, 255, 49, 1000, &ident(3)).unwrap_err();
    assert_eq!(err, ErrorCode::AddressAlreadyAllocated);
}

#[test]
fn ledger_operations_behave() {
    let mut ledger = Ledger::new();
    assert!(ledger.create_account(&ident(5), 100));
    // A second creation at the same address is refused.
    assert!(!ledger.create_account(&ident(5), 7));
    assert_eq!(ledger.balance_of(&ident(5)), 100);

    // Transfers move balances and refuse overdrafts.
    assert_eq!(
        ledger.transfer(&ident(5), &ident(6), 101).unwrap_err(),
        ErrorCode::InsufficientPayerFunds
    );
    ledger.transfer(&ident(5), &ident(6), 40).unwrap();
    assert_eq!(ledger.balance_of(&ident(5)), 60);
    assert_eq!(ledger.balance_of(&ident(6)), 40);

    // Allocation zeroes the slot once and refuses a second time.
    ledger.allocate(&ident(6), 3).unwrap();
    assert_eq!(ledger.read_slot(&ident(6)).unwrap(), vec![0u8, 0, 0]);
    assert_eq!(ledger.allocate(&ident(6), 3).unwrap_err(), ErrorCode::AddressAlreadyAllocated);
}
