use rouillespy::ipc::{is_all_zero, update_ipc, Ipc, REGION_SIZE};
use rouillespy::user_record::UserRecord;

fn region(capacity: usize) -> Ipc {
    Ipc::with_capacity(String::from("0x0000DEAD"), capacity).unwrap()
}

fn record(name: &str, command: &str, down: f32, up: f32) -> UserRecord {
    UserRecord::new(name, command, down.to_ne_bytes(), up.to_ne_bytes())
}

#[test]
fn default_region_has_fourteen_slots() {
    let ipc = Ipc::new(String::from("0x0000DEAD")).unwrap();
    assert_eq!(REGION_SIZE, 1024);
    assert_eq!(ipc.capacity(), 1024);
    assert_eq!(ipc.slot_count(), 14);
}

#[test]
fn fresh_region_scans_as_empty() {
    let ipc = Ipc::new(String::from("0x0000DEAD")).unwrap();
    assert_eq!(ipc.read_user_records(), Vec::<UserRecord>::new());
    assert_eq!(ipc.first_free_slot(), Some(0));
    for capacity in [0usize, 1, 71, 72, 143, 144, 145, 1024, 4096] {
        assert!(region(capacity).read_user_records().is_empty());
    }
}

#[test]
fn capacity_with_a_failing_key_gives_the_error() {
    assert!(Ipc::with_capacity(String::from("DEAD"), 144).is_err());
    assert!(Ipc::with_capacity(String::from("0x"), 144).is_err());
}

#[test]
fn publish_into_two_slot_region() {
    let mut ipc = region(144);
    assert_eq!(ipc.slot_count(), 2);
    update_ipc(&mut ipc, "alice", "ssh", 120.5f32.to_ne_bytes(), 30.25f32.to_ne_bytes());
    assert_eq!(ipc.first_free_slot(), Some(1));
    let records = ipc.read_user_records();
    assert_eq!(records.len(), 1);
    let mut username = [0u8; 32];
    username[0..5].copy_from_slice(b"alice");
    let mut command = [0u8; 32];
    command[0..3].copy_from_slice(b"ssh");
    assert_eq!(records[0].username, username);
    assert_eq!(records[0].command, command);
    assert_eq!(f32::from_ne_bytes(records[0].download_speed), 120.5);
    assert_eq!(f32::from_ne_bytes(records[0].upload_speed), 30.25);
    assert_eq!(records[0], record("alice", "ssh", 120.5, 30.25));
    assert_eq!(ipc.capacity(), 144);
    assert_eq!(ipc.key(), 0xDEAD);
}

#[test]
fn publish_truncates_a_long_username() {
    let name = "abcdefghijklmnopqrstuvwxyz0123456789ABCD";
    assert_eq!(name.chars().count(), 40);
    let mut ipc = region(144);
    update_ipc(&mut ipc, name, "top", 1.0f32.to_ne_bytes(), 2.0f32.to_ne_bytes());
    let records = ipc.read_user_records();
    assert_eq!(records.len(), 1);
    assert_eq!(&records[0].username[..], b"abcdefghijklmnopqrstuvwxyz012345");
    let mut command = [0u8; 32];
    command[0..3].copy_from_slice(b"top");
    assert_eq!(records[0].command, command);
    assert_eq!(f32::from_ne_bytes(records[0].download_speed), 1.0);
    assert_eq!(f32::from_ne_bytes(records[0].upload_speed), 2.0);
    assert_eq!(ipc.first_free_slot(), Some(1));
}

#[test]
fn publish_truncates_a_long_command() {
    let command = "0123456789012345678901234567890123456789";
    let mut ipc = region(72);
    update_ipc(&mut ipc, "bob", command, [1, 2, 3, 4], [5, 6, 7, 8]);
    let records = ipc.read_user_records();
    assert_eq!(&records[0].command[..], b"01234567890123456789012345678901");
    assert_eq!(&records[0].username[0..4], b"bob\0");
    assert_eq!(records[0].download_speed, [1, 2, 3, 4]);
    assert_eq!(records[0].upload_speed, [5, 6, 7, 8]);
}

#[test]
fn publish_overwrites_the_first_slot() {
    let mut ipc = region(1024);
    update_ipc(&mut ipc, "alice", "ssh", [0; 4], [0; 4]);
    update_ipc(&mut ipc, "bob", "vi", [1; 4], [2; 4]);
    assert_eq!(ipc.read_user_records(), vec![UserRecord::new("bob", "vi", [1; 4], [2; 4])]);
}

#[test]
fn write_user_record_writes_the_first_slot() {
    let mut ipc = region(216);
    let r = record("carol", "make", 3.5, 0.0);
    ipc.write_user_record(r);
    assert_eq!(ipc.read_user_records(), vec![r]);
    assert_eq!(ipc.first_free_slot(), Some(1));
}

#[test]
fn writing_one_slot_leaves_the_others() {
    let mut ipc = region(216);
    let a = record("alice", "ssh", 1.0, 2.0);
    let b = record("bob", "scp", 3.0, 4.0);
    let c = record("carol", "git", 5.0, 6.0);
    ipc.write_slot(1, b);
    ipc.write_slot(2, c);
    assert_eq!(ipc.read_user_records(), vec![b, c]);
    ipc.write_slot(0, a);
    assert_eq!(ipc.read_user_records(), vec![a, b, c]);
    let again = record("dave", "curl", 7.0, 8.0);
    ipc.write_slot(0, again);
    assert_eq!(ipc.read_user_records(), vec![again, b, c]);
    ipc.write_slot(1, a);
    assert_eq!(ipc.read_user_records(), vec![again, a, c]);
}

#[test]
fn scan_returns_records_in_slot_order() {
    let mut ipc = region(1024);
    let a = record("a", "1", 1.0, 1.0);
    let b = record("b", "2", 2.0, 2.0);
    let c = record("c", "3", 3.0, 3.0);
    ipc.write_slot(13, c);
    ipc.write_slot(7, b);
    ipc.write_slot(2, a);
    assert_eq!(ipc.read_user_records(), vec![a, b, c]);
    assert_eq!(ipc.first_free_slot(), Some(0));
}

#[test]
fn writing_zeros_empties_a_slot() {
    let mut ipc = region(144);
    let a = record("alice", "ssh", 1.0, 2.0);
    let zero = UserRecord::from_bytes(&[0u8; 72]).unwrap();
    ipc.write_slot(0, a);
    ipc.write_slot(1, a);
    assert_eq!(ipc.read_user_records(), vec![a, a]);
    assert_eq!(ipc.first_free_slot(), None);
    ipc.write_slot(0, zero);
    assert_eq!(ipc.read_user_records(), vec![a]);
    assert_eq!(ipc.first_free_slot(), Some(0));
}

#[test]
fn record_with_one_set_byte_is_not_empty() {
    let mut ipc = region(72);
    let mut r = UserRecord::from_bytes(&[0u8; 72]).unwrap();
    r.upload_speed[3] = 1;
    ipc.write_slot(0, r);
    assert_eq!(ipc.read_user_records(), vec![r]);
}

#[test]
fn trailing_partial_slot_is_ignored() {
    let mut ipc = region(100);
    assert_eq!(ipc.capacity(), 100);
    assert_eq!(ipc.slot_count(), 1);
    let a = record("alice", "ssh", 1.0, 2.0);
    ipc.write_slot(0, a);
    assert_eq!(ipc.read_user_records(), vec![a]);
    assert_eq!(ipc.first_free_slot(), None);
    assert_eq!(region(143).slot_count(), 1);
    assert_eq!(region(71).slot_count(), 0);
    assert_eq!(region(71).first_free_slot(), None);
    assert!(region(71).read_user_records().is_empty());
    assert_eq!(region(0).slot_count(), 0);
}

#[test]
fn first_free_slot_is_the_lowest_empty_one() {
    let mut ipc = region(288);
    let a = record("alice", "ssh", 1.0, 2.0);
    assert_eq!(ipc.first_free_slot(), Some(0));
    ipc.write_slot(0, a);
    ipc.write_slot(1, a);
    ipc.write_slot(3, a);
    assert_eq!(ipc.first_free_slot(), Some(2));
    ipc.write_slot(2, a);
    assert_eq!(ipc.first_free_slot(), None);
    assert_eq!(ipc.read_user_records().len(), 4);
}

#[test]
fn is_all_zero_tells_zeros() {
    assert!(is_all_zero(&[]));
    assert!(is_all_zero(&[0u8; 72]));
    assert!(!is_all_zero(&[1]));
    let mut bytes = [0u8; 72];
    bytes[71] = 1;
    assert!(!is_all_zero(&bytes));
    bytes[71] = 0;
    bytes[0] = 0x80;
    assert!(!is_all_zero(&bytes));
}

#[test]
fn interleaved_writes_and_scans_see_whole_records() {
    let mut ipc = region(1024);
    let mut expected: Vec<Option<UserRecord>> = vec![None; 14];
    for round in 0..50u32 {
        for slot in 0..14usize {
            if (round as usize + slot) % 3 == 0 {
                let name = format!("user{}", round);
                let command = format!("cmd{}", slot);
                let r = record(&name, &command, round as f32, slot as f32);
                ipc.write_slot(slot, r);
                expected[slot] = Some(r);
            }
            let seen = ipc.read_user_records();
            let want: Vec<UserRecord> = expected.iter().filter_map(|r| *r).collect();
            assert_eq!(seen, want);
        }
    }
}
