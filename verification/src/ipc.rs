//! The shared buffer: a region of record slots with one owner, written
//! slot by slot and scanned as a whole.

use vstd::prelude::*;
use vstd::slice::slice_subrange;
use vstd::string::StringExecFns;
use crate::key::{parse_key, parse_key_spec, KeyParseError};
use crate::region::{
    is_zero, lemma_scan_ends, lemma_scan_step, scan, scan_range, slot_bytes, slot_count, written,
    zeros,
};
use crate::user_record::{encode, record_of, RecordView, RECORD_SIZE};
pub use crate::user_record::UserRecord;

verus! {

/// Number of bytes in the region that `Ipc::new` allocates.
pub const REGION_SIZE: usize = 1024;

/// Why a key does not name a region.
#[derive(Debug, Clone, Copy, PartialEq, Eq)]
pub enum IpcError {
    /// The key does not start with `0x`.
    InvalidKeyFormat,
    /// What follows the prefix is not a hexadecimal number of 32 bits.
    ParseError(KeyParseError),
}

impl IpcError {
    /// The text that `message` returns.
    pub open spec fn message_spec(self) -> Seq<char> {
        match self {
            IpcError::InvalidKeyFormat => "Invalid IPC key format"@,
            IpcError::ParseError(e) => "Failed to parse IPC key: "@ + e.message_spec(),
        }
    }

    /// What went wrong, in words.
    pub fn message(&self) -> (text: String)
        ensures
            text@ == self.message_spec(),
    {
        match self {
            IpcError::InvalidKeyFormat => String::from_str("Invalid IPC key format"),
            IpcError::ParseError(e) => String::from_str("Failed to parse IPC key: ").concat(
                e.message(),
            ),
        }
    }
}

/// A region of record slots, together with the key that names it.
///
/// The region is allocated once, filled with zeros, and never resized.
/// It can be reached only through the methods of this type: writing
/// takes the buffer by `&mut`, so that no scan runs while a record is
/// being written.
#[derive(Debug)]
pub struct Ipc {
    ipc_key: String,
    key: u32,
    memory: Vec<u8>,
}

/// The mathematical value of a shared buffer.
pub struct IpcView {
    /// The key as it was given.
    pub ipc_key: Seq<char>,
    /// The number that the key denotes.
    pub key: u32,
    /// The bytes of the region.
    pub region: Seq<u8>,
}

impl View for Ipc {
    type V = IpcView;

    closed spec fn view(&self) -> IpcView {
        IpcView { ipc_key: self.ipc_key@, key: self.key, region: self.memory@ }
    }
}

/// `free` is the lowest empty slot of `region`, or `None` where no slot
/// is empty.
pub open spec fn first_free(region: Seq<u8>, free: Option<usize>) -> bool {
    match free {
        Some(slot) => {
            &&& slot < slot_count(region)
            &&& is_zero(slot_bytes(region, slot as int))
            &&& forall|below: int|
                0 <= below < slot ==> !is_zero(#[trigger] slot_bytes(region, below))
        },
        None => forall|slot: int|
            0 <= slot < slot_count(region) ==> !is_zero(#[trigger] slot_bytes(region, slot)),
    }
}

/// `bytes` holds nothing but zeros.
pub fn is_all_zero(bytes: &[u8]) -> (zero: bool)
    ensures
        zero == is_zero(bytes@),
{
    let mut i: usize = 0;
    while i < bytes.len()
        invariant
            i <= bytes.len(),
            forall|j: int| 0 <= j < i ==> bytes@[j] == 0,
        decreases bytes.len() - i,
    {
        if bytes[i] != 0 {
            return false;
        }
        i += 1;
    }
    true
}

impl Ipc {
    #[verifier::type_invariant]
    spec fn key_is_valid(self) -> bool {
        parse_key_spec(self.ipc_key@) == Ok::<u32, IpcError>(self.key)
    }

    /// Attaches to the region that `ipc_key` names, with the default
    /// capacity of `REGION_SIZE` bytes.
    pub fn new(ipc_key: String) -> (result: Result<Ipc, IpcError>)
        ensures
            match result {
                Ok(ipc) => {
                    &&& parse_key_spec(ipc_key@) == Ok::<u32, IpcError>(ipc@.key)
                    &&& ipc@.ipc_key == ipc_key@
                    &&& ipc@.region == zeros(REGION_SIZE as nat)
                },
                Err(e) => parse_key_spec(ipc_key@) == Err::<u32, IpcError>(e),
            },
    {
        Ipc::with_capacity(ipc_key, REGION_SIZE)
    }

    /// Attaches to the region that `ipc_key` names, with a capacity of
    /// `capacity` bytes. Where `capacity` is no multiple of the record
    /// size, the bytes after the last whole slot are never used.
    pub fn with_capacity(ipc_key: String, capacity: usize) -> (result: Result<Ipc, IpcError>)
        ensures
            match result {
                Ok(ipc) => {
                    &&& parse_key_spec(ipc_key@) == Ok::<u32, IpcError>(ipc@.key)
                    &&& ipc@.ipc_key == ipc_key@
                    &&& ipc@.region == zeros(capacity as nat)
                },
                Err(e) => parse_key_spec(ipc_key@) == Err::<u32, IpcError>(e),
            },
    {
        match parse_key(ipc_key.as_str()) {
            Ok(key) => {
                let memory = vec![0u8; capacity];
                assert(memory@ =~= zeros(capacity as nat));
                Ok(Ipc { ipc_key, key, memory })
            },
            Err(e) => Err(e),
        }
    }

    /// The key as it was given.
    pub fn ipc_key(&self) -> (text: &str)
        ensures
            text@ == self@.ipc_key,
    {
        self.ipc_key.as_str()
    }

    /// The number that the key denotes.
    pub fn key(&self) -> (key: u32)
        ensures
            key == self@.key,
            parse_key_spec(self@.ipc_key) == Ok::<u32, IpcError>(key),
    {
        proof {
            use_type_invariant(self);
        }
        self.key
    }

    /// Number of bytes in the region.
    pub fn capacity(&self) -> (capacity: usize)
        ensures
            capacity == self@.region.len(),
    {
        self.memory.len()
    }

    /// Number of whole slots in the region.
    pub fn slot_count(&self) -> (count: usize)
        ensures
            count == slot_count(self@.region),
    {
        self.memory.len() / RECORD_SIZE
    }

    /// The lowest slot that is empty, if there is one.
    pub fn first_free_slot(&self) -> (free: Option<usize>)
        ensures
            first_free(self@.region, free),
    {
        let count = self.memory.len() / RECORD_SIZE;
        let mut slot: usize = 0;
        while slot < count
            invariant
                slot <= count,
                count == slot_count(self.memory@),
                forall|below: int|
                    0 <= below < slot ==> !is_zero(#[trigger] slot_bytes(self.memory@, below)),
            decreases count - slot,
        {
            assert(slot * RECORD_SIZE + RECORD_SIZE <= self.memory.len());
            let start = slot * RECORD_SIZE;
            let bytes = slice_subrange(self.memory.as_slice(), start, start + RECORD_SIZE);
            if is_all_zero(bytes) {
                return Some(slot);
            }
            slot += 1;
        }
        None
    }

    /// Writes `record` into slot `slot`, over whatever the slot held.
    /// The key, the size of the region and every byte outside the slot
    /// stay as they were.
    pub fn write_slot(&mut self, slot: usize, record: UserRecord)
        requires
            slot < slot_count(old(self)@.region),
        ensures
            final(self)@ == (IpcView {
                region: written(old(self)@.region, slot as int, record@),
                ..old(self)@
            }),
            final(self)@.region.len() == old(self)@.region.len(),
    {
        proof {
            use_type_invariant(&*self);
        }
        let bytes = record.to_bytes();
        let len = self.memory.len();
        let start = slot * RECORD_SIZE;
        let ghost before = self.memory@;
        let mut i: usize = 0;
        while i < RECORD_SIZE
            invariant
                i <= RECORD_SIZE,
                start == slot * RECORD_SIZE,
                start + RECORD_SIZE <= len,
                len == before.len(),
                self.key_is_valid(),
                bytes@ == encode(record@),
                bytes@.len() == RECORD_SIZE,
                self.ipc_key == old(self).ipc_key,
                self.key == old(self).key,
                self.memory@.len() == before.len(),
                forall|j: int| 0 <= j < start ==> self.memory@[j] == before[j],
                forall|j: int| 0 <= j < i ==> self.memory@[start + j] == bytes@[j],
                forall|j: int| start + i <= j < before.len() ==> self.memory@[j] == before[j],
            decreases RECORD_SIZE - i,
        {
            self.memory[start + i] = bytes[i];
            i += 1;
        }
        assert(self.memory@ =~= written(before, slot as int, record@));
    }

    /// Writes `record` into the first slot, over whatever that slot held.
    pub fn write_user_record(&mut self, record: UserRecord)
        requires
            slot_count(old(self)@.region) >= 1,
        ensures
            final(self)@ == (IpcView {
                region: written(old(self)@.region, 0, record@),
                ..old(self)@
            }),
            final(self)@.region.len() == old(self)@.region.len(),
    {
        self.write_slot(0, record)
    }

    /// Scans the region: decodes every slot and returns the records of
    /// those that are not empty, in slot order.
    pub fn read_user_records(&self) -> (records: Vec<UserRecord>)
        ensures
            records.deep_view() == scan(self@.region),
    {
        let mut records: Vec<UserRecord> = Vec::new();
        let count = self.memory.len() / RECORD_SIZE;
        let mut slot: usize = 0;
        proof {
            lemma_scan_ends(self.memory@, 0);
            assert(records.deep_view() =~= Seq::<RecordView>::empty());
        }
        while slot < count
            invariant
                slot <= count,
                count == slot_count(self.memory@),
                records.deep_view() == scan_range(self.memory@, 0, slot as int),
            decreases count - slot,
        {
            assert(slot * RECORD_SIZE + RECORD_SIZE <= self.memory.len());
            let start = slot * RECORD_SIZE;
            let bytes = slice_subrange(self.memory.as_slice(), start, start + RECORD_SIZE);
            let ghost seen = records.deep_view();
            proof {
                lemma_scan_step(self.memory@, 0, slot as int);
            }
            if !is_all_zero(bytes) {
                match UserRecord::from_bytes(bytes) {
                    Ok(record) => {
                        records.push(record);
                        assert(records.deep_view() =~= seen.push(record@));
                    },
                    Err(_) => {},
                }
            }
            slot += 1;
        }
        records
    }
}

/// Publishes one record for the given names and speeds: builds it and
/// writes it into the first slot of `ipc`. Names longer than their field
/// are truncated, shorter ones padded with zeros.
pub fn update_ipc(
    ipc: &mut Ipc,
    username: &str,
    command: &str,
    download_speed: [u8; 4],
    upload_speed: [u8; 4],
)
    requires
        slot_count(old(ipc)@.region) >= 1,
    ensures
        final(ipc)@ == (IpcView {
            region: written(
                old(ipc)@.region,
                0,
                record_of(username@, command@, download_speed@, upload_speed@),
            ),
            ..old(ipc)@
        }),
        final(ipc)@.region.len() == old(ipc)@.region.len(),
{
    let user_record = UserRecord::new(username, command, download_speed, upload_speed);
    ipc.write_user_record(user_record);
}

} // verus!
