//! The fixed binary layout of one user record.
//!
//! A record takes 72 bytes: the user name (32 bytes), the active command
//! (32 bytes), the download speed (4 bytes) and the upload speed
//! (4 bytes), packed in this order. The two speeds are 32-bit floats in
//! the byte order of the host; this module moves their bytes and never
//! reads them as numbers.

use vstd::prelude::*;
use vstd::utf8::{decode_utf8, encode_utf8, valid_utf8};

verus! {

/// Number of bytes in each of the two text fields of a record.
pub const FIELD_SIZE: usize = 32;

/// Number of bytes in each of the two speed fields of a record.
pub const SPEED_SIZE: usize = 4;

/// Number of bytes in the encoding of one record.
pub const RECORD_SIZE: usize = 72;

/// Offset of the command field within an encoded record.
pub const COMMAND_OFFSET: usize = 32;

/// Offset of the download speed within an encoded record.
pub const DOWNLOAD_OFFSET: usize = 64;

/// Offset of the upload speed within an encoded record.
pub const UPLOAD_OFFSET: usize = 68;

/// One slot's decoded value.
#[derive(Debug, Clone, Copy, PartialEq, Eq)]
pub struct UserRecord {
    /// User name, zero-padded to its fixed capacity.
    pub username: [u8; 32],
    /// Active command, zero-padded to its fixed capacity.
    pub command: [u8; 32],
    /// Download rate in KB/s: the byte image of a 32-bit float in the
    /// host's byte order.
    pub download_speed: [u8; 4],
    /// Upload rate in KB/s: the byte image of a 32-bit float in the
    /// host's byte order.
    pub upload_speed: [u8; 4],
}

/// The mathematical value of a record: the contents of its four fields.
pub struct RecordView {
    pub username: Seq<u8>,
    pub command: Seq<u8>,
    pub download_speed: Seq<u8>,
    pub upload_speed: Seq<u8>,
}

impl RecordView {
    /// Each field has exactly its fixed size.
    pub open spec fn wf(self) -> bool {
        &&& self.username.len() == FIELD_SIZE
        &&& self.command.len() == FIELD_SIZE
        &&& self.download_speed.len() == SPEED_SIZE
        &&& self.upload_speed.len() == SPEED_SIZE
    }
}

impl View for UserRecord {
    type V = RecordView;

    open spec fn view(&self) -> RecordView {
        RecordView {
            username: self.username@,
            command: self.command@,
            download_speed: self.download_speed@,
            upload_speed: self.upload_speed@,
        }
    }
}

impl DeepView for UserRecord {
    type V = RecordView;

    open spec fn deep_view(&self) -> RecordView {
        self@
    }
}

/// Why a sequence of bytes could not be decoded.
#[derive(Debug, Clone, Copy, PartialEq, Eq)]
pub enum DecodeError {
    /// Fewer bytes were supplied than one record takes.
    TruncatedInput,
}

/// The encoding of a record: its four fields, one after the other.
pub open spec fn encode(r: RecordView) -> Seq<u8> {
    r.username + r.command + r.download_speed + r.upload_speed
}

/// The record that the first `RECORD_SIZE` bytes of `bytes` hold.
pub open spec fn decode(bytes: Seq<u8>) -> RecordView
    recommends
        bytes.len() >= RECORD_SIZE,
{
    RecordView {
        username: bytes.subrange(0, COMMAND_OFFSET as int),
        command: bytes.subrange(COMMAND_OFFSET as int, DOWNLOAD_OFFSET as int),
        download_speed: bytes.subrange(DOWNLOAD_OFFSET as int, UPLOAD_OFFSET as int),
        upload_speed: bytes.subrange(UPLOAD_OFFSET as int, RECORD_SIZE as int),
    }
}

/// A text field that holds `text`: its first `FIELD_SIZE` bytes where it
/// is longer than the field, and zeros after it where it is shorter.
pub open spec fn fit_field(text: Seq<u8>) -> Seq<u8> {
    Seq::new(
        FIELD_SIZE as nat,
        |i: int|
            if i < text.len() {
                text[i]
            } else {
                0u8
            },
    )
}

/// The record that a producer publishes for the given names and speeds.
/// The names are stored in UTF-8.
pub open spec fn record_of(
    username: Seq<char>,
    command: Seq<char>,
    download_speed: Seq<u8>,
    upload_speed: Seq<u8>,
) -> RecordView {
    RecordView {
        username: fit_field(encode_utf8(username)),
        command: fit_field(encode_utf8(command)),
        download_speed,
        upload_speed,
    }
}

/// The text that a sequence of bytes is displayed as: its UTF-8 reading,
/// with a replacement character in place of each malformed part.
pub uninterp spec fn utf8_lossy(bytes: Seq<u8>) -> Seq<char>;

/// Calls `String::from_utf8_lossy` of std, which reads bytes as UTF-8 and
/// puts U+FFFD in place of what is not. The contract names the text it
/// returns and claims that well-formed UTF-8 is read as it is.
#[verifier::external_body]
fn lossy_text(bytes: &[u8]) -> (text: String)
    ensures
        text@ == utf8_lossy(bytes@),
        valid_utf8(bytes@) ==> text@ == decode_utf8(bytes@),
{
    String::from_utf8_lossy(bytes).into_owned()
}

/// The `N` bytes of `bytes` that start at `start`, as an array.
fn copy_field<const N: usize>(bytes: &[u8], start: usize) -> (field: [u8; N])
    requires
        start + N <= bytes.len(),
    ensures
        field@ == bytes@.subrange(start as int, start + N),
{
    let mut field = [0u8; N];
    let mut i: usize = 0;
    while i < N
        invariant
            i <= N,
            start + N <= bytes.len(),
            forall|j: int| 0 <= j < i ==> field@[j] == bytes@[start + j],
        decreases N - i,
    {
        field[i] = bytes[start + i];
        i += 1;
    }
    assert(field@ =~= bytes@.subrange(start as int, start + N));
    field
}

/// Fits `text` into a text field: a text longer than the field is cut
/// after `FIELD_SIZE` bytes, a shorter one is followed by zeros.
pub fn text_field(text: &[u8]) -> (field: [u8; 32])
    ensures
        field@ == fit_field(text@),
{
    let mut field = [0u8; 32];
    let mut i: usize = 0;
    while i < FIELD_SIZE && i < text.len()
        invariant
            i <= FIELD_SIZE,
            i <= text.len(),
            forall|j: int| 0 <= j < i ==> field@[j] == text@[j],
            forall|j: int| i <= j < FIELD_SIZE ==> field@[j] == 0,
        decreases FIELD_SIZE - i,
    {
        field[i] = text[i];
        i += 1;
    }
    assert(field@ =~= fit_field(text@));
    field
}

impl UserRecord {
    /// Decodes the record at the start of `bytes`. Fails if there are
    /// fewer bytes than one record takes, and on nothing else: any
    /// content decodes, and bytes past the first `RECORD_SIZE` are
    /// ignored.
    pub fn from_bytes(bytes: &[u8]) -> (result: Result<UserRecord, DecodeError>)
        ensures
            result is Ok <==> bytes@.len() >= RECORD_SIZE,
            result matches Ok(record) ==> record@ == decode(bytes@),
            result matches Err(e) ==> e == DecodeError::TruncatedInput,
    {
        if bytes.len() < RECORD_SIZE {
            return Err(DecodeError::TruncatedInput);
        }
        Ok(
            UserRecord {
                username: copy_field::<32>(bytes, 0),
                command: copy_field::<32>(bytes, COMMAND_OFFSET),
                download_speed: copy_field::<4>(bytes, DOWNLOAD_OFFSET),
                upload_speed: copy_field::<4>(bytes, UPLOAD_OFFSET),
            },
        )
    }

    /// Encodes the record in its fixed layout.
    pub fn to_bytes(&self) -> (bytes: Vec<u8>)
        ensures
            bytes@ == encode(self@),
            bytes@.len() == RECORD_SIZE,
    {
        let mut bytes: Vec<u8> = Vec::with_capacity(RECORD_SIZE);
        bytes.extend_from_slice(&self.username);
        bytes.extend_from_slice(&self.command);
        bytes.extend_from_slice(&self.download_speed);
        bytes.extend_from_slice(&self.upload_speed);
        assert(bytes@ =~= encode(self@));
        bytes
    }

    /// Builds the record that a producer publishes: the two names in
    /// UTF-8, truncated or zero-padded to their fields, and the two
    /// speeds as given.
    pub fn new(
        username: &str,
        command: &str,
        download_speed: [u8; 4],
        upload_speed: [u8; 4],
    ) -> (record: UserRecord)
        ensures
            record@ == record_of(username@, command@, download_speed@, upload_speed@),
    {
        UserRecord {
            username: text_field(username.as_bytes()),
            command: text_field(command.as_bytes()),
            download_speed,
            upload_speed,
        }
    }

    /// The user name as it is displayed: all the bytes of the field,
    /// padding included, read as UTF-8.
    pub fn username_text(&self) -> (text: String)
        ensures
            text@ == utf8_lossy(self@.username),
            valid_utf8(self@.username) ==> text@ == decode_utf8(self@.username),
    {
        lossy_text(self.username.as_slice())
    }

    /// The command as it is displayed: all the bytes of the field,
    /// padding included, read as UTF-8.
    pub fn command_text(&self) -> (text: String)
        ensures
            text@ == utf8_lossy(self@.command),
            valid_utf8(self@.command) ==> text@ == decode_utf8(self@.command),
    {
        lossy_text(self.command.as_slice())
    }
}

impl DecodeError {
    /// The text that `message` returns.
    pub open spec fn message_spec(self) -> Seq<char> {
        "Input is shorter than one record"@
    }

    /// What went wrong, in words.
    pub fn message(&self) -> (text: &'static str)
        ensures
            text@ == self.message_spec(),
    {
        "Input is shorter than one record"
    }
}

/// Decoding the encoding of a record gives the record back, byte for
/// byte, and the encoding has exactly the size of a record.
pub proof fn lemma_decode_encode(r: RecordView)
    requires
        r.wf(),
    ensures
        encode(r).len() == RECORD_SIZE,
        decode(encode(r)) == r,
{
    let b = encode(r);
    assert(decode(b).username =~= r.username);
    assert(decode(b).command =~= r.command);
    assert(decode(b).download_speed =~= r.download_speed);
    assert(decode(b).upload_speed =~= r.upload_speed);
}

/// Every record has fields of the fixed sizes, and is determined by the
/// contents of its fields.
pub proof fn lemma_record_view(a: UserRecord, b: UserRecord)
    ensures
        a@.wf(),
        a@ == b@ <==> a == b,
{
    if a@ == b@ {
        assert(a.username =~= b.username);
        assert(a.command =~= b.command);
        assert(a.download_speed =~= b.download_speed);
        assert(a.upload_speed =~= b.upload_speed);
    }
}

/// Round trip: whatever the fields of a record hold, its encoding has the
/// size that decoding asks for, and the record `back` that decoding
/// gives for it is the record itself, every byte of the speeds included.
pub proof fn lemma_round_trip(r: UserRecord, back: UserRecord)
    requires
        back@ == decode(encode(r@)),
    ensures
        encode(r@).len() == RECORD_SIZE,
        decode(encode(r@)) == r@,
        back == r,
{
    lemma_record_view(back, r);
    lemma_decode_encode(r@);
}

/// Decoding never fails on content: whatever the bytes hold, they decode
/// to a record with fields of the fixed sizes, and only the first
/// `RECORD_SIZE` of them are read.
pub proof fn lemma_decode_any_content(bytes: Seq<u8>)
    requires
        bytes.len() >= RECORD_SIZE,
    ensures
        decode(bytes) == decode(bytes.take(RECORD_SIZE as int)),
        decode(bytes).wf(),
{
    let head = bytes.take(RECORD_SIZE as int);
    assert(decode(bytes).username =~= decode(head).username);
    assert(decode(bytes).command =~= decode(head).command);
    assert(decode(bytes).download_speed =~= decode(head).download_speed);
    assert(decode(bytes).upload_speed =~= decode(head).upload_speed);
}

/// A text that is longer than a field is cut after `FIELD_SIZE` bytes:
/// the field holds exactly the first `FIELD_SIZE` bytes of the text.
pub proof fn lemma_fit_field_truncates(text: Seq<u8>)
    requires
        text.len() >= FIELD_SIZE,
    ensures
        fit_field(text) == text.take(FIELD_SIZE as int),
{
    assert(fit_field(text) =~= text.take(FIELD_SIZE as int));
}

/// A text that is no longer than a field is stored whole, followed by
/// zeros up to the end of the field.
pub proof fn lemma_fit_field_pads(text: Seq<u8>)
    requires
        text.len() <= FIELD_SIZE,
    ensures
        fit_field(text) == text + Seq::new((FIELD_SIZE - text.len()) as nat, |i: int| 0u8),
{
    assert(fit_field(text) =~= text + Seq::new(
        (FIELD_SIZE - text.len()) as nat,
        |i: int| 0u8,
    ));
}

/// A name leaves the rest of the record alone, however long it is: the
/// encoding of a published record holds the fitted user name in its first
/// `FIELD_SIZE` bytes, and from there on only the command and the speeds.
pub proof fn lemma_username_confined(
    username: Seq<char>,
    command: Seq<char>,
    download_speed: Seq<u8>,
    upload_speed: Seq<u8>,
)
    requires
        download_speed.len() == SPEED_SIZE,
        upload_speed.len() == SPEED_SIZE,
    ensures
        record_of(username, command, download_speed, upload_speed).wf(),
        encode(record_of(username, command, download_speed, upload_speed)).take(
            FIELD_SIZE as int,
        ) == fit_field(encode_utf8(username)),
        encode(record_of(username, command, download_speed, upload_speed)).skip(
            FIELD_SIZE as int,
        ) == fit_field(encode_utf8(command)) + download_speed + upload_speed,
{
    let r = record_of(username, command, download_speed, upload_speed);
    assert(encode(r).take(FIELD_SIZE as int) =~= fit_field(encode_utf8(username)));
    assert(encode(r).skip(FIELD_SIZE as int) =~= fit_field(encode_utf8(command))
        + download_speed + upload_speed);
}

} // verus!
