//! Canonical transcript records and signature inputs.

use vstd::prelude::*;
use vstd::string::*;

use crate::bytes::{be32, group_buffer_writes, overwrite_prefix};
use crate::bytes::{be32_bytes, put, put_u32, put_u8};
use crate::wire::long::MAX_LONG_CONNECTION_ID_LEN;

verus! {

/// Bytes in front of the domain label of a signature input.
pub const SIGNATURE_CONTEXT_PREFIX_LEN: usize = 64;

/// Bytes of a session context apart from its two connection IDs.
pub const SESSION_CONTEXT_FIXED_LEN: usize = 6;

/// Destination of canonical transcript bytes.
pub trait TranscriptSink {
    /// Every byte absorbed so far, oldest first.
    ///
    /// An implementation that is verified with this library defines it.
    closed spec fn fed(&self) -> Seq<u8> {
        vstd::pervasive::arbitrary()
    }

    /// Absorbs `bytes` behind everything absorbed before.
    fn update(&mut self, bytes: &[u8])
        ensures
            final(self).fed() == old(self).fed() + bytes@,
    ;
}

/// The side of a handshake that authenticates itself.
#[derive(Clone, Copy, Debug, PartialEq, Eq, Structural)]
pub enum AuthenticationRole {
    Initiator,
    Responder,
}

impl AuthenticationRole {
    /// Domain label of a role's signature input.
    pub open spec fn label(self) -> Seq<u8> {
        match self {
            AuthenticationRole::Initiator => "OGTP/1 initiator authentication".spec_bytes(),
            AuthenticationRole::Responder => "OGTP/1 responder authentication".spec_bytes(),
        }
    }
}

/// `length` bytes of padding in front of a domain label.
pub open spec fn signature_padding() -> Seq<u8> {
    Seq::new(SIGNATURE_CONTEXT_PREFIX_LEN as nat, |i: int| 0x20u8)
}

/// The bytes a role signs for a transcript hash.
pub open spec fn signature_input(role: AuthenticationRole, transcript_hash: Seq<u8>) -> Seq<u8> {
    signature_padding() + role.label() + seq![0u8] + transcript_hash
}

/// Feeds the bytes that `role` signs for a transcript hash.
pub fn feed_signature_input<S: TranscriptSink>(
    sink: &mut S,
    role: AuthenticationRole,
    transcript_hash: &[u8; 48],
)
    ensures
        final(sink).fed() == old(sink).fed() + signature_input(role, transcript_hash@),
{
    let padding: [u8; SIGNATURE_CONTEXT_PREFIX_LEN] = [0x20u8; SIGNATURE_CONTEXT_PREFIX_LEN];
    assert(padding@ =~= signature_padding());
    let separator: [u8; 1] = [0u8];
    assert(separator@ =~= seq![0u8]);
    sink.update(&padding);
    match role {
        AuthenticationRole::Initiator => sink.update("OGTP/1 initiator authentication".as_bytes()),
        AuthenticationRole::Responder => sink.update("OGTP/1 responder authentication".as_bytes()),
    }
    sink.update(&separator);
    sink.update(transcript_hash);
    assert(sink.fed() =~= old(sink).fed() + signature_input(role, transcript_hash@));
}

/// The two roles sign different bytes, whatever they sign.
pub proof fn lemma_signature_roles_are_separated(left: Seq<u8>, right: Seq<u8>)
    ensures
        signature_input(AuthenticationRole::Initiator, left) != signature_input(
            AuthenticationRole::Responder,
            right,
        ),
{
    lemma_role_labels();
    let a = signature_input(AuthenticationRole::Initiator, left);
    let b = signature_input(AuthenticationRole::Responder, right);
    assert(a[SIGNATURE_CONTEXT_PREFIX_LEN + 7] == AuthenticationRole::Initiator.label()[7]);
    assert(b[SIGNATURE_CONTEXT_PREFIX_LEN + 7] == AuthenticationRole::Responder.label()[7]);
}

/// Length of both role labels, and a position where they differ.
pub proof fn lemma_role_labels()
    ensures
        AuthenticationRole::Initiator.label().len() == 31,
        AuthenticationRole::Responder.label().len() == 31,
        AuthenticationRole::Initiator.label()[7] == 0x69,
        AuthenticationRole::Responder.label()[7] == 0x72,
{
    reveal_strlit("OGTP/1 initiator authentication");
    reveal_strlit("OGTP/1 responder authentication");
    let initiator = "OGTP/1 initiator authentication";
    let responder = "OGTP/1 responder authentication";
    assert(initiator.is_ascii());
    assert(responder.is_ascii());
    assert(initiator.spec_bytes() =~= Seq::new(
        initiator@.len(),
        |i: int| initiator@.index(i) as u8,
    ));
    assert(responder.spec_bytes() =~= Seq::new(
        responder@.len(),
        |i: int| responder@.index(i) as u8,
    ));
}

/// Kind of one canonical transcript record.
#[derive(Clone, Copy, Debug, PartialEq, Eq, Structural)]
pub enum TranscriptRecordType {
    SessionContext,
    Hello,
    Retry,
    Init,
    ResponsePrefix,
    ResponderAuthContent,
    ResponderFinished,
    InitiatorAuthContent,
    InitiatorFinished,
}

impl TranscriptRecordType {
    /// Wire code of a record kind.
    pub open spec fn code(self) -> u8 {
        match self {
            TranscriptRecordType::SessionContext => 1,
            TranscriptRecordType::Hello => 2,
            TranscriptRecordType::Retry => 3,
            TranscriptRecordType::Init => 4,
            TranscriptRecordType::ResponsePrefix => 5,
            TranscriptRecordType::ResponderAuthContent => 6,
            TranscriptRecordType::ResponderFinished => 7,
            TranscriptRecordType::InitiatorAuthContent => 8,
            TranscriptRecordType::InitiatorFinished => 9,
        }
    }

    /// Returns the wire code of this record kind.
    pub fn wire_code(self) -> (code: u8)
        ensures
            code == self.code(),
    {
        match self {
            TranscriptRecordType::SessionContext => 1,
            TranscriptRecordType::Hello => 2,
            TranscriptRecordType::Retry => 3,
            TranscriptRecordType::Init => 4,
            TranscriptRecordType::ResponsePrefix => 5,
            TranscriptRecordType::ResponderAuthContent => 6,
            TranscriptRecordType::ResponderFinished => 7,
            TranscriptRecordType::InitiatorAuthContent => 8,
            TranscriptRecordType::InitiatorFinished => 9,
        }
    }
}

/// Transcript serialization failures.
#[derive(Clone, Copy, Debug, PartialEq, Eq, Structural)]
pub enum TranscriptError {
    RecordTooLong { length: usize },
    ConnectionIdTooLong { length: usize },
    BufferTooSmall { needed: usize, available: usize },
}

impl TranscriptError {
    /// The diagnostic text of a failure.
    pub open spec fn message_text(self) -> Seq<char> {
        match self {
            TranscriptError::RecordTooLong { length } => "transcript record too long: "@
                + crate::text::decimal(length as nat) + ""@,
            TranscriptError::ConnectionIdTooLong { length } =>
            "transcript connection ID too long: "@ + crate::text::decimal(length as nat) + ""@,
            TranscriptError::BufferTooSmall { needed, available } =>
            "transcript output too small: needed "@ + crate::text::decimal(needed as nat)
                + ", available "@ + crate::text::decimal(available as nat) + ""@,
        }
    }

    /// Returns the diagnostic text of this failure.
    pub fn message(&self) -> (text: String)
        ensures
            text@ == self.message_text(),
    {
        match *self {
            TranscriptError::RecordTooLong { length } => crate::text::with_number(
                "transcript record too long: ",
                length as u64,
                "",
            ),
            TranscriptError::ConnectionIdTooLong { length } => crate::text::with_number(
                "transcript connection ID too long: ",
                length as u64,
                "",
            ),
            TranscriptError::BufferTooSmall { needed, available } => crate::text::with_two_numbers(
                "transcript output too small: needed ",
                needed as u64,
                ", available ",
                available as u64,
                "",
            ),
        }
    }
}

/// Canonical bytes of one transcript record: its kind, its length and its value.
pub open spec fn record(kind: TranscriptRecordType, value: Seq<u8>) -> Seq<u8> {
    seq![kind.code()] + be32(value.len() as u32) + value
}

/// Feeds one canonical transcript record.
///
/// # Errors
///
/// Returns an error, without feeding anything, for a value whose length does not fit 32 bits.
pub fn feed_record<S: TranscriptSink>(
    sink: &mut S,
    kind: TranscriptRecordType,
    value: &[u8],
) -> (outcome: Result<(), TranscriptError>)
    ensures
        value@.len() > u32::MAX ==> {
            &&& outcome == Err::<(), TranscriptError>(
                TranscriptError::RecordTooLong { length: value@.len() as usize },
            )
            &&& *final(sink) == *old(sink)
        },
        value@.len() <= u32::MAX ==> {
            &&& outcome == Ok::<(), TranscriptError>(())
            &&& final(sink).fed() == old(sink).fed() + record(kind, value@)
        },
{
    if value.len() > u32::MAX as usize {
        return Err(TranscriptError::RecordTooLong { length: value.len() });
    }
    let code: [u8; 1] = [kind.wire_code()];
    assert(code@ =~= seq![kind.code()]);
    let length: [u8; 4] = be32_bytes(value.len() as u32);
    sink.update(&code);
    sink.update(&length);
    sink.update(value);
    assert(sink.fed() =~= old(sink).fed() + record(kind, value@));
    Ok(())
}

/// Records followed by anything are parsed in one way only: transcripts that start with different
/// records are different.
pub proof fn lemma_record_is_prefix_free(
    left: TranscriptRecordType,
    left_value: Seq<u8>,
    left_rest: Seq<u8>,
    right: TranscriptRecordType,
    right_value: Seq<u8>,
    right_rest: Seq<u8>,
)
    requires
        left_value.len() <= u32::MAX,
        right_value.len() <= u32::MAX,
        record(left, left_value) + left_rest == record(right, right_value) + right_rest,
    ensures
        left == right,
        left_value == right_value,
        left_rest == right_rest,
{
    let bytes = record(left, left_value) + left_rest;
    let left_length = left_value.len() as u32;
    let right_length = right_value.len() as u32;
    assert(bytes[0] == left.code());
    assert(bytes[0] == right.code());
    crate::bytes::lemma_be32_inverse(left_length);
    crate::bytes::lemma_be32_inverse(right_length);
    assert(bytes.subrange(1, 5) =~= be32(left_length));
    assert(bytes.subrange(1, 5) =~= be32(right_length));
    assert(bytes.subrange(5, 5 + left_length) =~= left_value);
    assert(bytes.subrange(5, 5 + right_length) =~= right_value);
    assert(bytes.skip(5 + left_length) =~= left_rest);
    assert(bytes.skip(5 + right_length) =~= right_rest);
}

/// Connection context that every transcript starts with.
#[derive(Clone, Copy, Debug, PartialEq, Eq)]
pub struct SessionContext<'a> {
    pub version: u32,
    pub initiator_connection_id: &'a [u8],
    pub responder_connection_id: &'a [u8],
}

impl<'a> SessionContext<'a> {
    /// Canonical bytes of the context.
    pub open spec fn encoding(self) -> Seq<u8> {
        be32(self.version) + seq![self.initiator_connection_id@.len() as u8]
            + self.initiator_connection_id@ + seq![self.responder_connection_id@.len() as u8]
            + self.responder_connection_id@
    }

    /// The failure of encoding the context into `available` bytes, if any.
    pub open spec fn encode_failure(self, available: nat) -> Option<TranscriptError> {
        if self.initiator_connection_id@.len() > MAX_LONG_CONNECTION_ID_LEN {
            Some(
                TranscriptError::ConnectionIdTooLong {
                    length: self.initiator_connection_id@.len() as usize,
                },
            )
        } else if self.responder_connection_id@.len() > MAX_LONG_CONNECTION_ID_LEN {
            Some(
                TranscriptError::ConnectionIdTooLong {
                    length: self.responder_connection_id@.len() as usize,
                },
            )
        } else if available < self.encoding().len() {
            Some(
                TranscriptError::BufferTooSmall {
                    needed: self.encoding().len() as usize,
                    available: available as usize,
                },
            )
        } else {
            None
        }
    }

    /// Encodes the context.
    ///
    /// # Errors
    ///
    /// Returns an error for an oversized connection ID or a short output.
    pub fn encode(self, output: &mut [u8]) -> (written: Result<usize, TranscriptError>)
        ensures
            match self.encode_failure(old(output)@.len()) {
                Some(error) => {
                    &&& written == Err::<usize, TranscriptError>(error)
                    &&& final(output)@ == old(output)@
                },
                None => {
                    &&& written == Ok::<usize, TranscriptError>(self.encoding().len() as usize)
                    &&& final(output)@ == overwrite_prefix(old(output)@, self.encoding())
                },
            },
    {
        broadcast use group_buffer_writes;

        if self.initiator_connection_id.len() > MAX_LONG_CONNECTION_ID_LEN {
            return Err(
                TranscriptError::ConnectionIdTooLong { length: self.initiator_connection_id.len() },
            );
        }
        if self.responder_connection_id.len() > MAX_LONG_CONNECTION_ID_LEN {
            return Err(
                TranscriptError::ConnectionIdTooLong { length: self.responder_connection_id.len() },
            );
        }
        let needed: usize = SESSION_CONTEXT_FIXED_LEN + self.initiator_connection_id.len()
            + self.responder_connection_id.len();
        if output.len() < needed {
            return Err(TranscriptError::BufferTooSmall { needed, available: output.len() });
        }
        let mut at: usize = put_u32(output, 0, self.version);
        at = put_u8(output, at, self.initiator_connection_id.len() as u8);
        at = put(output, at, self.initiator_connection_id);
        at = put_u8(output, at, self.responder_connection_id.len() as u8);
        at = put(output, at, self.responder_connection_id);
        Ok(at)
    }
}

} // verus!
