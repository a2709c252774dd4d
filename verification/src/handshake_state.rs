//! Bounded handshake reassembly and transactional transcript state.

pub mod reassembly;
pub mod transcript_state;

pub use crate::handshake_state::reassembly::{
    decode_init_admission_prefix, decode_stateless_message, HandshakeAssemblyStatus,
    HandshakeReassembler, HandshakeReassemblyError, InitAdmissionView, ReassembledHandshakeMessage,
    ReassemblyAdmission, StatelessHandshakeMessage,
};
pub use crate::handshake_state::transcript_state::{
    AuthenticationTranscriptHashes, HandshakeTranscript, HandshakeTranscriptError,
    HandshakeTranscriptStage, InitiatorTranscriptMilestone, ResponderTranscriptMilestone,
    IDENTITY_AUTH_CONTENT_LEN, MAX_SESSION_CONTEXT_LEN,
};
