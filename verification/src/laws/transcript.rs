//! Laws of the handshake transcript.

use vstd::prelude::*;
use vstd::string::*;

use crate::bytes::{be32, overwrite_prefix};
use crate::crypto::{ForkableSha384Provider, Sha384Digest};
use crate::handshake::Hello;
use crate::handshake_state::transcript_state::TranscriptState;
use crate::handshake_state::{
    HandshakeTranscript, HandshakeTranscriptError, HandshakeTranscriptStage,
    InitiatorTranscriptMilestone, ResponderTranscriptMilestone,
};
use crate::laws::numbers::{lemma_readers_read_numbers, lemma_spells32, number_at};
use crate::transcript::{
    feed_record, feed_signature_input, AuthenticationRole, SessionContext, TranscriptError,
    TranscriptRecordType, TranscriptSink,
};

verus! {

/// The place of a record type in the order of the handshake, counted from one.
pub open spec fn record_place(kind: TranscriptRecordType) -> int {
    match kind {
        TranscriptRecordType::SessionContext => 1,
        TranscriptRecordType::Hello => 2,
        TranscriptRecordType::Retry => 3,
        TranscriptRecordType::Init => 4,
        TranscriptRecordType::ResponsePrefix => 5,
        TranscriptRecordType::ResponderAuthContent => 6,
        TranscriptRecordType::ResponderFinished => 7,
        TranscriptRecordType::InitiatorAuthContent => 8,
        TranscriptRecordType::InitiatorFinished => 9,
    }
}

/// The code of a record is its place in the order of the handshake.
pub proof fn lemma_record_codes_follow_the_handshake(kind: TranscriptRecordType, code: u8)
    requires
        call_ensures(TranscriptRecordType::wire_code, (kind,), code),
    ensures
        code == record_place(kind),
{
}

/// A record adds its code, its length in four bytes and its value behind what the transcript
/// already holds. Only a value whose length does not fit is refused.
pub proof fn lemma_records_are_length_prefixed<S: TranscriptSink>(
    kind: TranscriptRecordType,
    value: &[u8],
    outcome: Result<(), TranscriptError>,
)
    ensures
        forall|sink: &mut S| #[trigger]
            call_ensures(feed_record::<S>, (sink, kind, value), outcome) ==> {
                let before = sink.fed();
                let after = final(sink).fed();
                let start = before.len() as int;
                &&& outcome is Ok <==> value@.len() <= 0xffff_ffff
                &&& outcome is Err ==> after == before
                &&& outcome is Ok ==> {
                    &&& after.len() == before.len() + 5 + value@.len()
                    &&& after.take(start) == before
                    &&& after[start] == record_place(kind)
                    &&& number_at(after, start + 1, 4) == value@.len()
                    &&& after.skip(start + 5) == value@
                }
            },
{
    assert forall|sink: &mut S| #[trigger]
        call_ensures(feed_record::<S>, (sink, kind, value), outcome) && outcome is Ok implies {
        let before = sink.fed();
        let after = final(sink).fed();
        let start = before.len() as int;
        &&& after.len() == before.len() + 5 + value@.len()
        &&& after.take(start) == before
        &&& after[start] == record_place(kind)
        &&& number_at(after, start + 1, 4) == value@.len()
        &&& after.skip(start + 5) == value@
    } by {
        let before = sink.fed();
        let after = final(sink).fed();
        let start = before.len() as int;
        let length = value@.len() as u32;
        assert(after.take(start) =~= before);
        assert(after.subrange(start + 1, start + 5) =~= be32(length));
        lemma_spells32(after, start + 1, length);
        assert(after.skip(start + 5) =~= value@);
    }
}

/// What is signed for authentication is 64 spaces, the role's label, a zero byte, and the
/// transcript hash.
pub proof fn lemma_signed_content_names_the_role<S: TranscriptSink>(
    role: AuthenticationRole,
    hash: &[u8; 48],
)
    ensures
        forall|sink: &mut S| #[trigger]
            call_ensures(feed_signature_input::<S>, (sink, role, hash), ()) ==> {
                let spaces = Seq::new(64, |i: int| 32u8);
                let label = match role {
                    AuthenticationRole::Initiator =>
                    "OGTP/1 initiator authentication".spec_bytes(),
                    AuthenticationRole::Responder =>
                    "OGTP/1 responder authentication".spec_bytes(),
                };
                final(sink).fed() == sink.fed() + (spaces + label + seq![0u8] + hash@)
            },
{
    assert(crate::transcript::signature_padding() =~= Seq::new(64, |i: int| 32u8));
}

/// A session context is the version in four bytes, then the initiator's and the responder's
/// connection ID, each behind its length in one byte. A connection ID has at most 20 bytes.
pub proof fn lemma_session_context_layout(
    context: SessionContext<'_>,
    written: Result<usize, TranscriptError>,
)
    ensures
        forall|output: &mut [u8]| #[trigger]
            call_ensures(SessionContext::encode, (context, output), written) ==> {
                let after = final(output)@;
                let initiator = context.initiator_connection_id@;
                let responder = context.responder_connection_id@;
                let middle = 5int + initiator.len();
                let end = middle + 1 + responder.len();
                &&& written is Ok <==> initiator.len() <= 20 && responder.len() <= 20
                    && output@.len() >= end
                &&& written is Err ==> after == output@
                &&& written matches Err(error) ==> (error is ConnectionIdTooLong
                    <==> initiator.len() > 20 || responder.len() > 20)
                &&& written matches Ok(length) ==> {
                    &&& length == end
                    &&& after.len() == output@.len()
                    &&& number_at(after, 0, 4) == context.version
                    &&& after[4] == initiator.len()
                    &&& after.subrange(5, middle) == initiator
                    &&& after[middle] == responder.len()
                    &&& after.subrange(middle + 1, end) == responder
                    &&& after.skip(end) == output@.skip(end)
                }
            },
{
    assert forall|output: &mut [u8]| #[trigger]
        call_ensures(SessionContext::encode, (context, output), written)
            && written is Ok implies {
        let after = final(output)@;
        let initiator = context.initiator_connection_id@;
        let responder = context.responder_connection_id@;
        let middle = 5int + initiator.len();
        let end = middle + 1 + responder.len();
        &&& after.len() == output@.len()
        &&& number_at(after, 0, 4) == context.version
        &&& after[4] == initiator.len()
        &&& after.subrange(5, middle) == initiator
        &&& after[middle] == responder.len()
        &&& after.subrange(middle + 1, end) == responder
        &&& after.skip(end) == output@.skip(end)
    } by {
        lemma_session_context_bytes(context, output@);
    }
}

proof fn lemma_session_context_bytes(context: SessionContext<'_>, buffer: Seq<u8>)
    requires
        context.initiator_connection_id@.len() <= 20,
        context.responder_connection_id@.len() <= 20,
        buffer.len() >= context.encoding().len(),
    ensures
        ({
            let after = overwrite_prefix(buffer, context.encoding());
            let initiator = context.initiator_connection_id@;
            let responder = context.responder_connection_id@;
            let middle = 5int + initiator.len();
            let end = middle + 1 + responder.len();
            &&& after.len() == buffer.len()
            &&& number_at(after, 0, 4) == context.version
            &&& after[4] == initiator.len()
            &&& after.subrange(5, middle) == initiator
            &&& after[middle] == responder.len()
            &&& after.subrange(middle + 1, end) == responder
            &&& after.skip(end) == buffer.skip(end)
        }),
{
    let after = overwrite_prefix(buffer, context.encoding());
    let initiator = context.initiator_connection_id@;
    let responder = context.responder_connection_id@;
    let middle = 5int + initiator.len();
    let end = middle + 1 + responder.len();
    assert(after.subrange(0, 4) =~= be32(context.version));
    lemma_spells32(after, 0, context.version);
    assert(after.subrange(5, middle) =~= initiator);
    assert(after.subrange(middle + 1, end) =~= responder);
    assert(after.skip(end) =~= buffer.skip(end));
}

/// A record: its place in the order of the handshake, its length in four bytes, and its value.
pub open spec fn recorded(place: u8, value: Seq<u8>) -> Seq<u8> {
    seq![place] + be32(value.len() as u32) + value
}

/// A transcript starts with the session context and expects a HELLO.
pub proof fn lemma_transcripts_start_with_the_session<P: ForkableSha384Provider>(
    provider: &P,
    session: SessionContext<'_>,
    transcript: HandshakeTranscript<P>,
)
    requires
        call_ensures(HandshakeTranscript::<P>::new, (provider, session), Ok(transcript)),
    ensures
        transcript@.stage is ExpectHello,
        transcript@.absorbed == recorded(1, session.encoding()),
        transcript@.hello is None,
        session.initiator_connection_id@.len() <= 20,
        session.responder_connection_id@.len() <= 20,
{
}

/// A HELLO is recorded first, and retained.
pub proof fn lemma_hello_is_recorded_first<P: ForkableSha384Provider>(
    provider: &P,
    value: &[u8],
    outcome: Result<(), HandshakeTranscriptError<P::Error>>,
)
    ensures
        forall|transcript: &mut HandshakeTranscript<P>| #[trigger]
            call_ensures(
                HandshakeTranscript::<P>::record_hello,
                (transcript, provider, value),
                outcome,
            ) ==> {
                let before = transcript@;
                let after = final(transcript)@;
                &&& outcome is Err ==> after == before
                &&& !(before.stage is ExpectHello) ==> outcome is Err
                    && outcome->Err_0 is UnexpectedStage
                &&& outcome is Ok ==> {
                    &&& value@.len() == 90
                    &&& after.hello is Some && after.hello->0.encoding() == value@
                    &&& after == (TranscriptState {
                        stage: HandshakeTranscriptStage::ExpectRetry,
                        absorbed: before.absorbed + recorded(2, value@),
                        hello: after.hello,
                        ..before
                    })
                }
            },
{
}

/// A RETRY is recorded after the HELLO, and its random and cookie are retained.
pub proof fn lemma_retry_is_recorded_second<P: ForkableSha384Provider>(
    provider: &P,
    value: &[u8],
    outcome: Result<(), HandshakeTranscriptError<P::Error>>,
)
    ensures
        forall|transcript: &mut HandshakeTranscript<P>| #[trigger]
            call_ensures(
                HandshakeTranscript::<P>::record_retry,
                (transcript, provider, value),
                outcome,
            ) ==> {
                let before = transcript@;
                let after = final(transcript)@;
                &&& outcome is Err ==> after == before
                &&& !(before.stage is ExpectRetry) ==> outcome is Err
                    && outcome->Err_0 is UnexpectedStage
                &&& outcome is Ok ==> {
                    &&& 50 <= value@.len() <= 290
                    &&& after == (TranscriptState {
                        stage: HandshakeTranscriptStage::ExpectInit,
                        absorbed: before.absorbed + recorded(3, value@),
                        server_random: value@.subrange(0, 32),
                        cookie: value@.subrange(34, value@.len() as int),
                        ..before
                    })
                }
            },
{
    lemma_readers_read_numbers(value@, 32);
}

/// An INIT is recorded after the RETRY only if it repeats the retained HELLO, random and cookie.
pub proof fn lemma_init_repeats_the_retry<P: ForkableSha384Provider>(
    provider: &P,
    value: &[u8],
    outcome: Result<(), HandshakeTranscriptError<P::Error>>,
)
    ensures
        forall|transcript: &mut HandshakeTranscript<P>| #[trigger]
            call_ensures(
                HandshakeTranscript::<P>::record_init,
                (transcript, provider, value),
                outcome,
            ) ==> {
                let before = transcript@;
                let after = final(transcript)@;
                let end = 124 + number_at(value@, 122, 2);
                let repeated = {
                    &&& before.hello is Some
                    &&& before.hello->0.encoding() == value@.subrange(0, 90)
                    &&& before.server_random == value@.subrange(90, 122)
                    &&& before.cookie == value@.subrange(124, end)
                };
                &&& outcome is Err ==> after == before
                &&& !(before.stage is ExpectInit) ==> outcome is Err
                    && outcome->Err_0 is UnexpectedStage
                &&& outcome is Ok ==> repeated && after.stage is ExpectResponse && after.absorbed
                    == before.absorbed + recorded(4, value@) && after.hello == before.hello
                &&& outcome is Err && outcome->Err_0 is InitDoesNotMatchRetry ==> !repeated
            },
{
    lemma_readers_read_numbers(value@, 122);
}

/// Whether a RESPONSE stays within a HELLO: it selects an offered suite, no capability that was not
/// offered or is not known, and no larger limits.
pub open spec fn stays_within(value: Seq<u8>, hello: Hello) -> bool {
    let suite = number_at(value, 0, 2);
    let capabilities = number_at(value, 2, 4);
    &&& suite == 1 ==> hello.cipher_suite_bitmap % 2 == 1
    &&& suite == 2 ==> (hello.cipher_suite_bitmap / 2) % 2 == 1
    &&& capabilities as u32 & hello.capabilities == capabilities
    &&& capabilities < 8
    &&& number_at(value, 6, 2) <= hello.max_udp_payload
    &&& value[8] <= hello.max_paths
}

/// A RESPONSE is recorded after the INIT, up to its encrypted part, and only if it stays within the
/// retained HELLO. The hash up to there is what its authentication rests on.
pub proof fn lemma_response_is_held_to_the_offer<P: ForkableSha384Provider>(
    provider: &P,
    value: &[u8],
    outcome: Result<Sha384Digest, HandshakeTranscriptError<P::Error>>,
)
    ensures
        forall|transcript: &mut HandshakeTranscript<P>| #[trigger]
            call_ensures(
                HandshakeTranscript::<P>::record_response,
                (transcript, provider, value),
                outcome,
            ) ==> {
                let before = transcript@;
                let after = final(transcript)@;
                &&& outcome is Err ==> after == before
                &&& !(before.stage is ExpectResponse) ==> outcome is Err
                    && outcome->Err_0 is UnexpectedStage
                &&& outcome matches Ok(hash) ==> {
                    &&& value@.len() == 6_601
                    &&& before.hello is Some && stays_within(value@, before.hello->0)
                    &&& after.stage is ExpectResponderAuth
                    &&& after.absorbed == before.absorbed + recorded(5, value@.subrange(0, 1_180))
                    &&& after.hello is None
                    &&& hash@ == provider.sha384(after.absorbed)@
                    &&& after.pre_auth == hash@
                }
                &&& outcome is Err && outcome->Err_0 is NegotiationMismatch
                    ==> before.hello is Some && !stays_within(value@, before.hello->0)
            },
{
    assert forall|transcript: &mut HandshakeTranscript<P>| #[trigger]
        call_ensures(
            HandshakeTranscript::<P>::record_response,
            (transcript, provider, value),
            outcome,
        ) implies {
        let before = transcript@;
        &&& outcome is Ok ==> stays_within(value@, before.hello->0)
        &&& outcome is Err && outcome->Err_0 is NegotiationMismatch ==> !stays_within(
            value@,
            before.hello->0,
        )
    } by {
        if transcript@.hello is Some {
            lemma_offer(value@, transcript@.hello->0);
        }
    }
}

proof fn lemma_offer(value: Seq<u8>, hello: Hello)
    ensures
        ({
            let suite = crate::bytes::be16_at(value, 0);
            (suite == 1 || suite == 2) ==> stays_within(value, hello)
                == !crate::handshake_state::transcript_state::exceeds_offer(
                hello,
                suite,
                crate::bytes::be32_at(value, 2),
                crate::bytes::be16_at(value, 6),
                value[8],
            )
        }),
{
    lemma_readers_read_numbers(value, 0);
    lemma_readers_read_numbers(value, 2);
    lemma_readers_read_numbers(value, 6);
    let bitmap = hello.cipher_suite_bitmap;
    let offered = hello.capabilities;
    let negotiated = crate::bytes::be32_at(value, 2);
    assert((bitmap & 1 == 0) == (bitmap % 2 == 0)) by (bit_vector);
    assert((bitmap & 2 == 0) == ((bitmap / 2) % 2 == 0)) by (bit_vector);
    assert((negotiated & !offered == 0) == (negotiated & offered == negotiated)) by (bit_vector);
    assert((negotiated & !7u32 == 0) == (negotiated < 8)) by (bit_vector);
}

/// An authentication is recorded in two parts, its content and its MAC, the responder's first. Its
/// signature covers what precedes it, its MAC covers its content too, and what follows it covers
/// both.
pub proof fn lemma_authentications_are_recorded_in_two_parts<P: ForkableSha384Provider>(
    provider: &P,
    plaintext: &[u8],
    responder: Result<ResponderTranscriptMilestone, HandshakeTranscriptError<P::Error>>,
    initiator: Result<InitiatorTranscriptMilestone, HandshakeTranscriptError<P::Error>>,
)
    ensures
        forall|transcript: &mut HandshakeTranscript<P>| #[trigger]
            call_ensures(
                HandshakeTranscript::<P>::record_responder_auth,
                (transcript, provider, plaintext),
                responder,
            ) ==> {
                let before = transcript@;
                let after = final(transcript)@;
                let content = before.absorbed + recorded(6, plaintext@.subrange(0, 5_357));
                &&& responder is Err ==> after == before
                &&& !(before.stage is ExpectResponderAuth) ==> responder is Err
                    && responder->Err_0 is UnexpectedStage
                &&& responder matches Ok(milestone) ==> {
                    let hashes = milestone.authentication_hashes();
                    &&& plaintext@.len() == 5_405
                    &&& after.stage is ExpectInitiatorAuth
                    &&& after.absorbed == content + recorded(7, plaintext@.subrange(5_357, 5_405))
                    &&& hashes.signature_hash() == before.pre_auth
                    &&& hashes.finished_hash() == provider.sha384(content)@
                    &&& milestone.initiator_signature_hash() == provider.sha384(after.absorbed)@
                    &&& after.initiator_signature == milestone.initiator_signature_hash()
                }
            },
        forall|transcript: &mut HandshakeTranscript<P>| #[trigger]
            call_ensures(
                HandshakeTranscript::<P>::record_initiator_auth,
                (transcript, provider, plaintext),
                initiator,
            ) ==> {
                let before = transcript@;
                let after = final(transcript)@;
                let content = before.absorbed + recorded(8, plaintext@.subrange(0, 5_357));
                &&& initiator is Err ==> after == before
                &&& !(before.stage is ExpectInitiatorAuth) ==> initiator is Err
                    && initiator->Err_0 is UnexpectedStage
                &&& initiator matches Ok(milestone) ==> {
                    let hashes = milestone.authentication_hashes();
                    &&& plaintext@.len() == 5_405
                    &&& after.stage is Complete
                    &&& after.absorbed == content + recorded(9, plaintext@.subrange(5_357, 5_405))
                    &&& hashes.signature_hash() == before.initiator_signature
                    &&& hashes.finished_hash() == provider.sha384(content)@
                    &&& milestone.full_hash() == provider.sha384(after.absorbed)@
                }
            },
{
}

} // verus!
