use ogtp::transcript::{
    feed_record, feed_signature_input, AuthenticationRole, SessionContext, TranscriptError,
    TranscriptRecordType, TranscriptSink,
};

#[derive(Default)]
struct Recorder(Vec<u8>);

impl TranscriptSink for Recorder {
    fn update(&mut self, bytes: &[u8]) {
        self.0.extend_from_slice(bytes);
    }
}

#[test]
fn records_carry_their_type_and_length() {
    let mut recorder = Recorder::default();
    feed_record(&mut recorder, TranscriptRecordType::Hello, b"abc").expect("record fits");
    assert_eq!(recorder.0[0], TranscriptRecordType::Hello.wire_code());
    assert!(recorder.0.ends_with(b"abc"));
    let first = recorder.0.len();
    feed_record(&mut recorder, TranscriptRecordType::Init, b"abc").expect("record fits");
    assert_eq!(recorder.0.len(), 2 * first);
    assert_ne!(recorder.0[..first], recorder.0[first..]);
}

#[test]
fn signature_inputs_of_the_two_roles_differ() {
    let mut initiator = Recorder::default();
    let mut responder = Recorder::default();
    feed_signature_input(&mut initiator, AuthenticationRole::Initiator, &[0x11; 48]);
    feed_signature_input(&mut responder, AuthenticationRole::Responder, &[0x11; 48]);
    assert!(initiator.0.starts_with(&[0x20; 64]));
    assert!(initiator.0.ends_with(&[0x11; 48]));
    assert_ne!(initiator.0, responder.0);
}

#[test]
fn session_contexts_bind_version_and_both_connection_ids() {
    let context = SessionContext {
        version: 0x0102_0304,
        initiator_connection_id: b"ab",
        responder_connection_id: b"c",
    };
    let mut output = [0_u8; 16];
    let written = context.encode(&mut output).expect("context encodes");
    assert_eq!(written, 9);
    assert_eq!(output[..4], [1, 2, 3, 4]);
    assert_eq!(
        context.encode(&mut output[..8]),
        Err(TranscriptError::BufferTooSmall {
            needed: 9,
            available: 8,
        })
    );
    let oversized = [0_u8; 256];
    assert_eq!(
        SessionContext {
            initiator_connection_id: &oversized,
            ..context
        }
        .encode(&mut output),
        Err(TranscriptError::ConnectionIdTooLong { length: 256 })
    );
}
