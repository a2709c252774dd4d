use ogtp::ecn::{
    ECN_VALIDATION_PROBES, EcnCodepoint, EcnCounts, EcnError, EcnFailure, EcnReceiver,
    EcnState, EcnValidationResult, EcnValidator,
};

fn send_probe(validator: &mut EcnValidator) {
    let codepoint = validator.outgoing_codepoint();
    assert_eq!(codepoint, EcnCodepoint::Ect0);
    validator
        .on_packet_sent(codepoint)
        .expect("validation marking is permitted");
}

#[test]
fn receiver_counts_only_new_ecn_datagrams() {
    let mut receiver = EcnReceiver::default();
    receiver
        .on_datagram(EcnCodepoint::NotEct)
        .expect("Not-ECT is ignored");
    receiver
        .on_datagram(EcnCodepoint::Ect0)
        .expect("ECT(0) increments");
    receiver
        .on_datagram(EcnCodepoint::Ect1)
        .expect("ECT(1) increments");
    receiver
        .on_datagram(EcnCodepoint::Ce)
        .expect("CE increments");
    assert_eq!(
        receiver.counts(),
        EcnCounts {
            ect0: 1,
            ect1: 1,
            ce: 1,
        }
    );
}

#[test]
fn valid_probe_feedback_enables_ecn_and_reports_ce_delta() {
    let mut validator = EcnValidator::new(true);
    send_probe(&mut validator);
    send_probe(&mut validator);
    assert_eq!(
        validator.validate_ack(
            1,
            2,
            0,
            Some(EcnCounts {
                ect0: 1,
                ect1: 0,
                ce: 1,
            }),
        ),
        EcnValidationResult::Validated { ce_increase: 1 }
    );
    assert_eq!(validator.state(), EcnState::Capable);
    assert_eq!(validator.outgoing_codepoint(), EcnCodepoint::Ect0);
}

#[test]
fn missing_or_rewritten_feedback_disables_path_marking() {
    let mut missing = EcnValidator::new(true);
    send_probe(&mut missing);
    assert_eq!(
        missing.validate_ack(0, 1, 0, None),
        EcnValidationResult::Failed(EcnFailure::MissingCounts)
    );
    assert_eq!(missing.outgoing_codepoint(), EcnCodepoint::NotEct);

    let mut rewritten = EcnValidator::new(true);
    send_probe(&mut rewritten);
    assert_eq!(
        rewritten.validate_ack(0, 1, 0, Some(EcnCounts::default())),
        EcnValidationResult::Failed(EcnFailure::MarkingWasRewritten)
    );
}

#[test]
fn reordered_ack_does_not_fail_validation() {
    let mut validator = EcnValidator::new(true);
    send_probe(&mut validator);
    assert_eq!(
        validator.validate_ack(
            5,
            1,
            0,
            Some(EcnCounts {
                ect0: 1,
                ect1: 0,
                ce: 0,
            }),
        ),
        EcnValidationResult::Validated { ce_increase: 0 }
    );
    assert_eq!(
        validator.validate_ack(4, 0, 0, Some(EcnCounts::default())),
        EcnValidationResult::Ignored
    );
    assert_eq!(validator.state(), EcnState::Capable);
}

#[test]
fn all_ten_validation_probes_lost_disables_ecn() {
    let mut validator = EcnValidator::new(true);
    for _ in 0..ECN_VALIDATION_PROBES {
        send_probe(&mut validator);
    }
    assert_eq!(validator.state(), EcnState::Unknown);
    assert_eq!(validator.outgoing_codepoint(), EcnCodepoint::NotEct);
    assert_eq!(
        validator.on_validation_probes_lost(u64::from(ECN_VALIDATION_PROBES)),
        EcnValidationResult::Failed(EcnFailure::AllValidationProbesLost)
    );
}

#[test]
fn impossible_cumulative_counts_are_rejected() {
    let mut validator = EcnValidator::new(true);
    send_probe(&mut validator);
    assert_eq!(
        validator.validate_ack(
            0,
            1,
            0,
            Some(EcnCounts {
                ect0: 2,
                ect1: 0,
                ce: 0,
            }),
        ),
        EcnValidationResult::Failed(EcnFailure::CountsExceedSentPackets)
    );
}

#[test]
fn ecn_accounting_errors_are_distinct() {
    let mut validator = EcnValidator::new(true);
    assert_eq!(
        validator.on_packet_sent(EcnCodepoint::Ect1),
        Err(EcnError::UnsupportedOutgoingCodepoint)
    );
    assert_eq!(
        validator.on_packet_sent(EcnCodepoint::Ce),
        Err(EcnError::UnsupportedOutgoingCodepoint)
    );
    let mut disabled = EcnValidator::new(false);
    assert_eq!(disabled.state(), EcnState::Disabled);
    assert_eq!(disabled.outgoing_codepoint(), EcnCodepoint::NotEct);
    assert_eq!(
        disabled.on_packet_sent(EcnCodepoint::Ect0),
        Err(EcnError::MarkingNotPermitted)
    );
    assert_eq!(disabled.on_packet_sent(EcnCodepoint::NotEct), Ok(()));
    assert_eq!(
        disabled.validate_ack(0, 1, 1, None),
        EcnValidationResult::Ignored
    );
    assert_eq!(
        EcnError::CounterOverflow.message(),
        "ECN counter overflow"
    );
}

#[test]
fn a_failed_path_stays_failed_with_its_first_reason() {
    let mut validator = EcnValidator::new(true);
    send_probe(&mut validator);
    send_probe(&mut validator);
    assert_eq!(
        validator.validate_ack(
            0,
            1,
            0,
            Some(EcnCounts {
                ect0: 1,
                ect1: 0,
                ce: 0,
            }),
        ),
        EcnValidationResult::Validated { ce_increase: 0 }
    );
    assert_eq!(
        validator.validate_ack(1, 1, 0, Some(EcnCounts::default())),
        EcnValidationResult::Failed(EcnFailure::CountersDecreased)
    );
    assert_eq!(
        validator.validate_ack(
            2,
            1,
            0,
            Some(EcnCounts {
                ect0: 2,
                ect1: 0,
                ce: 0,
            }),
        ),
        EcnValidationResult::Failed(EcnFailure::CountersDecreased)
    );
    assert_eq!(
        validator.on_validation_probes_lost(10),
        EcnValidationResult::Failed(EcnFailure::CountersDecreased)
    );
    assert_eq!(validator.state(), EcnState::Failed);
    assert_eq!(validator.outgoing_codepoint(), EcnCodepoint::NotEct);
    assert_eq!(
        validator.peer_counts(),
        EcnCounts {
            ect0: 1,
            ect1: 0,
            ce: 0,
        }
    );
}

#[test]
fn acknowledgements_without_marked_packets_need_no_counts() {
    let mut validator = EcnValidator::new(true);
    assert_eq!(
        validator.validate_ack(3, 0, 0, None),
        EcnValidationResult::Ignored
    );
    assert_eq!(
        validator.validate_ack(3, 1, 0, None),
        EcnValidationResult::Ignored
    );
    assert_eq!(
        validator.validate_ack(4, 0, 0, Some(EcnCounts::default())),
        EcnValidationResult::Validated { ce_increase: 0 }
    );
    assert_eq!(validator.state(), EcnState::Testing);
    assert_eq!(
        validator.validate_ack(5, u64::MAX, 1, Some(EcnCounts::default())),
        EcnValidationResult::Failed(EcnFailure::CountsExceedSentPackets)
    );
}
