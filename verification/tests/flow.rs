use ogtp::flow::{CREDIT_VALUE_LEN, Credit, CreditWindow, FlowError};
use ogtp::wire::WireError;

fn initial_credit() -> Credit {
    Credit {
        sequence: 1,
        max_uncommitted_bytes: 2_000,
        max_inflight_fragments: 2,
    }
}

#[test]
fn credit_value_round_trip() {
    let credit = initial_credit();
    let mut output = [0_u8; CREDIT_VALUE_LEN];
    assert_eq!(credit.encode(&mut output), Ok(CREDIT_VALUE_LEN));
    assert_eq!(Credit::decode(&output), Ok(credit));
}

#[test]
fn reservations_obey_both_limits() {
    let mut window = CreditWindow::new(initial_credit());
    assert_eq!(window.try_reserve(1_000), Ok(()));
    assert_eq!(window.try_reserve(1_000), Ok(()));
    assert_eq!(window.try_reserve(1), Err(FlowError::CreditExceeded));
    assert_eq!(window.outstanding_bytes(), 2_000);
    assert_eq!(window.outstanding_fragments(), 2);

    assert_eq!(window.release(1_000, 1), Ok(()));
    assert_eq!(window.try_reserve(500), Ok(()));
}

#[test]
fn stale_updates_are_ignored_and_lower_limits_stop_new_work() {
    let mut window = CreditWindow::new(initial_credit());
    window.try_reserve(1_000).expect("initial credit allows it");
    assert!(!window.apply_update(Credit {
        sequence: 1,
        max_uncommitted_bytes: 10_000,
        max_inflight_fragments: 10,
    }));
    assert!(window.apply_update(Credit {
        sequence: 2,
        max_uncommitted_bytes: 500,
        max_inflight_fragments: 1,
    }));
    assert_eq!(window.try_reserve(1), Err(FlowError::CreditExceeded));
    assert_eq!(window.release(1_000, 1), Ok(()));
    assert_eq!(window.try_reserve(500), Ok(()));
}

#[test]
fn invalid_release_does_not_mutate_accounting() {
    let mut window = CreditWindow::new(initial_credit());
    window.try_reserve(100).expect("credit allows it");
    assert_eq!(
        window.release(101, 1),
        Err(FlowError::ReleaseExceedsOutstanding)
    );
    assert_eq!(window.outstanding_bytes(), 100);
    assert_eq!(window.outstanding_fragments(), 1);
}

#[test]
fn credit_values_have_canonical_bytes_and_exact_lengths() {
    let credit = Credit {
        sequence: 0x0102_0304_0506_0708,
        max_uncommitted_bytes: 0x1112_1314_1516_1718,
        max_inflight_fragments: 0x2122_2324,
    };
    let mut output = [0_u8; CREDIT_VALUE_LEN + 1];
    assert_eq!(credit.encode(&mut output), Ok(CREDIT_VALUE_LEN));
    assert_eq!(
        output,
        [
            1, 2, 3, 4, 5, 6, 7, 8, 0x11, 0x12, 0x13, 0x14, 0x15, 0x16, 0x17, 0x18, 0x21, 0x22,
            0x23, 0x24, 0
        ]
    );
    assert_eq!(
        credit.encode(&mut output[..19]),
        Err(WireError::BufferTooSmall {
            needed: 20,
            available: 19,
        })
    );
    assert_eq!(
        Credit::decode(&output),
        Err(WireError::LengthMismatch {
            expected: 20,
            actual: 21,
        })
    );
}

#[test]
fn reservations_reject_empty_fragments_and_overflow() {
    let mut window = CreditWindow::new(Credit {
        sequence: 1,
        max_uncommitted_bytes: u64::MAX,
        max_inflight_fragments: u32::MAX,
    });
    assert_eq!(window.try_reserve(0), Err(FlowError::EmptyFragment));
    assert_eq!(window.try_reserve(u64::MAX), Ok(()));
    assert_eq!(window.try_reserve(1), Err(FlowError::AccountingOverflow));
    assert_eq!(window.outstanding_bytes(), u64::MAX);
    assert_eq!(
        window.release(0, 2),
        Err(FlowError::ReleaseExceedsOutstanding)
    );
    assert_eq!(window.release(u64::MAX, 1), Ok(()));
    assert_eq!(window.outstanding_bytes(), 0);
    assert_eq!(window.outstanding_fragments(), 0);
    assert_eq!(window.credit().sequence, 1);
    assert_eq!(FlowError::CreditExceeded.message(), "peer credit exceeded");
}

#[test]
fn the_newest_credit_wins_in_any_order() {
    let update = |sequence, bytes| Credit {
        sequence,
        max_uncommitted_bytes: bytes,
        max_inflight_fragments: 1,
    };
    let mut first = CreditWindow::new(initial_credit());
    assert!(first.apply_update(update(3, 30)));
    assert!(!first.apply_update(update(2, 20)));
    let mut second = CreditWindow::new(initial_credit());
    assert!(second.apply_update(update(2, 20)));
    assert!(second.apply_update(update(3, 30)));
    assert!(!second.apply_update(update(3, 30)));
    assert_eq!(first.credit(), second.credit());
}
