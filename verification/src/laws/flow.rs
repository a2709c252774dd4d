//! Laws of flow credit.

use vstd::prelude::*;

use crate::bytes::{be32, be64, overwrite_prefix};
use crate::flow::{Credit, CreditWindow, FlowError};
use crate::laws::numbers::{
    lemma_spells32, lemma_spells64, number_at,
};
use crate::wire::WireError;

verus! {

/// A CREDIT value is 20 bytes: the sequence in eight, the byte limit in eight, and the fragment
/// limit in four. Nothing behind them is touched.
pub proof fn lemma_credit_layout(credit: Credit, written: Result<usize, WireError>)
    ensures
        forall|output: &mut [u8]| #[trigger]
            call_ensures(Credit::encode, (credit, output), written) ==> {
                let after = final(output)@;
                &&& written is Ok <==> output@.len() >= 20
                &&& written is Err ==> after == output@
                &&& written matches Ok(length) ==> {
                    &&& length == 20
                    &&& after.len() == output@.len()
                    &&& number_at(after, 0, 8) == credit.sequence
                    &&& number_at(after, 8, 8) == credit.max_uncommitted_bytes
                    &&& number_at(after, 16, 4) == credit.max_inflight_fragments
                    &&& after.skip(20) == output@.skip(20)
                }
            },
{
    assert forall|output: &mut [u8]| #[trigger]
        call_ensures(Credit::encode, (credit, output), written) && output@.len() >= 20 implies {
        let after = final(output)@;
        &&& number_at(after, 0, 8) == credit.sequence
        &&& number_at(after, 8, 8) == credit.max_uncommitted_bytes
        &&& number_at(after, 16, 4) == credit.max_inflight_fragments
        &&& after.len() == output@.len()
        &&& after.skip(20) == output@.skip(20)
    } by {
        lemma_credit_bytes(credit, output@);
    }
}

proof fn lemma_credit_bytes(credit: Credit, buffer: Seq<u8>)
    requires
        buffer.len() >= 20,
    ensures
        ({
            let after = overwrite_prefix(buffer, credit.encoding());
            &&& number_at(after, 0, 8) == credit.sequence
            &&& number_at(after, 8, 8) == credit.max_uncommitted_bytes
            &&& number_at(after, 16, 4) == credit.max_inflight_fragments
            &&& after.len() == buffer.len()
            &&& after.skip(20) == buffer.skip(20)
        }),
{
    let after = overwrite_prefix(buffer, credit.encoding());
    assert(after.subrange(0, 8) =~= be64(credit.sequence));
    assert(after.subrange(8, 16) =~= be64(credit.max_uncommitted_bytes));
    assert(after.subrange(16, 20) =~= be32(credit.max_inflight_fragments));
    lemma_spells64(after, 0, credit.sequence);
    lemma_spells64(after, 8, credit.max_uncommitted_bytes);
    lemma_spells32(after, 16, credit.max_inflight_fragments);
    assert(after.skip(20) =~= buffer.skip(20));
}

/// A CREDIT value is read from exactly 20 bytes, each limit from where it is written.
pub proof fn lemma_credit_is_read_where_it_is_written(
    input: &[u8],
    decoded: Result<Credit, WireError>,
)
    requires
        call_ensures(Credit::decode, (input,), decoded),
    ensures
        decoded is Ok <==> input@.len() == 20,
        decoded matches Ok(credit) ==> {
            &&& credit.sequence == number_at(input@, 0, 8)
            &&& credit.max_uncommitted_bytes == number_at(input@, 8, 8)
            &&& credit.max_inflight_fragments == number_at(input@, 16, 4)
        },
        decoded matches Err(error) ==> {
            &&& error is PacketTooShort <==> input@.len() < 20
            &&& error is LengthMismatch <==> input@.len() > 20
        },
{
    if decoded is Ok {
        let credit = decoded->Ok_0;
        lemma_credit_bytes(credit, input@);
        assert(overwrite_prefix(input@, credit.encoding()) =~= input@);
    }
}

/// A window starts with nothing outstanding under the given credit.
pub proof fn lemma_windows_start_empty(credit: Credit, window: CreditWindow)
    requires
        call_ensures(CreditWindow::new, (credit,), window),
    ensures
        window@.credit == credit,
        window@.outstanding_bytes == 0,
        window@.outstanding_fragments == 0,
{
}

/// A reservation adds one fragment and its bytes, and is granted exactly if it is not empty and
/// both limits of the credit still cover what is then outstanding.
pub proof fn lemma_reservations_stay_within_the_credit(
    bytes: u64,
    outcome: Result<(), FlowError>,
)
    ensures
        forall|window: &mut CreditWindow| #[trigger]
            call_ensures(CreditWindow::try_reserve, (window, bytes), outcome) ==> {
                let before = window@;
                let after = final(window)@;
                let total = before.outstanding_bytes + bytes;
                &&& after.credit == before.credit
                &&& outcome is Ok <==> bytes > 0 && total <= before.credit.max_uncommitted_bytes
                    && before.outstanding_fragments < before.credit.max_inflight_fragments
                &&& outcome is Ok ==> after.outstanding_bytes == total
                    && after.outstanding_fragments == before.outstanding_fragments + 1
                &&& outcome matches Err(error) ==> {
                    &&& after == before
                    &&& error is EmptyFragment <==> bytes == 0
                    &&& error is AccountingOverflow <==> bytes > 0 && (total > u64::MAX
                        || before.outstanding_fragments == u32::MAX)
                    &&& error is CreditExceeded <==> bytes > 0 && total <= u64::MAX
                        && before.outstanding_fragments < u32::MAX
                }
            },
{
}

/// A release takes off exactly what was committed, and never more than is outstanding.
pub proof fn lemma_releases_never_exceed_what_is_outstanding(
    bytes: u64,
    fragments: u32,
    outcome: Result<(), FlowError>,
)
    ensures
        forall|window: &mut CreditWindow| #[trigger]
            call_ensures(CreditWindow::release, (window, bytes, fragments), outcome) ==> {
                let before = window@;
                let after = final(window)@;
                &&& after.credit == before.credit
                &&& outcome is Ok <==> bytes <= before.outstanding_bytes && fragments
                    <= before.outstanding_fragments
                &&& outcome is Ok ==> after.outstanding_bytes + bytes == before.outstanding_bytes
                    && after.outstanding_fragments + fragments == before.outstanding_fragments
                &&& outcome matches Err(error) ==> error is ReleaseExceedsOutstanding && after
                    == before
            },
{
}

/// Only a newer credit replaces the one in force, whatever its limits, and nothing outstanding
/// changes.
pub proof fn lemma_only_newer_credit_applies(credit: Credit, applied: bool)
    ensures
        forall|window: &mut CreditWindow| #[trigger]
            call_ensures(CreditWindow::apply_update, (window, credit), applied) ==> {
                let before = window@;
                let after = final(window)@;
                &&& applied <==> credit.sequence > before.credit.sequence
                &&& applied ==> after.credit == credit
                &&& !applied ==> after.credit == before.credit
                &&& after.outstanding_bytes == before.outstanding_bytes
                &&& after.outstanding_fragments == before.outstanding_fragments
            },
{
}

} // verus!
