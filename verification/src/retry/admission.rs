//! Bounded admission of handshakes that presented a valid cookie.

use vstd::prelude::*;
use vstd::string::*;

use crate::bytes::{bytes_equal, get_array, zeroes};
use crate::crypto::SHA384_OUTPUT_LEN;
use crate::handshake::RANDOM_LEN;
use crate::retry::cookie::{
    RetryAdmissionIdentity, ValidatedCookieView, ValidatedRetryCookie, ADDRESS_LEN,
};
use crate::retry::RetrySourceAddress;
use crate::text::{decimal, fixed, with_two_numbers};

verus! {

/// One admitted handshake.
pub struct AdmissionEntry {
    pub generation: u64,
    pub deadline: u64,
    pub identity: Seq<u8>,
}

/// The part of an identity by which its source is counted: an IPv4 address, or an IPv6 /64 prefix.
pub open spec fn quota_source(identity: Seq<u8>) -> Seq<u8> {
    if identity[0] == 4 {
        identity.take(5)
    } else {
        identity.take(9)
    }
}

/// Number of entries that satisfy a condition.
pub open spec fn tally(
    entries: Seq<Option<AdmissionEntry>>,
    wanted: spec_fn(Option<AdmissionEntry>) -> bool,
) -> nat
    decreases entries.len(),
{
    if entries.len() == 0 {
        0
    } else {
        tally(entries.drop_last(), wanted) + if wanted(entries.last()) {
            1nat
        } else {
            0nat
        }
    }
}

/// Holds of the entries that a source's quota counts.
pub open spec fn counts_for(source: Seq<u8>) -> spec_fn(Option<AdmissionEntry>) -> bool {
    |entry: Option<AdmissionEntry>|
        entry matches Some(held) && quota_source(held.identity) == source
}

/// Holds of the slots in use.
pub open spec fn in_use() -> spec_fn(Option<AdmissionEntry>) -> bool {
    |entry: Option<AdmissionEntry>| entry is Some
}

/// Holds of the entries whose deadline has come.
pub open spec fn due_at(now: u64) -> spec_fn(Option<AdmissionEntry>) -> bool {
    |entry: Option<AdmissionEntry>| entry matches Some(held) && now >= held.deadline
}

/// The entries left once every due one has been removed.
pub open spec fn swept(entries: Seq<Option<AdmissionEntry>>, now: u64) -> Seq<
    Option<AdmissionEntry>,
> {
    Seq::new(
        entries.len(),
        |i: int|
            if due_at(now)(entries[i]) {
                None
            } else {
                entries[i]
            },
    )
}

/// What an admission table holds.
pub struct AdmissionTableView {
    pub entries: Seq<Option<AdmissionEntry>>,
    pub per_source_limit: nat,
    pub handshake_timeout_seconds: u64,
    pub next_generation: u64,
}

impl AdmissionTableView {
    /// What every table keeps: quotas are respected, and entries differ in generation and identity.
    pub open spec fn well_formed(self) -> bool {
        &&& 0 < self.per_source_limit <= self.entries.len()
        &&& 0 < self.handshake_timeout_seconds
        &&& 0 < self.next_generation
        &&& forall|i: int|
            0 <= i < self.entries.len() ==> (#[trigger] self.entries[i] matches Some(entry) ==> 0
                < entry.generation < self.next_generation)
        &&& forall|i: int, j: int|
            0 <= i < j < self.entries.len() ==> (#[trigger] self.entries[i] matches Some(left) ==> (
            #[trigger] self.entries[j] matches Some(right) ==> left.generation != right.generation
                && left.identity != right.identity))
        &&& forall|source: Seq<u8>|
            #![trigger counts_for(source)]
            tally(self.entries, counts_for(source)) <= self.per_source_limit
    }

    /// The table without its due entries.
    pub open spec fn swept(self, now: u64) -> AdmissionTableView {
        AdmissionTableView { entries: swept(self.entries, now), ..self }
    }

    /// Whether a handshake holds an entry.
    pub open spec fn knows(self, identity: Seq<u8>) -> bool {
        exists|i: int|
            0 <= i < self.entries.len() && (#[trigger] self.entries[i] matches Some(entry)
                && entry.identity == identity)
    }

    /// Whether every slot is in use.
    pub open spec fn is_full(self) -> bool {
        forall|i: int| 0 <= i < self.entries.len() ==> #[trigger] self.entries[i] is Some
    }

    /// Whether `slot` is the first free slot.
    pub open spec fn is_first_free(self, slot: int) -> bool {
        &&& 0 <= slot < self.entries.len()
        &&& self.entries[slot] is None
        &&& forall|i: int| 0 <= i < slot ==> #[trigger] self.entries[i] is Some
    }

    /// The reason to refuse a cookie at `now` in a swept table, if any: the checks in order.
    pub open spec fn refusal(self, cookie: ValidatedCookieView, now: u64) -> Option<
        HandshakeAdmissionError,
    > {
        if now < cookie.validated_at {
            Some(HandshakeAdmissionError::ClockMovedBackwards)
        } else if now >= cookie.expires_at {
            Some(HandshakeAdmissionError::CookieExpired)
        } else if self.knows(cookie.identity) {
            None
        } else if tally(self.entries, counts_for(quota_source(cookie.identity)))
            >= self.per_source_limit {
            Some(HandshakeAdmissionError::PerSourceLimitReached)
        } else if self.is_full() {
            Some(HandshakeAdmissionError::PoolExhausted)
        } else if now + self.handshake_timeout_seconds > u64::MAX {
            Some(HandshakeAdmissionError::DeadlineOverflow)
        } else if self.next_generation == u64::MAX {
            Some(HandshakeAdmissionError::GenerationExhausted)
        } else {
            None
        }
    }

    /// The table after a handshake has been admitted into `slot` at `now`.
    pub open spec fn admitted(self, slot: int, identity: Seq<u8>, now: u64) -> AdmissionTableView {
        AdmissionTableView {
            entries: self.entries.update(
                slot,
                Some(
                    AdmissionEntry {
                        generation: self.next_generation,
                        deadline: (now + self.handshake_timeout_seconds) as u64,
                        identity,
                    },
                ),
            ),
            next_generation: (self.next_generation + 1) as u64,
            ..self
        }
    }

    /// Whether a lease names a live entry.
    pub open spec fn is_live(self, slot: int, generation: u64) -> bool {
        &&& 0 <= slot < self.entries.len()
        &&& self.entries[slot] matches Some(entry)
        &&& entry.generation == generation
    }

    /// The table after the entry in `slot` has been removed.
    pub open spec fn without(self, slot: int) -> AdmissionTableView {
        AdmissionTableView { entries: self.entries.update(slot, None), ..self }
    }
}

proof fn lemma_tally_take(
    entries: Seq<Option<AdmissionEntry>>,
    wanted: spec_fn(Option<AdmissionEntry>) -> bool,
    at: int,
)
    requires
        0 <= at < entries.len(),
    ensures
        tally(entries.take(at + 1), wanted) == tally(entries.take(at), wanted) + if wanted(
            entries[at],
        ) {
            1nat
        } else {
            0nat
        },
{
    assert(entries.take(at + 1).drop_last() =~= entries.take(at));
    assert(entries.take(at + 1).last() == entries[at]);
}

proof fn lemma_tally_update(
    entries: Seq<Option<AdmissionEntry>>,
    wanted: spec_fn(Option<AdmissionEntry>) -> bool,
    at: int,
    entry: Option<AdmissionEntry>,
)
    requires
        0 <= at < entries.len(),
    ensures
        tally(entries.update(at, entry), wanted) + if wanted(entries[at]) {
            1nat
        } else {
            0nat
        } == tally(entries, wanted) + if wanted(entry) {
            1nat
        } else {
            0nat
        },
    decreases entries.len(),
{
    let updated = entries.update(at, entry);
    if at == entries.len() - 1 {
        assert(updated.drop_last() =~= entries.drop_last());
    } else {
        lemma_tally_update(entries.drop_last(), wanted, at, entry);
        assert(updated.drop_last() =~= entries.drop_last().update(at, entry));
        assert(updated.last() == entries.last());
    }
}

proof fn lemma_tally_of_swept(
    entries: Seq<Option<AdmissionEntry>>,
    wanted: spec_fn(Option<AdmissionEntry>) -> bool,
    now: u64,
)
    requires
        !wanted(None),
    ensures
        tally(swept(entries, now), wanted) <= tally(entries, wanted),
    decreases entries.len(),
{
    if entries.len() > 0 {
        lemma_tally_of_swept(entries.drop_last(), wanted, now);
        assert(swept(entries, now).drop_last() =~= swept(entries.drop_last(), now));
    }
}

proof fn lemma_nothing_in_use(entries: Seq<Option<AdmissionEntry>>)
    requires
        forall|i: int| 0 <= i < entries.len() ==> #[trigger] entries[i] is None,
    ensures
        tally(entries, in_use()) == 0,
        forall|source: Seq<u8>| #[trigger] tally(entries, counts_for(source)) == 0,
    decreases entries.len(),
{
    if entries.len() > 0 {
        lemma_nothing_in_use(entries.drop_last());
        assert(entries.last() is None);
        assert forall|source: Seq<u8>| #[trigger] tally(entries, counts_for(source)) == 0 by {
            assert(tally(entries.drop_last(), counts_for(source)) == 0);
        }
    }
}

/// Sweeping keeps a table well-formed.
pub proof fn lemma_sweep_keeps_table(table: AdmissionTableView, now: u64)
    requires
        table.well_formed(),
    ensures
        table.swept(now).well_formed(),
{
    assert forall|source: Seq<u8>| #![trigger counts_for(source)] tally(
        table.swept(now).entries,
        counts_for(source),
    ) <= table.per_source_limit by {
        lemma_tally_of_swept(table.entries, counts_for(source), now);
    }
}

/// Sweeping releases exactly the due entries: those in use before are those released and those
/// still in use.
pub proof fn lemma_sweep_accounts_for_every_entry(
    entries: Seq<Option<AdmissionEntry>>,
    now: u64,
)
    ensures
        tally(swept(entries, now), in_use()) + tally(entries, due_at(now)) == tally(
            entries,
            in_use(),
        ),
    decreases entries.len(),
{
    if entries.len() > 0 {
        lemma_sweep_accounts_for_every_entry(entries.drop_last(), now);
        assert(swept(entries, now).drop_last() =~= swept(entries.drop_last(), now));
    }
}

/// Admission keeps the quota of every source, and entries stay distinct.
pub proof fn lemma_admission_keeps_table(
    table: AdmissionTableView,
    cookie: ValidatedCookieView,
    slot: int,
    now: u64,
)
    requires
        table.well_formed(),
        table.refusal(cookie, now) is None,
        !table.knows(cookie.identity),
        table.is_first_free(slot),
    ensures
        table.admitted(slot, cookie.identity, now).well_formed(),
{
    let next = table.admitted(slot, cookie.identity, now);
    assert forall|source: Seq<u8>| #![trigger counts_for(source)] tally(
        next.entries,
        counts_for(source),
    ) <= table.per_source_limit by {
        lemma_tally_update(table.entries, counts_for(source), slot, next.entries[slot]);
        assert(tally(table.entries, counts_for(source)) <= table.per_source_limit);
    }
    assert forall|i: int| 0 <= i < next.entries.len() implies (
    #[trigger] next.entries[i] matches Some(entry) ==> 0 < entry.generation
        < next.next_generation) by {
        if i != slot {
            assert(next.entries[i] == table.entries[i]);
        }
    }
    assert forall|i: int, j: int| 0 <= i < j < next.entries.len() implies (
    #[trigger] next.entries[i] matches Some(left) ==> (#[trigger] next.entries[j] matches Some(
        right,
    ) ==> left.generation != right.generation && left.identity != right.identity)) by {
        if i != slot {
            assert(next.entries[i] == table.entries[i]);
        }
        if j != slot {
            assert(next.entries[j] == table.entries[j]);
        }
    }
}

/// Removing an entry keeps a table well-formed.
pub proof fn lemma_release_keeps_table(table: AdmissionTableView, slot: int)
    requires
        table.well_formed(),
        0 <= slot < table.entries.len(),
    ensures
        table.without(slot).well_formed(),
{
    let next = table.without(slot);
    assert forall|source: Seq<u8>| #![trigger counts_for(source)] tally(
        next.entries,
        counts_for(source),
    ) <= table.per_source_limit by {
        lemma_tally_update(table.entries, counts_for(source), slot, None);
        assert(tally(table.entries, counts_for(source)) <= table.per_source_limit);
    }
}

/// Presenting an admitted cookie again, before its expiry and the entry's deadline, finds the same
/// entry and changes nothing.
pub proof fn lemma_admission_is_idempotent(
    table: AdmissionTableView,
    cookie: ValidatedCookieView,
    slot: int,
    now: u64,
    later: u64,
)
    requires
        table.well_formed(),
        table.refusal(cookie, now) is None,
        !table.knows(cookie.identity),
        table.is_first_free(slot),
        now <= later,
        later < cookie.expires_at,
        later < now + table.handshake_timeout_seconds,
    ensures
        ({
            let again = table.admitted(slot, cookie.identity, now).swept(later);
            &&& again.refusal(cookie, later) is None
            &&& again.knows(cookie.identity)
            &&& again.is_live(slot, table.next_generation)
        }),
{
    let again = table.admitted(slot, cookie.identity, now).swept(later);
    assert(again.entries[slot] matches Some(entry) && entry.identity == cookie.identity);
}

/// A lease whose entry is gone never names another one: every later admission has a generation of
/// its own.
pub proof fn lemma_leases_are_never_reused(
    table: AdmissionTableView,
    slot: int,
    generation: u64,
    reused: int,
    identity: Seq<u8>,
    now: u64,
)
    requires
        table.well_formed(),
        table.is_live(slot, generation),
        table.next_generation < u64::MAX,
        table.without(slot).is_first_free(reused),
    ensures
        !table.without(slot).is_live(slot, generation),
        !table.without(slot).admitted(reused, identity, now).is_live(slot, generation),
{
}

#[derive(Clone, Copy, Debug, PartialEq, Eq)]
enum AdmissionSource {
    Ipv4([u8; 4]),
    Ipv6Prefix64([u8; 8]),
}

impl AdmissionSource {
    spec fn bytes(self) -> Seq<u8> {
        match self {
            AdmissionSource::Ipv4(address) => seq![4u8] + address@,
            AdmissionSource::Ipv6Prefix64(prefix) => seq![6u8] + prefix@,
        }
    }

    fn of(identity: &RetryAdmissionIdentity) -> (source: AdmissionSource)
        ensures
            source.bytes() == quota_source(identity.bytes()),
    {
        let address = identity.source_address();
        let ghost encoded = identity.bytes().take(ADDRESS_LEN as int);
        proof {
            assert(encoded.len() == ADDRESS_LEN);
            assert(identity.bytes()[0] == encoded[0]);
            assert(identity.bytes().take(5) =~= encoded.take(5));
            assert(identity.bytes().take(9) =~= encoded.take(9));
        }
        match address {
            RetrySourceAddress::Ipv4(value) => {
                let source = AdmissionSource::Ipv4(value);
                assert(source.bytes() =~= encoded.take(5));
                source
            },
            RetrySourceAddress::Ipv6(value) => {
                let source = AdmissionSource::Ipv6Prefix64(get_array::<8>(&value, 0));
                assert(source.bytes() =~= encoded.take(9));
                source
            },
        }
    }

    fn same_as(&self, other: &AdmissionSource) -> (same: bool)
        ensures
            same == (self.bytes() == other.bytes()),
    {
        proof {
            assert(self.bytes().skip(1) =~= match *self {
                AdmissionSource::Ipv4(address) => address@,
                AdmissionSource::Ipv6Prefix64(prefix) => prefix@,
            });
            assert(other.bytes().skip(1) =~= match *other {
                AdmissionSource::Ipv4(address) => address@,
                AdmissionSource::Ipv6Prefix64(prefix) => prefix@,
            });
        }
        match (self, other) {
            (AdmissionSource::Ipv4(left), AdmissionSource::Ipv4(right)) => bytes_equal(left, right),
            (
                AdmissionSource::Ipv6Prefix64(left),
                AdmissionSource::Ipv6Prefix64(right),
            ) => bytes_equal(left, right),
            _ => {
                assert(self.bytes()[0] != other.bytes()[0]);
                false
            },
        }
    }
}

#[derive(Clone, Copy, PartialEq, Eq)]
struct HandshakeAdmissionSlot {
    occupied: bool,
    generation: u64,
    deadline: u64,
    source: AdmissionSource,
    identity: RetryAdmissionIdentity,
}

impl HandshakeAdmissionSlot {
    spec fn entry(self) -> Option<AdmissionEntry> {
        if self.occupied {
            Some(
                AdmissionEntry {
                    generation: self.generation,
                    deadline: self.deadline,
                    identity: self.identity.bytes(),
                },
            )
        } else {
            None
        }
    }

    spec fn well_formed(self) -> bool {
        if self.occupied {
            self.source.bytes() == quota_source(self.identity.bytes())
        } else {
            self.is_blank()
        }
    }

    spec fn is_blank(self) -> bool {
        &&& self.generation == 0
        &&& self.deadline == 0
        &&& self.source.bytes() == seq![4u8] + zeroes(4)
        &&& self.identity.bytes() == seq![4u8] + zeroes(
            (64 + RANDOM_LEN + SHA384_OUTPUT_LEN) as nat,
        )
    }

    fn empty() -> (slot: HandshakeAdmissionSlot)
        ensures
            slot.entry() is None,
            slot.well_formed(),
    {
        let address: [u8; 4] = [0u8; 4];
        assert(address@ =~= zeroes(4));
        HandshakeAdmissionSlot {
            occupied: false,
            generation: 0,
            deadline: 0,
            source: AdmissionSource::Ipv4(address),
            identity: RetryAdmissionIdentity::unused(),
        }
    }
}

/// Opaque fixed-table lease required to allocate an `INIT` reassembly slot.
#[derive(Clone, Copy, Debug, PartialEq, Eq, Structural)]
pub struct HandshakeAdmissionLease {
    slot: usize,
    generation: u64,
}

impl HandshakeAdmissionLease {
    /// The table slot that the lease names.
    pub closed spec fn slot_index(self) -> int {
        self.slot as int
    }

    /// The generation of the entry that the lease names.
    pub closed spec fn entry_generation(self) -> u64 {
        self.generation
    }
}

/// Idempotent result of post-cookie handshake admission.
#[derive(Clone, Copy, Debug, PartialEq, Eq, Structural)]
pub enum HandshakeAdmissionStatus {
    New(HandshakeAdmissionLease),
    Existing(HandshakeAdmissionLease),
}

impl HandshakeAdmissionStatus {
    pub fn lease(self) -> (lease: HandshakeAdmissionLease)
        ensures
            lease == match self {
                HandshakeAdmissionStatus::New(lease) => lease,
                HandshakeAdmissionStatus::Existing(lease) => lease,
            },
    {
        match self {
            HandshakeAdmissionStatus::New(lease) => lease,
            HandshakeAdmissionStatus::Existing(lease) => lease,
        }
    }
}

/// Fixed global and normalized-source post-cookie admission table.
///
/// IPv4 addresses are counted exactly. IPv6 addresses sharing the same /64 prefix share one quota.
/// Identical endpoint/version/CID bindings are idempotent and return the existing lease.
pub struct HandshakeAdmissionTable<const SLOTS: usize> {
    slots: [HandshakeAdmissionSlot; SLOTS],
    per_source_limit: usize,
    handshake_timeout_seconds: u64,
    next_generation: u64,
}

impl<const SLOTS: usize> View for HandshakeAdmissionTable<SLOTS> {
    type V = AdmissionTableView;

    closed spec fn view(&self) -> AdmissionTableView {
        AdmissionTableView {
            entries: Seq::new(SLOTS as nat, |i: int| self.slots@[i].entry()),
            per_source_limit: self.per_source_limit as nat,
            handshake_timeout_seconds: self.handshake_timeout_seconds,
            next_generation: self.next_generation,
        }
    }
}

impl<const SLOTS: usize> HandshakeAdmissionTable<SLOTS> {
    /// What every table keeps.
    pub open spec fn well_formed(&self) -> bool {
        &&& self@.well_formed()
        &&& self.slots_are_sound()
    }

    /// Whether every slot is in order by itself: an admitted handshake counts against its own
    /// source, and a free slot holds nothing of an earlier handshake.
    pub closed spec fn slots_are_sound(&self) -> bool {
        forall|i: int| 0 <= i < SLOTS ==> (#[trigger] self.slots@[i]).well_formed()
    }

    /// Creates one fixed-capacity post-cookie admission table.
    ///
    /// # Errors
    ///
    /// Returns an error for zero slots, zero per-source capacity, a source limit greater than
    /// global capacity, or a zero timeout.
    pub fn new(per_source_limit: usize, handshake_timeout_seconds: u64) -> (table: Result<
        HandshakeAdmissionTable<SLOTS>,
        HandshakeAdmissionError,
    >)
        ensures
            if SLOTS == 0 || per_source_limit == 0 || per_source_limit > SLOTS
                || handshake_timeout_seconds == 0 {
                table == Err::<HandshakeAdmissionTable<SLOTS>, HandshakeAdmissionError>(
                    HandshakeAdmissionError::InvalidConfiguration,
                )
            } else {
                &&& table matches Ok(table)
                &&& table.well_formed()
                &&& table@.entries == Seq::new(SLOTS as nat, |i: int| None::<AdmissionEntry>)
                &&& table@.per_source_limit == per_source_limit
                &&& table@.handshake_timeout_seconds == handshake_timeout_seconds
                &&& table@.next_generation == 1
            },
    {
        if SLOTS == 0 || per_source_limit == 0 || per_source_limit > SLOTS
            || handshake_timeout_seconds == 0 {
            return Err(HandshakeAdmissionError::InvalidConfiguration);
        }
        let table = HandshakeAdmissionTable {
            slots: [HandshakeAdmissionSlot::empty();SLOTS],
            per_source_limit,
            handshake_timeout_seconds,
            next_generation: 1,
        };
        proof {
            assert(table@.entries =~= Seq::new(SLOTS as nat, |i: int| None::<AdmissionEntry>));
            lemma_nothing_in_use(table@.entries);
            assert forall|source: Seq<u8>| #![trigger counts_for(source)] tally(
                table@.entries,
                counts_for(source),
            ) <= table@.per_source_limit by {
                assert(tally(table@.entries, counts_for(source)) == 0);
            }
        }
        Ok(table)
    }

    /// Admits one validated cookie under global/source quotas.
    ///
    /// Expired entries are swept first. Replaying the same valid cookie binding returns its
    /// existing lease without consuming capacity.
    ///
    /// # Errors
    ///
    /// Returns an error for an expired capability, quota/capacity exhaustion, deadline overflow,
    /// or generation exhaustion.
    pub fn admit_handshake(&mut self, cookie: &ValidatedRetryCookie, now: u64) -> (outcome: Result<
        HandshakeAdmissionStatus,
        HandshakeAdmissionError,
    >)
        requires
            old(self).well_formed(),
        ensures
            final(self).well_formed(),
            ({
                let table = old(self)@.swept(now);
                match table.refusal(cookie@, now) {
                    Some(error) => {
                        &&& outcome == Err::<HandshakeAdmissionStatus, HandshakeAdmissionError>(
                            error,
                        )
                        &&& final(self)@ == table
                    },
                    None => match outcome {
                        Ok(HandshakeAdmissionStatus::Existing(lease)) => {
                            &&& table.is_live(lease.slot_index(), lease.entry_generation())
                            &&& table.entries[lease.slot_index()]->0.identity == cookie@.identity
                            &&& final(self)@ == table
                        },
                        Ok(HandshakeAdmissionStatus::New(lease)) => {
                            &&& !table.knows(cookie@.identity)
                            &&& table.is_first_free(lease.slot_index())
                            &&& lease.entry_generation() == table.next_generation
                            &&& final(self)@ == table.admitted(
                                lease.slot_index(),
                                cookie@.identity,
                                now,
                            )
                        },
                        Err(_) => false,
                    },
                }
            }),
    {
        let _ = self.expire(now);
        let ghost table = self@;
        if now < cookie.validated_at() {
            return Err(HandshakeAdmissionError::ClockMovedBackwards);
        }
        if now >= cookie.expires_at() {
            return Err(HandshakeAdmissionError::CookieExpired);
        }
        let identity = cookie.identity();
        match self.find(&identity) {
            Some(index) => {
                return Ok(
                    HandshakeAdmissionStatus::Existing(
                        HandshakeAdmissionLease {
                            slot: index,
                            generation: self.slots[index].generation,
                        },
                    ),
                );
            },
            None => {},
        }
        let source = AdmissionSource::of(&identity);
        if self.count_source(&source) >= self.per_source_limit {
            return Err(HandshakeAdmissionError::PerSourceLimitReached);
        }
        let index: usize = match self.first_free() {
            Some(index) => index,
            None => {
                return Err(HandshakeAdmissionError::PoolExhausted);
            },
        };
        let deadline: u64 = match now.checked_add(self.handshake_timeout_seconds) {
            Some(deadline) => deadline,
            None => {
                return Err(HandshakeAdmissionError::DeadlineOverflow);
            },
        };
        let generation: u64 = self.next_generation;
        let next_generation: u64 = match generation.checked_add(1) {
            Some(next) => next,
            None => {
                return Err(HandshakeAdmissionError::GenerationExhausted);
            },
        };
        self.slots[index] =
        HandshakeAdmissionSlot { occupied: true, generation, deadline, source, identity };
        self.next_generation = next_generation;
        proof {
            assert(self@.entries =~= table.admitted(
                index as int,
                cookie@.identity,
                now,
            ).entries);
            lemma_admission_keeps_table(table, cookie@, index as int, now);
        }
        Ok(HandshakeAdmissionStatus::New(HandshakeAdmissionLease { slot: index, generation }))
    }

    fn find(&self, identity: &RetryAdmissionIdentity) -> (found: Option<usize>)
        ensures
            match found {
                Some(index) => {
                    &&& index < SLOTS
                    &&& self@.entries[index as int] matches Some(entry)
                    &&& entry.identity == identity.bytes()
                },
                None => !self@.knows(identity.bytes()),
            },
    {
        let mut i: usize = 0;
        while i < SLOTS
            invariant
                i <= SLOTS,
                forall|k: int|
                    0 <= k < i ==> (#[trigger] self@.entries[k] matches Some(entry)
                        ==> entry.identity != identity.bytes()),
            decreases SLOTS - i,
        {
            assert(self@.entries[i as int] == self.slots@[i as int].entry());
            if self.slots[i].occupied && self.slots[i].identity.same_as(identity) {
                return Some(i);
            }
            i = i + 1;
        }
        None
    }

    fn first_free(&self) -> (found: Option<usize>)
        ensures
            match found {
                Some(index) => index < SLOTS && self@.is_first_free(index as int),
                None => self@.is_full(),
            },
    {
        let mut i: usize = 0;
        while i < SLOTS
            invariant
                i <= SLOTS,
                forall|k: int| 0 <= k < i ==> #[trigger] self@.entries[k] is Some,
            decreases SLOTS - i,
        {
            assert(self@.entries[i as int] == self.slots@[i as int].entry());
            if !self.slots[i].occupied {
                return Some(i);
            }
            i = i + 1;
        }
        None
    }

    fn count_source(&self, source: &AdmissionSource) -> (count: usize)
        requires
            self.well_formed(),
        ensures
            count == tally(self@.entries, counts_for(source.bytes())),
    {
        let mut count: usize = 0;
        let mut i: usize = 0;
        while i < SLOTS
            invariant
                i <= SLOTS,
                count <= i,
                self.well_formed(),
                count == tally(self@.entries.take(i as int), counts_for(source.bytes())),
            decreases SLOTS - i,
        {
            proof {
                lemma_tally_take(self@.entries, counts_for(source.bytes()), i as int);
                assert(self@.entries[i as int] == self.slots@[i as int].entry());
                assert(self.slots@[i as int].well_formed());
            }
            if self.slots[i].occupied && self.slots[i].source.same_as(source) {
                count = count + 1;
            }
            i = i + 1;
        }
        assert(self@.entries.take(SLOTS as int) =~= self@.entries);
        count
    }

    /// Releases an exact live generation. Stale or duplicate releases do nothing.
    pub fn release(&mut self, lease: HandshakeAdmissionLease) -> (released: bool)
        requires
            old(self).well_formed(),
        ensures
            final(self).well_formed(),
            released == old(self)@.is_live(lease.slot_index(), lease.entry_generation()),
            final(self)@ == if released {
                old(self)@.without(lease.slot_index())
            } else {
                old(self)@
            },
    {
        if lease.slot >= SLOTS {
            return false;
        }
        assert(self@.entries[lease.slot as int] == self.slots@[lease.slot as int].entry());
        if !self.slots[lease.slot].occupied || self.slots[lease.slot].generation
            != lease.generation {
            return false;
        }
        self.slots[lease.slot] = HandshakeAdmissionSlot::empty();
        proof {
            assert(self@.entries =~= old(self)@.without(lease.slot as int).entries);
            lemma_release_keeps_table(old(self)@, lease.slot as int);
        }
        true
    }

    /// Sweeps all deadlines at or before `now` and returns the released count.
    pub fn expire(&mut self, now: u64) -> (released: usize)
        requires
            old(self).well_formed(),
        ensures
            final(self).well_formed(),
            final(self)@ == old(self)@.swept(now),
            released == tally(old(self)@.entries, due_at(now)),
    {
        let ghost before = self@.entries;
        let mut released: usize = 0;
        let mut i: usize = 0;
        while i < SLOTS
            invariant
                i <= SLOTS,
                released <= i,
                before == old(self)@.entries,
                before.len() == SLOTS,
                self.per_source_limit == old(self).per_source_limit,
                self.handshake_timeout_seconds == old(self).handshake_timeout_seconds,
                self.next_generation == old(self).next_generation,
                released == tally(before.take(i as int), due_at(now)),
                forall|k: int| 0 <= k < SLOTS ==> (#[trigger] self.slots@[k]).well_formed(),
                forall|k: int|
                    0 <= k < i ==> (#[trigger] self.slots@[k]).entry() == swept(before, now)[k],
                forall|k: int| i <= k < SLOTS ==> (#[trigger] self.slots@[k]).entry() == before[k],
            decreases SLOTS - i,
        {
            proof {
                lemma_tally_take(before, due_at(now), i as int);
                assert(self.slots@[i as int].entry() == before[i as int]);
            }
            if self.slots[i].occupied && now >= self.slots[i].deadline {
                self.slots[i] = HandshakeAdmissionSlot::empty();
                released = released + 1;
            }
            i = i + 1;
        }
        proof {
            assert(self@.entries =~= swept(before, now));
            assert(before.take(SLOTS as int) =~= before);
            lemma_sweep_keeps_table(old(self)@, now);
        }
        released
    }

    /// Returns the number of admitted handshakes.
    pub fn active(&self) -> (active: usize)
        ensures
            active == tally(self@.entries, in_use()),
    {
        let mut active: usize = 0;
        let mut i: usize = 0;
        while i < SLOTS
            invariant
                i <= SLOTS,
                active <= i,
                active == tally(self@.entries.take(i as int), in_use()),
            decreases SLOTS - i,
        {
            proof {
                lemma_tally_take(self@.entries, in_use(), i as int);
                assert(self@.entries[i as int] == self.slots@[i as int].entry());
            }
            if self.slots[i].occupied {
                active = active + 1;
            }
            i = i + 1;
        }
        assert(self@.entries.take(SLOTS as int) =~= self@.entries);
        active
    }

    /// Returns a text for diagnostics that shows no admitted handshake.
    pub fn debug_text(&self) -> (text: String)
        ensures
            text@ == ("HandshakeAdmissionTable { slots: \"<redacted>\", capacity: "@ + decimal(
                SLOTS as nat,
            ) + ", active: "@ + decimal(tally(self@.entries, in_use())) + ", per_source_limit: "@)
                + (""@ + decimal(self@.per_source_limit) + ", handshake_timeout_seconds: "@
                + decimal(self@.handshake_timeout_seconds as nat)
                + ", next_generation: \"<redacted>\" }"@),
    {
        with_two_numbers(
            "HandshakeAdmissionTable { slots: \"<redacted>\", capacity: ",
            SLOTS as u64,
            ", active: ",
            self.active() as u64,
            ", per_source_limit: ",
        ).concat(
            with_two_numbers(
                "",
                self.per_source_limit as u64,
                ", handshake_timeout_seconds: ",
                self.handshake_timeout_seconds,
                ", next_generation: \"<redacted>\" }",
            ).as_str(),
        )
    }
}

/// Post-cookie admission failure.
#[derive(Clone, Copy, Debug, PartialEq, Eq, Structural)]
pub enum HandshakeAdmissionError {
    InvalidConfiguration,
    ClockMovedBackwards,
    CookieExpired,
    PerSourceLimitReached,
    PoolExhausted,
    DeadlineOverflow,
    GenerationExhausted,
}

impl HandshakeAdmissionError {
    /// The diagnostic text of a failure.
    pub open spec fn message_text(self) -> Seq<char> {
        match self {
            HandshakeAdmissionError::InvalidConfiguration =>
            "invalid handshake admission configuration"@,
            HandshakeAdmissionError::ClockMovedBackwards =>
            "clock moved backwards after RETRY cookie validation"@,
            HandshakeAdmissionError::CookieExpired => "validated RETRY cookie expired"@,
            HandshakeAdmissionError::PerSourceLimitReached =>
            "per-source handshake admission limit reached"@,
            HandshakeAdmissionError::PoolExhausted => "global handshake admission pool exhausted"@,
            HandshakeAdmissionError::DeadlineOverflow => "handshake deadline overflow"@,
            HandshakeAdmissionError::GenerationExhausted =>
            "handshake admission generation exhausted"@,
        }
    }

    /// Returns the diagnostic text of this failure.
    pub fn message(&self) -> (text: String)
        ensures
            text@ == self.message_text(),
    {
        match *self {
            HandshakeAdmissionError::InvalidConfiguration => fixed(
                "invalid handshake admission configuration",
            ),
            HandshakeAdmissionError::ClockMovedBackwards => fixed(
                "clock moved backwards after RETRY cookie validation",
            ),
            HandshakeAdmissionError::CookieExpired => fixed("validated RETRY cookie expired"),
            HandshakeAdmissionError::PerSourceLimitReached => fixed(
                "per-source handshake admission limit reached",
            ),
            HandshakeAdmissionError::PoolExhausted => fixed(
                "global handshake admission pool exhausted",
            ),
            HandshakeAdmissionError::DeadlineOverflow => fixed("handshake deadline overflow"),
            HandshakeAdmissionError::GenerationExhausted => fixed(
                "handshake admission generation exhausted",
            ),
        }
    }
}

} // verus!
