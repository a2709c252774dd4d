//! Laws of stateless retry and handshake admission.

use vstd::prelude::*;
use vstd::string::*;

use crate::bytes::be32;
use crate::laws::numbers::{
    lemma_readers_read_numbers, lemma_spells32, number_at,
};
use crate::retry::admission::{
    in_use, tally, AdmissionEntry, HandshakeAdmissionError, HandshakeAdmissionLease,
    HandshakeAdmissionStatus, HandshakeAdmissionTable,
};
use crate::retry::cookie::{
    cookie_plaintext, issue_retry_cookie, lemma_payload_reads_back, settle_opened_cookie,
    settle_sealed_cookie, validate_retry_cookie, ValidatedRetryCookie,
};
use crate::retry::{
    CookieKeyView, RetryCookieBinding, RetryCookieError, RetryCookieKey, RetryCookieKeyError,
    RetryCookieKeyRing, RetryCookieOpenResult, RetryCookiePolicy, RetryCookiePolicyError,
    RetryCookieProvider, RetryCookieRotationError, RetrySourceAddress,
};

verus! {

/// A policy has a lifetime, and tolerates no more skew than that.
pub proof fn lemma_policies_outlive_their_skew(
    lifetime: u64,
    skew: u64,
    policy: Result<RetryCookiePolicy, RetryCookiePolicyError>,
)
    requires
        call_ensures(RetryCookiePolicy::new, (lifetime, skew), policy),
    ensures
        policy is Ok <==> lifetime > 0 && skew <= lifetime,
        policy matches Ok(policy) ==> policy.lifetime() == lifetime && policy.skew() == skew,
        policy matches Err(error) ==> (error is ZeroLifetime <==> lifetime == 0),
{
}

/// A key is first activated, then stops sealing, and is accepted at least until then. It starts
/// with its first nonce.
pub proof fn lemma_key_schedules_are_ordered<K>(
    key_id: u32,
    key: K,
    scope: [u8; 8],
    activate_at: u64,
    seal_until: u64,
    accept_until: u64,
    installed: Result<RetryCookieKey<K>, RetryCookieKeyError>,
)
    requires
        call_ensures(
            RetryCookieKey::<K>::new,
            (key_id, key, scope, activate_at, seal_until, accept_until),
            installed,
        ),
    ensures
        installed is Ok <==> activate_at < seal_until && seal_until <= accept_until,
        installed matches Ok(installed) ==> {
            &&& installed@.key_id == key_id
            &&& installed@.key == key
            &&& installed@.nonce_scope == scope
            &&& installed@.next_nonce_counter == 0
            &&& installed@.activate_at == activate_at
            &&& installed@.seal_until == seal_until
            &&& installed@.accept_until == accept_until
        },
{
}

/// A rotation makes the next key the active one and keeps the one before it. It waits until the
/// active key has stopped sealing and the previous one is no longer accepted, and takes only a key
/// that seals at that time under an identifier of its own.
pub proof fn lemma_rotation_waits_for_both_keys<K>(
    next: RetryCookieKey<K>,
    now: u64,
    outcome: Result<(), RetryCookieRotationError>,
)
    ensures
        forall|ring: &mut RetryCookieKeyRing<K>| #[trigger]
            call_ensures(RetryCookieKeyRing::<K>::rotate, (ring, next, now), outcome) ==> {
                let before = ring@;
                let after = final(ring)@;
                let retired = match before.previous {
                    Some(previous) => previous.accept_until <= now,
                    None => true,
                };
                let unique = next@.key_id != before.active.key_id && match before.previous {
                    Some(previous) => next@.key_id != previous.key_id,
                    None => true,
                };
                let sealing = next@.activate_at <= now && now < next@.seal_until;
                let done = before.active.seal_until <= now;
                &&& outcome is Ok <==> retired && done && sealing && unique
                &&& outcome is Ok ==> after.active == next@ && after.previous == Some(before.active)
                &&& outcome is Err ==> after == before
                &&& outcome matches Err(error) ==> {
                    &&& error is PreviousKeyStillRequired <==> !retired
                    &&& error is ActiveKeyStillSealing <==> retired && !done
                    &&& error is NextKeyNotActive <==> retired && done && !sealing
                    &&& error is DuplicateKeyId <==> retired && done && sealing && !unique
                }
            },
{
}

/// A previous key is retired exactly once it is no longer accepted, and the active key stays.
pub proof fn lemma_retirement_waits_for_acceptance<K>(now: u64, retired: bool)
    ensures
        forall|ring: &mut RetryCookieKeyRing<K>| #[trigger]
            call_ensures(RetryCookieKeyRing::<K>::retire_previous, (ring, now), retired) ==> {
                let before = ring@;
                let after = final(ring)@;
                &&& after.active == before.active
                &&& retired <==> before.previous is Some && before.previous->0.accept_until <= now
                &&& retired ==> after.previous is None
                &&& !retired ==> after.previous == before.previous
            },
{
}

/// Whether a cookie's plaintext describes a handshake: the two times in eight bytes each, the
/// address family and the address in 17, the port in two and the version in four, both connection
/// IDs behind their length and padded to 20 bytes, both randoms, and the hash of the HELLO.
pub open spec fn describes(
    plaintext: Seq<u8>,
    binding: RetryCookieBinding<'_>,
    issued_at: int,
    expires_at: int,
    hello_hash: Seq<u8>,
) -> bool {
    let initiator = binding.initiator_connection_id@;
    let responder = binding.responder_connection_id@;
    &&& number_at(plaintext, 0, 8) == issued_at
    &&& number_at(plaintext, 8, 8) == expires_at
    &&& match binding.source_address {
        RetrySourceAddress::Ipv4(address) => plaintext[16] == 4 && plaintext.subrange(17, 21)
            == address@,
        RetrySourceAddress::Ipv6(address) => plaintext[16] == 6 && plaintext.subrange(17, 33)
            == address@,
    }
    &&& number_at(plaintext, 33, 2) == binding.source_port
    &&& number_at(plaintext, 35, 4) == binding.version
    &&& plaintext[39] == initiator.len() <= 20
    &&& plaintext.subrange(40, 40int + initiator.len()) == initiator
    &&& plaintext[60] == responder.len() <= 20
    &&& plaintext.subrange(61, 61int + responder.len()) == responder
    &&& plaintext.subrange(81, 113) == binding.hello.client_random@
    &&& plaintext.subrange(113, 145) == binding.server_random@
    &&& plaintext.skip(145) == hello_hash
}

proof fn lemma_plaintext_describes(
    binding: RetryCookieBinding<'_>,
    issued_at: u64,
    expires_at: u64,
    hello_hash: Seq<u8>,
)
    requires
        binding.connection_id_failure() is None,
    ensures
        describes(
            cookie_plaintext(binding, issued_at, expires_at, hello_hash),
            binding,
            issued_at as int,
            expires_at as int,
            hello_hash,
        ),
{
    let plaintext = cookie_plaintext(binding, issued_at, expires_at, hello_hash);
    lemma_payload_reads_back(binding, issued_at, expires_at, hello_hash);
    lemma_readers_read_numbers(plaintext, 0);
    lemma_readers_read_numbers(plaintext, 8);
    lemma_readers_read_numbers(plaintext, 33);
    lemma_readers_read_numbers(plaintext, 35);
    let address = plaintext.subrange(16, 33);
    assert(plaintext[16] == address[0]);
    match binding.source_address {
        RetrySourceAddress::Ipv4(octets) => {
            assert(plaintext.subrange(17, 21) =~= address.subrange(1, 5));
            assert(address.subrange(1, 5) =~= octets@);
        },
        RetrySourceAddress::Ipv6(octets) => {
            assert(plaintext.subrange(17, 33) =~= address.subrange(1, 17));
            assert(address.subrange(1, 17) =~= octets@);
        },
    }
}

/// An issued cookie is 226 bytes: the format, the key's identifier in four bytes, a nonce of the
/// key's scope and its next counter, and the sealed plaintext. The label and what precedes the
/// sealed part are authenticated with it. The plaintext describes the handshake and a lifetime from
/// now, which the key outlives. The nonce is used up.
pub proof fn lemma_issued_cookies<P: RetryCookieProvider>(
    provider: &P,
    policy: RetryCookiePolicy,
    binding: &RetryCookieBinding<'_>,
    now: u64,
    length: usize,
)
    ensures
        forall|ring: &mut RetryCookieKeyRing<P::Key>, output: &mut [u8]|
            #![trigger
                call_ensures(
                    issue_retry_cookie::<P>,
                    (provider, ring, policy, binding, now, output),
                    Ok(length),
                )
            ]
            call_ensures(
                issue_retry_cookie::<P>,
                (provider, ring, policy, binding, now, output),
                Ok(length),
            ) ==> {
                let key = ring@.active;
                let cookie = final(output)@.take(226);
                let after = final(ring)@;
                &&& length == 226 <= output@.len()
                &&& key.activate_at <= now && now < key.seal_until
                &&& now + policy.lifetime() <= key.accept_until
                &&& binding.source_port != 0
                &&& cookie[0] == 1
                &&& number_at(cookie, 1, 4) == key.key_id
                &&& cookie.subrange(5, 13) == key.nonce_scope@
                &&& number_at(cookie, 13, 4) == key.next_nonce_counter
                &&& after.active.next_nonce_counter == key.next_nonce_counter + 1
                &&& after.active.key_id == key.key_id && after.active.key == key.key
                &&& after.active.accept_until == key.accept_until
                &&& after.previous == ring@.previous
                &&& final(output)@.skip(226) == output@.skip(226)
                &&& exists|plaintext: Seq<u8>|
                    cookie.skip(17) == #[trigger] provider.sealed_cookie(
                        key.key,
                        cookie.subrange(5, 17),
                        "OGTP/1 retry cookie\0".spec_bytes() + cookie.take(17),
                        plaintext,
                    ) && describes(
                        plaintext,
                        *binding,
                        now as int,
                        now + policy.lifetime(),
                        provider.sha384(binding.hello.encoding())@,
                    )
            },
{
    assert forall|ring: &mut RetryCookieKeyRing<P::Key>, output: &mut [u8]|
        #![trigger
            call_ensures(
                issue_retry_cookie::<P>,
                (provider, ring, policy, binding, now, output),
                Ok(length),
            )
        ]
        call_ensures(
            issue_retry_cookie::<P>,
            (provider, ring, policy, binding, now, output),
            Ok(length),
        ) implies {
        let key = ring@.active;
        let cookie = final(output)@.take(226);
        &&& cookie[0] == 1
        &&& number_at(cookie, 1, 4) == key.key_id
        &&& cookie.subrange(5, 13) == key.nonce_scope@
        &&& number_at(cookie, 13, 4) == key.next_nonce_counter
        &&& final(output)@.skip(226) == output@.skip(226)
        &&& exists|plaintext: Seq<u8>|
            cookie.skip(17) == #[trigger] provider.sealed_cookie(
                key.key,
                cookie.subrange(5, 17),
                "OGTP/1 retry cookie\0".spec_bytes() + cookie.take(17),
                plaintext,
            ) && describes(
                plaintext,
                *binding,
                now as int,
                now + policy.lifetime(),
                provider.sha384(binding.hello.encoding())@,
            )
    } by {
        let key = ring@.active;
        let hash = provider.sha384(binding.hello.encoding())@;
        let expires_at = (now + policy.lifetime()) as u64;
        let plaintext = cookie_plaintext(*binding, now, expires_at, hash);
        lemma_plaintext_describes(*binding, now, expires_at, hash);
        lemma_cookie_bytes(provider, key, plaintext);
        assert(final(output)@.take(226) =~= crate::retry::cookie::sealed_cookie(
            provider,
            key,
            plaintext,
        ));
        assert(final(output)@.skip(226) =~= output@.skip(226));
    }
}

proof fn lemma_cookie_bytes<P: RetryCookieProvider>(
    provider: &P,
    key: CookieKeyView<P::Key>,
    plaintext: Seq<u8>,
)
    ensures
        ({
            let cookie = crate::retry::cookie::sealed_cookie(provider, key, plaintext);
            &&& cookie[0] == 1
            &&& number_at(cookie, 1, 4) == key.key_id
            &&& cookie.subrange(5, 13) == key.nonce_scope@
            &&& number_at(cookie, 13, 4) == key.next_nonce_counter
            &&& cookie.skip(17) == provider.sealed_cookie(
                key.key,
                cookie.subrange(5, 17),
                "OGTP/1 retry cookie\0".spec_bytes() + cookie.take(17),
                plaintext,
            )
        }),
{
    let nonce = crate::retry::cookie::next_nonce(key);
    let header = crate::retry::cookie::cookie_header(key.key_id, nonce);
    let sealed = provider.sealed_cookie(
        key.key,
        nonce,
        "OGTP/1 retry cookie\0".spec_bytes() + header,
        plaintext,
    );
    let cookie = header + sealed;
    assert(cookie.subrange(1, 5) =~= be32(key.key_id));
    assert(cookie.subrange(13, 17) =~= be32(key.next_nonce_counter));
    lemma_spells32(cookie, 1, key.key_id);
    lemma_spells32(cookie, 13, key.next_nonce_counter);
    assert(cookie.subrange(5, 13) =~= key.nonce_scope@);
    assert(cookie.subrange(5, 17) =~= nonce);
    assert(cookie.take(17) =~= header);
    assert(cookie.skip(17) =~= sealed);
}

/// Only an answer of the right length counts as a sealed or an opened cookie. What could not be
/// sealed is not left in the output.
pub proof fn lemma_cookie_answers_are_checked<E>(
    sealed: Result<usize, E>,
    issued: Result<usize, RetryCookieError<E>>,
    opened: Result<RetryCookieOpenResult, E>,
    outcome: Result<(), RetryCookieError<E>>,
)
    requires
        call_ensures(settle_opened_cookie::<E>, (opened,), outcome),
    ensures
        outcome is Ok <==> opened == Ok::<RetryCookieOpenResult, E>(
            RetryCookieOpenResult::Opened(193),
        ),
        opened is Ok && opened->Ok_0 is Invalid ==> outcome is Err
            && outcome->Err_0 is AuthenticationFailed,
        forall|output: &mut [u8]|
            output@.len() >= 226 && #[trigger] call_ensures(
                settle_sealed_cookie::<E>,
                (sealed, output),
                issued,
            ) ==> {
                &&& issued is Ok <==> sealed == Ok::<usize, E>(209)
                &&& issued is Ok ==> issued->Ok_0 == 226 && final(output)@ == output@
                &&& issued is Err ==> forall|i: int|
                    0 <= i < 226 ==> #[trigger] final(output)@[i] == 0
            },
{
}

/// An accepted cookie opens under the key that it names, which is the active or the previous one.
/// It describes the handshake at hand, it was issued no later than the skew allows, while its key
/// was sealing, for exactly one lifetime, and neither it nor its key has run out.
pub proof fn lemma_accepted_cookies<P: RetryCookieProvider>(
    provider: &P,
    ring: &RetryCookieKeyRing<P::Key>,
    policy: RetryCookiePolicy,
    binding: &RetryCookieBinding<'_>,
    now: u64,
    cookie: &[u8],
    validated: ValidatedRetryCookie,
)
    requires
        call_ensures(
            validate_retry_cookie::<P>,
            (provider, ring, policy, binding, now, cookie),
            Ok(validated),
        ),
    ensures
        ({
            let named = number_at(cookie@, 1, 4);
            let key = if ring@.active.key_id == named {
                ring@.active
            } else {
                ring@.previous->0
            };
            let issued_at = validated@.issued_at;
            let expires_at = validated@.expires_at;
            &&& cookie@.len() == 226
            &&& cookie@[0] == 1
            &&& binding.source_port != 0
            &&& ring@.active.key_id == named || (ring@.previous is Some && key.key_id == named)
            &&& validated@.key_id == named
            &&& validated@.validated_at == now
            &&& expires_at == issued_at + policy.lifetime()
            &&& issued_at <= now + policy.skew()
            &&& now < expires_at <= key.accept_until
            &&& key.activate_at <= issued_at < key.seal_until
            &&& exists|plaintext: Seq<u8>|
                Some(plaintext) == provider.opened_cookie(
                    key.key,
                    cookie@.subrange(5, 17),
                    "OGTP/1 retry cookie\0".spec_bytes() + cookie@.take(17),
                    cookie@.skip(17),
                ) && #[trigger] describes(
                    plaintext,
                    *binding,
                    issued_at as int,
                    expires_at as int,
                    provider.sha384(binding.hello.encoding())@,
                )
        }),
{
    lemma_readers_read_numbers(cookie@, 1);
    let key_id = crate::bytes::be32_at(cookie@, 1);
    let key = ring@.opening_key(key_id)->0;
    let plaintext = crate::retry::cookie::cookie_payload(provider, key, cookie@)->0;
    let hash = provider.sha384(binding.hello.encoding())@;
    let issued_at = validated@.issued_at;
    let expires_at = validated@.expires_at;
    let written = cookie_plaintext(*binding, issued_at, expires_at, hash);
    lemma_payload_reads_back(*binding, issued_at, expires_at, hash);
    crate::bytes::lemma_be64_of_bytes(plaintext, 0);
    crate::bytes::lemma_be64_of_bytes(plaintext, 8);
    assert(plaintext =~= crate::bytes::be64(issued_at) + crate::bytes::be64(expires_at)
        + plaintext.skip(16));
    assert(written =~= crate::bytes::be64(issued_at) + crate::bytes::be64(expires_at)
        + written.skip(16)) by {
        crate::bytes::lemma_be64_of_bytes(written, 0);
        crate::bytes::lemma_be64_of_bytes(written, 8);
    }
    assert(plaintext == written);
    lemma_plaintext_describes(*binding, issued_at, expires_at, hash);
}

/// Why a cookie is refused: each reason comes with the times that it names.
pub proof fn lemma_refused_cookies<P: RetryCookieProvider>(
    provider: &P,
    ring: &RetryCookieKeyRing<P::Key>,
    policy: RetryCookiePolicy,
    binding: &RetryCookieBinding<'_>,
    now: u64,
    cookie: &[u8],
    error: RetryCookieError<P::Error>,
)
    requires
        call_ensures(
            validate_retry_cookie::<P>,
            (provider, ring, policy, binding, now, cookie),
            Err(error),
        ),
        binding.connection_id_failure() is None,
    ensures
        ({
            let named = number_at(cookie@, 1, 4);
            let held = ring@.active.key_id == named || (ring@.previous is Some
                && ring@.previous->0.key_id == named);
            let key = if ring@.active.key_id == named {
                ring@.active
            } else {
                ring@.previous->0
            };
            let plaintext = provider.opened_cookie(
                key.key,
                cookie@.subrange(5, 17),
                "OGTP/1 retry cookie\0".spec_bytes() + cookie@.take(17),
                cookie@.skip(17),
            );
            let issued_at = number_at(plaintext->0, 0, 8);
            let expires_at = number_at(plaintext->0, 8, 8);
            &&& error is InvalidSourcePort <==> binding.source_port == 0
            &&& error is InvalidCookieLength <==> binding.source_port != 0 && cookie@.len() != 226
            &&& error is UnknownFormat <==> binding.source_port != 0 && cookie@.len() == 226
                && cookie@[0] != 1
            &&& error is UnknownKey <==> binding.source_port != 0 && cookie@.len() == 226
                && cookie@[0] == 1 && !held
            &&& error is AuthenticationFailed ==> plaintext is None
            &&& error is LifetimeMismatch ==> plaintext is Some && expires_at != issued_at
                + policy.lifetime()
            &&& error is NotYetValid ==> plaintext is Some && issued_at > now + policy.skew()
            &&& error is Expired ==> plaintext is Some && now >= expires_at
            &&& error is KeyOutsideAcceptanceWindow ==> plaintext is Some && (issued_at
                < key.activate_at || issued_at >= key.seal_until || expires_at > key.accept_until)
            &&& error is BindingMismatch ==> plaintext is Some && plaintext != Some(
                cookie_plaintext(
                    *binding,
                    issued_at as u64,
                    expires_at as u64,
                    provider.sha384(binding.hello.encoding())@,
                ),
            )
        }),
{
    lemma_readers_read_numbers(cookie@, 1);
    let key_id = crate::bytes::be32_at(cookie@, 1);
    if ring@.opening_key(key_id) is Some {
        let key = ring@.opening_key(key_id)->0;
        let plaintext = crate::retry::cookie::cookie_payload(provider, key, cookie@);
        if plaintext is Some {
            lemma_readers_read_numbers(plaintext->0, 0);
            lemma_readers_read_numbers(plaintext->0, 8);
            let issued_at = crate::bytes::be64_at(plaintext->0, 0);
            let expires_at = crate::bytes::be64_at(plaintext->0, 8);
            lemma_payload_reads_back(
                *binding,
                issued_at,
                expires_at,
                provider.sha384(binding.hello.encoding())@,
            );
        }
    }
}

/// An entry that is still in time.
pub open spec fn lives(entry: Option<AdmissionEntry>, now: u64) -> bool {
    entry is Some && now < entry->0.deadline
}

/// What an identity's source is known by: the family, and the IPv4 address or the first eight bytes
/// of the IPv6 address. The family is the first byte of an identity and the address follows.
pub open spec fn source_of(identity: Seq<u8>) -> Seq<u8> {
    identity.take(
        if identity[0] == 4 {
            5int
        } else {
            9int
        },
    )
}

/// The entries in time that count for the source of an identity.
pub open spec fn of_source(
    entries: Seq<Option<AdmissionEntry>>,
    identity: Seq<u8>,
    now: u64,
) -> nat {
    entries.filter(
        |entry: Option<AdmissionEntry>|
            lives(entry, now) && source_of(entry->0.identity) == source_of(identity),
    ).len()
}

/// A table has at least one slot, a limit per source of at least one and at most all slots, and a
/// timeout. It starts empty.
pub proof fn lemma_tables_start_empty<const SLOTS: usize>(
    limit: usize,
    timeout: u64,
    table: Result<HandshakeAdmissionTable<SLOTS>, HandshakeAdmissionError>,
)
    requires
        call_ensures(HandshakeAdmissionTable::<SLOTS>::new, (limit, timeout), table),
    ensures
        table is Ok <==> 0 < limit <= SLOTS && 0 < timeout,
        table matches Ok(table) ==> {
            &&& table@.entries.len() == SLOTS
            &&& forall|i: int| 0 <= i < SLOTS ==> #[trigger] table@.entries[i] is None
            &&& table@.per_source_limit == limit
            &&& table@.handshake_timeout_seconds == timeout
        },
{
}

/// Expiry takes out exactly the entries whose deadline has come, and reports how many those were.
pub proof fn lemma_expiry_takes_out_what_is_due<const SLOTS: usize>(now: u64, released: usize)
    ensures
        forall|table: &mut HandshakeAdmissionTable<SLOTS>|
            table.well_formed() && #[trigger] call_ensures(
                HandshakeAdmissionTable::<SLOTS>::expire,
                (table, now),
                released,
            ) ==> {
                let before = table@.entries;
                let after = final(table)@.entries;
                &&& after.len() == before.len()
                &&& forall|i: int|
                    0 <= i < before.len() ==> #[trigger] after[i] == if lives(before[i], now) {
                        before[i]
                    } else {
                        None
                    }
                &&& released == before.filter(
                    |entry: Option<AdmissionEntry>| entry is Some && !lives(entry, now),
                ).len()
                &&& final(table)@.next_generation == table@.next_generation
                &&& final(table)@.per_source_limit == table@.per_source_limit
                &&& final(table)@.handshake_timeout_seconds == table@.handshake_timeout_seconds
            },
{
    assert forall|table: &mut HandshakeAdmissionTable<SLOTS>|
        table.well_formed() && #[trigger] call_ensures(
            HandshakeAdmissionTable::<SLOTS>::expire,
            (table, now),
            released,
        ) implies released == table@.entries.filter(
        |entry: Option<AdmissionEntry>| entry is Some && !lives(entry, now),
    ).len() by {
        lemma_tally_is_a_filter(
            table@.entries,
            crate::retry::admission::due_at(now),
            |entry: Option<AdmissionEntry>| entry is Some && !lives(entry, now),
        );
    }
}

proof fn lemma_tally_is_a_filter(
    entries: Seq<Option<AdmissionEntry>>,
    wanted: spec_fn(Option<AdmissionEntry>) -> bool,
    same: spec_fn(Option<AdmissionEntry>) -> bool,
)
    requires
        forall|i: int| 0 <= i < entries.len() ==> wanted(#[trigger] entries[i]) == same(entries[i]),
    ensures
        tally(entries, wanted) == entries.filter(same).len(),
    decreases entries.len(),
{
    reveal(Seq::filter);
    if entries.len() > 0 {
        let before = entries.drop_last();
        assert forall|i: int| 0 <= i < before.len() implies wanted(#[trigger] before[i]) == same(
            before[i],
        ) by {
            assert(before[i] == entries[i]);
        }
        lemma_tally_is_a_filter(before, wanted, same);
        assert(entries.last() == entries[entries.len() - 1]);
    }
}

/// The active entries are those in the table.
pub proof fn lemma_active_entries_are_counted<const SLOTS: usize>(
    table: &HandshakeAdmissionTable<SLOTS>,
    active: usize,
)
    requires
        call_ensures(HandshakeAdmissionTable::<SLOTS>::active, (table,), active),
    ensures
        active == table@.entries.filter(|entry: Option<AdmissionEntry>| entry is Some).len(),
{
    lemma_tally_is_a_filter(
        table@.entries,
        in_use(),
        |entry: Option<AdmissionEntry>| entry is Some,
    );
}

/// A lease releases the entry of its slot if its generation is still there, and only that one.
pub proof fn lemma_leases_release_their_own_entry<const SLOTS: usize>(
    lease: HandshakeAdmissionLease,
    released: bool,
)
    ensures
        forall|table: &mut HandshakeAdmissionTable<SLOTS>|
            table.well_formed() && #[trigger] call_ensures(
                HandshakeAdmissionTable::<SLOTS>::release,
                (table, lease),
                released,
            ) ==> {
                let before = table@.entries;
                let after = final(table)@.entries;
                let slot = lease.slot_index();
                &&& released <==> 0 <= slot < before.len() && before[slot] is Some
                    && before[slot]->0.generation == lease.entry_generation()
                &&& released ==> after[slot] is None
                &&& after.len() == before.len()
                &&& forall|i: int|
                    0 <= i < before.len() && !(released && i == slot) ==> #[trigger] after[i]
                        == before[i]
                &&& final(table)@.next_generation == table@.next_generation
            },
{
}

/// Admission first takes out what is due. A cookie in its time is then admitted once: again under
/// its own entry, or else in the first free slot with a fresh generation and the full timeout, if
/// its source has not reached its limit. Nothing else changes.
pub proof fn lemma_admission_is_bounded_per_source<const SLOTS: usize>(
    cookie: &ValidatedRetryCookie,
    now: u64,
    outcome: Result<HandshakeAdmissionStatus, HandshakeAdmissionError>,
)
    ensures
        forall|table: &mut HandshakeAdmissionTable<SLOTS>|
            table.well_formed() && #[trigger] call_ensures(
                HandshakeAdmissionTable::<SLOTS>::admit_handshake,
                (table, cookie, now),
                outcome,
            ) ==> {
                let before = table@.entries;
                let after = final(table)@.entries;
                let known = exists|i: int|
                    0 <= i < before.len() && lives(#[trigger] before[i], now)
                        && before[i]->0.identity == cookie@.identity;
                let full = forall|i: int|
                    0 <= i < before.len() ==> lives(#[trigger] before[i], now);
                let timely = cookie@.validated_at <= now && now < cookie@.expires_at;
                let within = of_source(before, cookie@.identity, now) < table@.per_source_limit;
                let deadline = now + table@.handshake_timeout_seconds;
                &&& after.len() == before.len()
                &&& outcome is Ok <==> timely && (known || within && !full && deadline <= u64::MAX
                    && table@.next_generation < u64::MAX)
                &&& outcome matches Ok(HandshakeAdmissionStatus::New(lease)) ==> {
                    let slot = lease.slot_index();
                    &&& !known
                    &&& 0 <= slot < before.len() && !lives(before[slot], now)
                    &&& forall|i: int| 0 <= i < slot ==> lives(#[trigger] before[i], now)
                    &&& lease.entry_generation() == table@.next_generation
                    &&& after[slot] == Some(
                        AdmissionEntry {
                            generation: table@.next_generation,
                            deadline: deadline as u64,
                            identity: cookie@.identity,
                        },
                    )
                    &&& final(table)@.next_generation == table@.next_generation + 1
                }
                &&& outcome matches Ok(HandshakeAdmissionStatus::Existing(lease)) ==> {
                    let slot = lease.slot_index();
                    &&& known
                    &&& 0 <= slot < before.len() && lives(before[slot], now)
                    &&& before[slot]->0.identity == cookie@.identity
                    &&& before[slot]->0.generation == lease.entry_generation()
                    &&& after[slot] == before[slot]
                }
                &&& forall|i: int|
                    0 <= i < before.len() && !(outcome matches Ok(
                        HandshakeAdmissionStatus::New(lease),
                    ) && i == lease.slot_index()) ==> #[trigger] after[i] == if lives(
                        before[i],
                        now,
                    ) {
                        before[i]
                    } else {
                        None
                    }
                &&& outcome matches Err(error) ==> {
                    &&& error is ClockMovedBackwards <==> now < cookie@.validated_at
                    &&& error is CookieExpired <==> cookie@.validated_at <= now
                        && cookie@.expires_at <= now
                    &&& error is PerSourceLimitReached <==> timely && !within
                    &&& error is PoolExhausted <==> timely && within && full
                }
            },
{
    assert forall|table: &mut HandshakeAdmissionTable<SLOTS>|
        table.well_formed() && #[trigger] call_ensures(
            HandshakeAdmissionTable::<SLOTS>::admit_handshake,
            (table, cookie, now),
            outcome,
        ) implies {
        let before = table@.entries;
        let known = exists|i: int|
            0 <= i < before.len() && lives(#[trigger] before[i], now) && before[i]->0.identity
                == cookie@.identity;
        let full = forall|i: int| 0 <= i < before.len() ==> lives(#[trigger] before[i], now);
        let swept = table@.swept(now);
        &&& swept.knows(cookie@.identity) == known
        &&& swept.is_full() == full
        &&& forall|i: int|
            0 <= i < before.len() ==> lives(#[trigger] before[i], now) == swept.entries[i] is Some
        &&& outcome matches Ok(HandshakeAdmissionStatus::Existing(lease)) ==> lives(
            before[lease.slot_index()],
            now,
        ) && known
        &&& tally(
            swept.entries,
            crate::retry::admission::counts_for(
                crate::retry::admission::quota_source(cookie@.identity),
            ),
        ) == of_source(before, cookie@.identity, now)
    } by {
        let before = table@.entries;
        let swept = table@.swept(now);
        assert forall|i: int| 0 <= i < before.len() implies lives(#[trigger] before[i], now)
            == swept.entries[i] is Some by {}
        if swept.knows(cookie@.identity) {
            let i = choose|i: int|
                0 <= i < swept.entries.len() && (#[trigger] swept.entries[i] matches Some(entry)
                    && entry.identity == cookie@.identity);
            assert(lives(before[i], now));
        }
        if exists|i: int|
            0 <= i < before.len() && lives(#[trigger] before[i], now) && before[i]->0.identity
                == cookie@.identity {
            let i = choose|i: int|
                0 <= i < before.len() && lives(#[trigger] before[i], now)
                    && before[i]->0.identity == cookie@.identity;
            assert(swept.entries[i] matches Some(entry) && entry.identity == cookie@.identity);
        }
        if swept.is_full() {
            assert forall|i: int| 0 <= i < before.len() implies lives(
                #[trigger] before[i],
                now,
            ) by {
                assert(swept.entries[i] is Some);
            }
        }
        lemma_source_count(before, cookie@.identity, now);
        if outcome matches Ok(HandshakeAdmissionStatus::Existing(lease)) {
            let slot = outcome->Ok_0->Existing_0.slot_index();
            assert(lives(before[slot], now) && before[slot]->0.identity == cookie@.identity);
        }
    }
}

proof fn lemma_source_count(entries: Seq<Option<AdmissionEntry>>, identity: Seq<u8>, now: u64)
    ensures
        tally(
            crate::retry::admission::swept(entries, now),
            crate::retry::admission::counts_for(crate::retry::admission::quota_source(identity)),
        ) == of_source(entries, identity, now),
    decreases entries.len(),
{
    let wanted = crate::retry::admission::counts_for(
        crate::retry::admission::quota_source(identity),
    );
    let same = |entry: Option<AdmissionEntry>|
        lives(entry, now) && source_of(entry->0.identity) == source_of(identity);
    reveal(Seq::filter);
    if entries.len() > 0 {
        let before = entries.drop_last();
        let swept = crate::retry::admission::swept(entries, now);
        lemma_source_count(before, identity, now);
        assert(swept.drop_last() =~= crate::retry::admission::swept(before, now));
        assert(wanted(swept.last()) == same(entries.last()));
    }
}

} // verus!
