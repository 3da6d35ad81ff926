//! Quality of Service replies and the public address that they carry.
use crate::text::{
    chars_of, clean_reply, drop_newlines, is_dotted_text, parse_ipv4, parse_ipv4_chars, trim,
};
use vstd::prelude::*;

verus! {

/// Number of heading bytes that a QoS request carries and a reply echoes.
pub const QOS_HEADER_LEN: usize = 20;

/// Total length of a QoS reply.
pub const QOS_REPLY_LEN: usize = 30;

/// The reply to a QoS request: the request's heading, then the public IPv4
/// address, then the client's port in big-endian order, then four zero bytes.
pub open spec fn spec_qos_reply(header: Seq<u8>, address: Seq<u8>, port: u16) -> Seq<u8> {
    header + address + seq![(port / 256) as u8, (port % 256) as u8] + seq![0u8, 0u8, 0u8, 0u8]
}

/// A reply holds, byte for byte, the request's heading in its first 20 bytes,
/// the address in the next 4, the port (most significant byte first) in the
/// next 2, and zeros in the last 4.
pub proof fn lemma_qos_reply_layout(header: Seq<u8>, address: Seq<u8>, port: u16)
    requires
        header.len() == QOS_HEADER_LEN,
        address.len() == 4,
    ensures
        spec_qos_reply(header, address, port).len() == QOS_REPLY_LEN,
        spec_qos_reply(header, address, port).subrange(0, 20) == header,
        spec_qos_reply(header, address, port).subrange(20, 24) == address,
        spec_qos_reply(header, address, port)[24] * 256 + spec_qos_reply(header, address, port)[25] == port,
        spec_qos_reply(header, address, port).subrange(26, 30) == seq![0u8, 0u8, 0u8, 0u8],
{
    let r = spec_qos_reply(header, address, port);
    assert(r.subrange(0, 20) =~= header);
    assert(r.subrange(20, 24) =~= address);
    assert(r.subrange(26, 30) =~= seq![0u8, 0u8, 0u8, 0u8]);
}

/// Builds the reply to a QoS request whose heading is `header`, telling the
/// client that it is seen at `address`, port `port`.
pub fn qos_reply(header: &[u8; 20], address: [u8; 4], port: u16) -> (reply: Vec<u8>)
    ensures
        reply@ == spec_qos_reply(header@, address@, port),
        reply@.len() == QOS_REPLY_LEN,
        reply@.subrange(0, 20) == header@,
        reply@.subrange(20, 24) == address@,
        reply@[24] * 256 + reply@[25] == port,
        reply@.subrange(26, 30) == seq![0u8, 0u8, 0u8, 0u8],
{
    let mut reply: Vec<u8> = Vec::with_capacity(QOS_REPLY_LEN);
    let mut i: usize = 0;
    while i < QOS_HEADER_LEN
        invariant
            i <= QOS_HEADER_LEN,
            reply@ == header@.subrange(0, i as int),
        decreases QOS_HEADER_LEN - i,
    {
        reply.push(header[i]);
        i = i + 1;
    }
    let mut j: usize = 0;
    while j < 4
        invariant
            j <= 4,
            reply@ == header@ + address@.subrange(0, j as int),
        decreases 4 - j,
    {
        reply.push(address[j]);
        j = j + 1;
    }
    reply.push((port / 256) as u8);
    reply.push((port % 256) as u8);
    reply.push(0u8);
    reply.push(0u8);
    reply.push(0u8);
    reply.push(0u8);
    assert(header@.subrange(0, 20) == header@);
    assert(address@.subrange(0, 4) == address@);
    proof {
        lemma_qos_reply_layout(header@, address@, port);
    }
    reply
}


/// How long a looked-up public address stays cached: 30 minutes, in milliseconds.
pub const ADDR_CACHE_MILLIS: u64 = 1_800_000;

/// The view of an optional IPv4 address.
pub open spec fn address_view(address: Option<[u8; 4]>) -> Option<Seq<u8>> {
    match address {
        Some(a) => Some(a@),
        None => None,
    }
}

/// Cache of the public address.
pub enum PublicAddrCache {
    /// No address has been looked up yet.
    Unset,
    /// An address was looked up.
    Known {
        /// The public address.
        value: [u8; 4],
        /// The time (milliseconds) from which it is stale.
        expires: u64,
    },
}

/// The cache after `value` was stored at time `now`.
pub open spec fn spec_stored(value: [u8; 4], now: u64) -> PublicAddrCache {
    PublicAddrCache::Known { value, expires: (now + ADDR_CACHE_MILLIS) as u64 }
}

impl PublicAddrCache {
    /// The address that the cache answers with at time `now`: the stored one
    /// while it has not expired.
    pub open spec fn spec_lookup(self, now: u64) -> Option<Seq<u8>> {
        match self {
            PublicAddrCache::Known { value, expires } => if now < expires {
                Some(value@)
            } else {
                None
            },
            PublicAddrCache::Unset => None,
        }
    }

    /// An empty cache.
    pub fn new() -> (cache: Self)
        ensures
            cache == PublicAddrCache::Unset,
    {
        PublicAddrCache::Unset
    }

    /// The cached address at time `now`, if it has not expired.
    pub fn lookup(&self, now: u64) -> (cached: Option<[u8; 4]>)
        ensures
            address_view(cached) == self.spec_lookup(now),
    {
        match self {
            PublicAddrCache::Known { value, expires } => if now < *expires {
                Some(*value)
            } else {
                None
            },
            PublicAddrCache::Unset => None,
        }
    }

    /// Stores `value`, looked up at time `now`, for `ADDR_CACHE_MILLIS`.
    pub fn store(&mut self, value: [u8; 4], now: u64)
        requires
            now + ADDR_CACHE_MILLIS <= u64::MAX,
        ensures
            *final(self) == spec_stored(value, now),
    {
        *self = PublicAddrCache::Known { value, expires: now + ADDR_CACHE_MILLIS };
    }
}

/// A stored address is answered until `ADDR_CACHE_MILLIS` after it was
/// stored, and not from then on.
pub proof fn lemma_cache_answers_until_expiry(value: [u8; 4], stored_at: u64, now: u64)
    requires
        stored_at + ADDR_CACHE_MILLIS <= u64::MAX,
    ensures
        spec_stored(value, stored_at).spec_lookup(now) == (if now < stored_at + ADDR_CACHE_MILLIS {
            Some(value@)
        } else {
            None::<Seq<u8>>
        }),
{
}

/// The address that a reply of an address service names: the text without
/// surrounding white space and line feeds, read as a dotted-decimal address.
pub open spec fn spec_reply_address(reply: Option<Seq<char>>) -> Option<Seq<u8>> {
    match reply {
        Some(text) => parse_ipv4(drop_newlines(trim(text))),
        None => None,
    }
}

/// Reads the address that an address service replied with.
pub fn parse_reply(text: &str) -> (address: Option<[u8; 4]>)
    ensures
        address_view(address) == spec_reply_address(Some(text@)),
        is_dotted_text(drop_newlines(trim(text@)), address),
{
    let chars = chars_of(text);
    let cleaned = clean_reply(chars.as_slice());
    parse_ipv4_chars(cleaned.as_slice())
}

/// Number of services that are asked for the public address.
pub const SERVICE_COUNT: usize = 2;

/// The services that are asked for the public address, in order.
pub open spec fn spec_service(i: int) -> Seq<char> {
    if i == 0 {
        "https://api.ipify.org/"@
    } else {
        "https://ipv4.icanhazip.com/"@
    }
}

/// The URL of service `i`.
pub fn service(i: usize) -> (url: &'static str)
    requires
        i < SERVICE_COUNT,
    ensures
        url@ == spec_service(i as int),
{
    if i == 0 {
        "https://api.ipify.org/"
    } else {
        "https://ipv4.icanhazip.com/"
    }
}

/// What the public address lookup asks its caller to do next.
pub enum LookupAction {
    /// Fetch this URL and hand its reply text (or the failure) to `on_reply`.
    Fetch(&'static str),
    /// Find the local IPv4 address and hand it to `on_local`.
    QueryLocal,
    /// The lookup is over; this is its answer.
    Answer(Option<[u8; 4]>),
}

/// The view of a `LookupAction`.
pub enum LookupStep {
    /// Fetch the URL.
    Fetch(Seq<char>),
    /// Find the local address.
    QueryLocal,
    /// Answer.
    Answer(Option<Seq<u8>>),
}

impl View for LookupAction {
    type V = LookupStep;

    open spec fn view(&self) -> LookupStep {
        match self {
            LookupAction::Fetch(url) => LookupStep::Fetch(url@),
            LookupAction::QueryLocal => LookupStep::QueryLocal,
            LookupAction::Answer(a) => LookupStep::Answer(address_view(*a)),
        }
    }
}

/// The services are asked in this order, and they are two different ones.
pub proof fn lemma_services_in_order()
    ensures
        spec_service(0) == "https://api.ipify.org/"@,
        spec_service(1) == "https://ipv4.icanhazip.com/"@,
        spec_service(0) != spec_service(1),
{
    reveal_strlit("https://api.ipify.org/");
    reveal_strlit("https://ipv4.icanhazip.com/");
    assert(spec_service(0)[8] != spec_service(1)[8]);
}

/// A reply that names no address from a service other than the last is
/// followed by a request to the next service; after the last one, by the
/// search for the local address. A reply that names an address ends the lookup
/// with it.
pub proof fn lemma_on_reply_moves_to_next_service(next: nat, reply: Option<Seq<char>>)
    requires
        next < SERVICE_COUNT,
    ensures
        spec_reply_address(reply) is None && next + 1 < SERVICE_COUNT ==> spec_on_reply(next, reply)
            == LookupStep::Fetch(spec_service(next + 1 as int)),
        spec_reply_address(reply) is None && next + 1 == SERVICE_COUNT ==> spec_on_reply(next, reply)
            == LookupStep::QueryLocal,
        spec_reply_address(reply) matches Some(a) ==> spec_on_reply(next, reply) == LookupStep::Answer(Some(a)),
{
}

/// What follows the reply `reply` of service `next`: its address when it
/// names one, else the next service, else the local address.
pub open spec fn spec_on_reply(next: nat, reply: Option<Seq<char>>) -> LookupStep {
    match spec_reply_address(reply) {
        Some(a) => LookupStep::Answer(Some(a)),
        None => if next + 1 < SERVICE_COUNT {
            LookupStep::Fetch(spec_service(next + 1 as int))
        } else {
            LookupStep::QueryLocal
        },
    }
}

/// The view of an optional reply text.
pub open spec fn reply_view(reply: Option<&str>) -> Option<Seq<char>> {
    match reply {
        Some(t) => Some(t@),
        None => None,
    }
}

/// How a lookup starts at time `now`: with the cached address as its answer
/// while that has not expired, else by fetching from the first service.
pub open spec fn spec_begin(cache: PublicAddrCache, now: u64) -> LookupStep {
    match cache.spec_lookup(now) {
        Some(a) => LookupStep::Answer(Some(a)),
        None => LookupStep::Fetch(spec_service(0)),
    }
}

/// A lookup that starts less than `ADDR_CACHE_MILLIS` after an address was
/// stored answers with that address at once, asking no service and not
/// looking for the local address.
pub proof fn lemma_cached_lookup_asks_nothing(value: [u8; 4], stored_at: u64, now: u64)
    requires
        stored_at + ADDR_CACHE_MILLIS <= u64::MAX,
        now < stored_at + ADDR_CACHE_MILLIS,
    ensures
        spec_begin(spec_stored(value, stored_at), now) == LookupStep::Answer(Some(value@)),
{
}

/// The answer that an action gives, if it is an answer with an address.
pub open spec fn action_answer(action: LookupAction) -> Option<[u8; 4]> {
    match action {
        LookupAction::Answer(a) => a,
        _ => None,
    }
}

/// How one step of a lookup changes the cache: a step that answers with an
/// address stores it at the step's time; every other step leaves it alone.
pub open spec fn spec_cache_step(before: PublicAddrCache, after: PublicAddrCache, answer: Option<[u8; 4]>, now: u64) -> bool {
    match answer {
        Some(a) => after == spec_stored(a, now),
        None => after == before,
    }
}

/// Whether the cache holds an address.
pub open spec fn is_known(cache: PublicAddrCache) -> bool {
    cache matches PublicAddrCache::Known { .. }
}

proof fn lemma_known_was_answered(
    caches: Seq<PublicAddrCache>,
    answers: Seq<Option<[u8; 4]>>,
    times: Seq<u64>,
    k: int,
)
    requires
        caches.len() == answers.len() + 1,
        times.len() == answers.len(),
        caches[0] == PublicAddrCache::Unset,
        forall|i: int|
            0 <= i < answers.len() ==> #[trigger] spec_cache_step(caches[i], caches[i + 1], answers[i], times[i]),
        0 <= k < caches.len(),
        is_known(caches[k]),
    ensures
        exists|j: int|
            0 <= j < k && #[trigger] answers[j] == Some(caches[k]->value) && caches[k] == spec_stored(
                caches[k]->value,
                times[j],
            ),
    decreases k,
{
    let i = k - 1;
    assert(spec_cache_step(caches[i], caches[i + 1], answers[i], times[i]));
    match answers[i] {
        Some(a) => {
            assert(answers[i] == Some(caches[k]->value));
        },
        None => {
            lemma_known_was_answered(caches, answers, times, i);
            let j = choose|j: int|
                0 <= j < i && #[trigger] answers[j] == Some(caches[i]->value) && caches[i] == spec_stored(
                    caches[i]->value,
                    times[j],
                );
            assert(answers[j] == Some(caches[k]->value));
        },
    }
}

proof fn lemma_known_stays(
    caches: Seq<PublicAddrCache>,
    answers: Seq<Option<[u8; 4]>>,
    times: Seq<u64>,
    k: int,
    m: int,
)
    requires
        caches.len() == answers.len() + 1,
        times.len() == answers.len(),
        forall|i: int|
            0 <= i < answers.len() ==> #[trigger] spec_cache_step(caches[i], caches[i + 1], answers[i], times[i]),
        0 <= k <= m < caches.len(),
        is_known(caches[k]),
    ensures
        is_known(caches[m]),
    decreases m - k,
{
    if m > k {
        lemma_known_stays(caches, answers, times, k, m - 1);
        let i = m - 1;
        assert(spec_cache_step(caches[i], caches[i + 1], answers[i], times[i]));
    }
}

/// Over any sequence of lookup steps (`on_reply` and `on_local`, of any
/// number of lookups) from an empty cache, where step `i` turns `caches[i]`
/// into `caches[i + 1]`, answers `answers[i]` (its `action_answer`) and runs at
/// time `times[i]`: once the cache holds an address it never becomes empty
/// again, and every address that it holds was the answer of an earlier step
/// and expires `ADDR_CACHE_MILLIS` after that step's time.
pub proof fn lemma_cache_history(caches: Seq<PublicAddrCache>, answers: Seq<Option<[u8; 4]>>, times: Seq<u64>)
    requires
        caches.len() == answers.len() + 1,
        times.len() == answers.len(),
        caches[0] == PublicAddrCache::Unset,
        forall|i: int|
            0 <= i < answers.len() ==> #[trigger] spec_cache_step(caches[i], caches[i + 1], answers[i], times[i]),
    ensures
        forall|k: int, m: int|
            0 <= k <= m < caches.len() && is_known(#[trigger] caches[k]) ==> is_known(#[trigger] caches[m]),
        forall|k: int|
            0 <= k < caches.len() && is_known(#[trigger] caches[k]) ==> exists|j: int|
                0 <= j < k && #[trigger] answers[j] == Some(caches[k]->value) && caches[k] == spec_stored(
                    caches[k]->value,
                    times[j],
                ),
{
    assert forall|k: int, m: int|
        0 <= k <= m < caches.len() && is_known(#[trigger] caches[k]) implies is_known(#[trigger] caches[m]) by {
        lemma_known_stays(caches, answers, times, k, m);
    }
    assert forall|k: int| 0 <= k < caches.len() && is_known(#[trigger] caches[k]) implies exists|j: int|
        0 <= j < k && #[trigger] answers[j] == Some(caches[k]->value) && caches[k] == spec_stored(
            caches[k]->value,
            times[j],
        ) by {
        lemma_known_was_answered(caches, answers, times, k);
    }
}

/// A lookup of the public address in progress: the services are asked in
/// order, the first address that one names is the answer, and the local
/// address is the answer when none names one.
pub struct AddressLookup {
    next: usize,
}

impl AddressLookup {
    /// The service whose reply is awaited (`SERVICE_COUNT` once the local
    /// address is awaited).
    pub closed spec fn awaiting(&self) -> nat {
        self.next as nat
    }

    /// Starts a lookup at time `now`: a cached address that has not expired
    /// is the answer at once; otherwise the first service is asked.
    pub fn begin(cache: &PublicAddrCache, now: u64) -> (started: (AddressLookup, LookupAction))
        ensures
            started.1@ == spec_begin(*cache, now),
            started.1 matches LookupAction::Fetch(url) ==> url@ == spec_service(0),
            started.0.awaiting() == 0,
    {
        match cache.lookup(now) {
            Some(a) => (AddressLookup { next: 0 }, LookupAction::Answer(Some(a))),
            None => (AddressLookup { next: 0 }, LookupAction::Fetch(service(0))),
        }
    }

    /// Takes the reply of the awaited service (`None` when the request or
    /// reading its text failed). An address that it names is stored in
    /// `cache` at time `now` and is the answer.
    pub fn on_reply(&mut self, reply: Option<&str>, cache: &mut PublicAddrCache, now: u64) -> (action: LookupAction)
        requires
            old(self).awaiting() < SERVICE_COUNT,
            now + ADDR_CACHE_MILLIS <= u64::MAX,
        ensures
            action@ == spec_on_reply(old(self).awaiting(), reply_view(reply)),
            final(self).awaiting() == old(self).awaiting() + 1,
            match spec_reply_address(reply_view(reply)) {
                Some(_) => action matches LookupAction::Answer(Some(a)) && *final(cache) == spec_stored(a, now),
                None => *final(cache) == *old(cache),
            },
            spec_cache_step(*old(cache), *final(cache), action_answer(action), now),
            action matches LookupAction::Fetch(url) ==> (url@ == spec_service(final(self).awaiting() as int)
                && final(self).awaiting() < SERVICE_COUNT),
            spec_reply_address(reply_view(reply)) is None && old(self).awaiting() + 1 < SERVICE_COUNT
                ==> (action matches LookupAction::Fetch(url) && url@ == spec_service(old(self).awaiting() + 1 as int)),
            spec_reply_address(reply_view(reply)) is None && old(self).awaiting() + 1 == SERVICE_COUNT
                ==> action matches LookupAction::QueryLocal,
    {
        let parsed = match reply {
            Some(text) => parse_reply(text),
            None => None,
        };
        self.next = self.next + 1;
        match parsed {
            Some(a) => {
                cache.store(a, now);
                LookupAction::Answer(Some(a))
            },
            None => if self.next < SERVICE_COUNT {
                LookupAction::Fetch(service(self.next))
            } else {
                LookupAction::QueryLocal
            },
        }
    }

    /// Takes the local IPv4 address, if there is one, once no service named an
    /// address. It is the answer, and is stored in `cache` at time `now`.
    pub fn on_local(&mut self, local: Option<[u8; 4]>, cache: &mut PublicAddrCache, now: u64) -> (action: LookupAction)
        requires
            old(self).awaiting() == SERVICE_COUNT,
            now + ADDR_CACHE_MILLIS <= u64::MAX,
        ensures
            action@ == LookupStep::Answer(address_view(local)),
            match local {
                Some(a) => *final(cache) == spec_stored(a, now),
                None => *final(cache) == *old(cache),
            },
            spec_cache_step(*old(cache), *final(cache), action_answer(action), now),
    {
        match local {
            Some(a) => cache.store(a, now),
            None => {},
        }
        LookupAction::Answer(local)
    }
}

/// The answer that a lookup owes when the services reply `replies`, in order,
/// and the local address is `local`: the first address that a reply names,
/// else the local address.
pub open spec fn first_answer(replies: Seq<Option<Seq<char>>>, local: Option<Seq<u8>>) -> Option<Seq<u8>>
    decreases replies.len(),
{
    if replies.len() == 0 {
        local
    } else {
        match spec_reply_address(replies[0]) {
            Some(a) => Some(a),
            None => first_answer(replies.drop_first(), local),
        }
    }
}

/// The answer that the lookup reaches from awaiting service `next`, when
/// service `i` replies `replies[i]` and the local address is `local`,
/// following `spec_on_reply` step by step.
pub open spec fn spec_run(next: nat, replies: Seq<Option<Seq<char>>>, local: Option<Seq<u8>>) -> Option<Seq<u8>>
    decreases SERVICE_COUNT - next,
{
    if next >= SERVICE_COUNT {
        local
    } else {
        match spec_on_reply(next, replies[next as int]) {
            LookupStep::Answer(a) => a,
            LookupStep::Fetch(_) => spec_run(next + 1, replies, local),
            LookupStep::QueryLocal => local,
        }
    }
}

/// The lookup answers with the first address that a service names, and
/// with the local address when none does.
pub proof fn lemma_lookup_answers_first_address(replies: Seq<Option<Seq<char>>>, local: Option<Seq<u8>>)
    requires
        replies.len() == SERVICE_COUNT,
    ensures
        spec_run(0, replies, local) == first_answer(replies, local),
{
    let rest = replies.drop_first();
    assert(rest.drop_first().len() == 0);
    assert(rest[0] == replies[1]);
    assert(first_answer(rest.drop_first(), local) == local);
    assert(spec_run(2, replies, local) == local);
    assert(spec_run(1, replies, local) == first_answer(rest, local));
    assert(spec_run(0, replies, local) == first_answer(replies, local));
}

} // verus!
