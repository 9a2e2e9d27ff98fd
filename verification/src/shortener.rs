//! The shortening service over an in-memory registry: `register` allocates a
//! fresh short code for a URL by driving the allocation state machine
//! against the registry, and `lookup` resolves a code back to its URL.

use vstd::prelude::*;

use crate::Error;
use crate::allocator::{
    AllocAction, AllocEvent, Allocator, ATTEMPTS_PER_ROUND, FailureKind, MAX_GROWTH_ROUNDS, Phase,
    generate_short_code, is_code,
};
use crate::registry::{Registry, ReserveOutcome};

verus! {

/// What a successful registration does to the registry contents: the handed
/// out code was not bound before, and afterwards the contents are exactly
/// the old contents plus that one binding.
pub open spec fn register_granted(
    pre: Map<Seq<char>, Seq<char>>,
    post: Map<Seq<char>, Seq<char>>,
    url: Seq<char>,
    code: Seq<char>,
) -> bool {
    &&& !pre.contains_key(code)
    &&& post == pre.insert(code, url)
}

/// What a resolution returns, as a function of the registry contents and the
/// code alone: the bound URL, or `NotFound` when the code is unbound.
pub open spec fn resolution_of(m: Map<Seq<char>, Seq<char>>, code: Seq<char>) -> Result<
    Seq<char>,
    Error,
> {
    if m.contains_key(code) {
        Ok(m[code])
    } else {
        Err(Error::NotFound)
    }
}

/// The URL-shortening service: a registry of bindings plus the allocation
/// procedure that fills it.
pub struct UrlShortener {
    registry: Registry,
}

impl View for UrlShortener {
    type V = Map<Seq<char>, Seq<char>>;

    /// The service, read as the map from issued codes to their URLs.
    closed spec fn view(&self) -> Map<Seq<char>, Seq<char>> {
        self.registry@
    }
}

impl UrlShortener {
    /// The underlying registry is well-formed.
    pub closed spec fn wf(self) -> bool {
        self.registry.wf()
    }

    /// The current code-length setting of the underlying registry.
    pub closed spec fn length_setting(self) -> int {
        self.registry.length_setting()
    }

    /// A service over the given registry.
    pub fn new(registry: Registry) -> (s: UrlShortener)
        requires
            registry.wf(),
        ensures
            s.wf(),
            s@ == registry@,
            s.length_setting() == registry.length_setting(),
    {
        UrlShortener { registry }
    }

    /// Allocates a fresh short code for `original_url` and binds it.
    ///
    /// Candidates are random alphanumeric strings of the registry's current
    /// length setting; a candidate that collides with an existing binding is
    /// discarded, and after three collisions in a round the setting is grown
    /// by one and the round restarted. After `MAX_GROWTH_ROUNDS` such rounds
    /// the keyspace is judged saturated and the call fails with
    /// `CapacityExhausted`, leaving every existing binding in place.
    pub fn register(&mut self, original_url: &str) -> (r: Result<String, Error>)
        requires
            old(self).wf(),
            old(self).length_setting() + MAX_GROWTH_ROUNDS < usize::MAX,
        ensures
            final(self).wf(),
            final(self).length_setting() >= old(self).length_setting(),
            final(self).length_setting() <= old(self).length_setting() + MAX_GROWTH_ROUNDS,
            old(self)@ =~= Map::<Seq<char>, Seq<char>>::empty() ==> r is Ok
                && final(self).length_setting() == old(self).length_setting(),
            match r {
                Ok(code) => {
                    &&& register_granted(old(self)@, final(self)@, original_url@, code@)
                    &&& code@.len() == final(self).length_setting()
                    &&& is_code(code@)
                },
                Err(e) => {
                    &&& e == Error::CapacityExhausted
                    &&& final(self)@ == old(self)@
                    &&& final(self).length_setting() == old(self).length_setting()
                        + MAX_GROWTH_ROUNDS
                },
            },
    {
        let mut m = Allocator::new();
        loop
            invariant
                self.registry.wf(),
                m.inv(),
                old(self).wf(),
                old(self).length_setting() + MAX_GROWTH_ROUNDS < usize::MAX,
                self.registry@ == old(self)@,
                self.registry.length_setting() == old(self).length_setting() + m.rounds,
                (m.phase is Reserving || m.phase is Growing) ==> m.length
                    == self.registry.length_setting(),
                !(m.phase is Succeeded),
                m.phase != Phase::Failed(FailureKind::StoreFault),
                m.phase == Phase::Failed(FailureKind::Exhausted) ==> m.rounds
                    == MAX_GROWTH_ROUNDS,
                old(self)@ =~= Map::<Seq<char>, Seq<char>>::empty() ==> !(m.phase is Growing)
                    && m.phase != Phase::Failed(FailureKind::Exhausted) && m.rounds == 0,
            decreases
                    MAX_GROWTH_ROUNDS - m.rounds,
                    m.phase_rank(),
                    ATTEMPTS_PER_ROUND - m.attempts,
        {
            match m.next_action() {
                AllocAction::ReadLength => {
                    let length = self.registry.read_code_length();
                    m.step(AllocEvent::LengthRead(length));
                },
                AllocAction::TryReserve(length) => {
                    let candidate = generate_short_code(length);
                    match self.registry.try_reserve(candidate.as_str(), original_url) {
                        ReserveOutcome::Reserved => {
                            m.step(AllocEvent::Reserved);
                            return Ok(candidate);
                        },
                        ReserveOutcome::Conflict => {
                            proof {
                                if old(self)@ =~= Map::<Seq<char>, Seq<char>>::empty() {
                                    assert(Map::<Seq<char>, Seq<char>>::empty().contains_key(
                                        candidate@,
                                    ));
                                    assert(false);
                                }
                            }
                            m.step(AllocEvent::Conflicted);
                        },
                    }
                },
                AllocAction::WriteLength(grown) => {
                    self.registry.write_code_length(grown);
                    m.step(AllocEvent::LengthWritten);
                },
                AllocAction::Stop => {
                    proof {
                        if old(self)@ =~= Map::<Seq<char>, Seq<char>>::empty() {
                            assert(m.phase is Succeeded || m.phase is Failed);
                            assert(m.phase == Phase::Failed(FailureKind::Exhausted));
                            assert(false);
                        }
                    }
                    return Err(Error::CapacityExhausted);
                },
            }
        }
    }

    /// Reads the current code-length setting: the length freshly generated
    /// candidates will have.
    pub fn get_short_code_length(&self) -> (n: usize)
        requires
            self.wf(),
        ensures
            n == self.length_setting(),
            n >= 1,
    {
        self.registry.read_code_length()
    }

    /// Resolves a short code: the URL it was registered for, or `NotFound`
    /// when the code was never issued. A pure read; the service is
    /// untouched.
    pub fn lookup(&self, short_code: &str) -> (r: Result<String, Error>)
        requires
            self.wf(),
        ensures
            (match r {
                Ok(u) => Ok::<Seq<char>, Error>(u@),
                Err(e) => Err::<Seq<char>, Error>(e),
            }) == resolution_of(self@, short_code@),
    {
        match self.registry.lookup(short_code) {
            Some(url) => Ok(url),
            None => Err(Error::NotFound),
        }
    }
}

/// Uniqueness: codes handed out by two successive successful registrations
/// are distinct, whatever the URLs (equal or not) — the second registration
/// only ever hands out a code that was unbound when it ran, and the first
/// one's code was bound from then on.
pub proof fn lemma_codes_distinct(
    pre: Map<Seq<char>, Seq<char>>,
    mid: Map<Seq<char>, Seq<char>>,
    post: Map<Seq<char>, Seq<char>>,
    u1: Seq<char>,
    u2: Seq<char>,
    c1: Seq<char>,
    c2: Seq<char>,
)
    requires
        register_granted(pre, mid, u1, c1),
        register_granted(mid, post, u2, c2),
    ensures
        c1 != c2,
{
    assert(mid.contains_key(c1));
}

/// Round-trip: a code handed out for a URL resolves to exactly that URL
/// afterwards.
pub proof fn lemma_round_trip(
    pre: Map<Seq<char>, Seq<char>>,
    post: Map<Seq<char>, Seq<char>>,
    url: Seq<char>,
    code: Seq<char>,
)
    requires
        register_granted(pre, post, url, code),
    ensures
        resolution_of(post, code) == Ok::<Seq<char>, Error>(url),
{
}

/// Unknown lookup: a code that is unbound resolves to `NotFound`, and a
/// registration that hands out some other code leaves it unbound — so a code
/// never returned by a successful registration keeps resolving to
/// `NotFound`.
pub proof fn lemma_unknown_code(
    pre: Map<Seq<char>, Seq<char>>,
    post: Map<Seq<char>, Seq<char>>,
    url: Seq<char>,
    granted: Seq<char>,
    unknown: Seq<char>,
)
    requires
        register_granted(pre, post, url, granted),
        !pre.contains_key(unknown),
        unknown != granted,
    ensures
        !post.contains_key(unknown),
        resolution_of(post, unknown) == Err::<Seq<char>, Error>(Error::NotFound),
{
}

/// A run of successful registrations: `states` are the registry contents
/// before and after each one, and the `i`-th registration handed out
/// `codes[i]` for `urls[i]`.
pub open spec fn registration_run(
    states: Seq<Map<Seq<char>, Seq<char>>>,
    urls: Seq<Seq<char>>,
    codes: Seq<Seq<char>>,
) -> bool {
    &&& states.len() == codes.len() + 1
    &&& urls.len() == codes.len()
    &&& forall|i: int|
        0 <= i < codes.len() ==> register_granted(states[i], states[i + 1], urls[i], codes[i])
}

/// Unknown lookup, over whole histories: a code that no successful
/// registration of the run ever handed out is still unbound at the end of
/// the run, and resolves to `NotFound` there.
pub proof fn lemma_never_granted_never_resolves(
    states: Seq<Map<Seq<char>, Seq<char>>>,
    urls: Seq<Seq<char>>,
    codes: Seq<Seq<char>>,
    unknown: Seq<char>,
)
    requires
        registration_run(states, urls, codes),
        states[0] == Map::<Seq<char>, Seq<char>>::empty(),
        forall|i: int| 0 <= i < codes.len() ==> codes[i] != unknown,
    ensures
        !states[states.len() - 1].contains_key(unknown),
        resolution_of(states[states.len() - 1], unknown) == Err::<Seq<char>, Error>(
            Error::NotFound,
        ),
    decreases codes.len(),
{
    if codes.len() == 0 {
        assert(!states[0].contains_key(unknown));
    } else {
        let n = codes.len() as int;
        lemma_never_granted_never_resolves(
            states.take(n),
            urls.take(n - 1),
            codes.take(n - 1),
            unknown,
        );
        lemma_unknown_code(states[n - 1], states[n], urls[n - 1], codes[n - 1], unknown);
    }
}

/// A binding, once granted, survives the rest of the run untouched: at every
/// later state the code is still bound, and still to the URL it was granted
/// for — a valid, never-deleted code keeps resolving to the same URL however
/// many registrations follow.
pub proof fn lemma_binding_persists(
    states: Seq<Map<Seq<char>, Seq<char>>>,
    urls: Seq<Seq<char>>,
    codes: Seq<Seq<char>>,
    i: int,
    j: int,
)
    requires
        registration_run(states, urls, codes),
        0 <= i < codes.len(),
        i < j <= codes.len(),
    ensures
        states[j].contains_key(codes[i]),
        states[j][codes[i]] == urls[i],
    decreases j - i,
{
    if j > i + 1 {
        lemma_binding_persists(states, urls, codes, i, j - 1);
        assert(register_granted(states[j - 1], states[j], urls[j - 1], codes[j - 1]));
    }
}

/// Uniqueness, over whole histories: no two registrations of a run ever hand
/// out the same code, whatever the URLs.
pub proof fn lemma_run_codes_distinct(
    states: Seq<Map<Seq<char>, Seq<char>>>,
    urls: Seq<Seq<char>>,
    codes: Seq<Seq<char>>,
    i: int,
    j: int,
)
    requires
        registration_run(states, urls, codes),
        0 <= i < j < codes.len(),
    ensures
        codes[i] != codes[j],
{
    lemma_binding_persists(states, urls, codes, i, j);
    assert(register_granted(states[j], states[j + 1], urls[j], codes[j]));
}

/// Round-trip, over whole histories: when the run is over, every code it
/// handed out still resolves to the URL it was registered for.
pub proof fn lemma_run_round_trip(
    states: Seq<Map<Seq<char>, Seq<char>>>,
    urls: Seq<Seq<char>>,
    codes: Seq<Seq<char>>,
    i: int,
)
    requires
        registration_run(states, urls, codes),
        0 <= i < codes.len(),
    ensures
        resolution_of(states[codes.len() as int], codes[i]) == Ok::<Seq<char>, Error>(urls[i]),
{
    lemma_binding_persists(states, urls, codes, i, codes.len() as int);
}

/// Idempotent resolution: what a resolution returns is a function of the
/// registry contents and the code alone, so two resolutions of the same code
/// against the same contents agree.
pub proof fn lemma_resolution_idempotent(
    m: Map<Seq<char>, Seq<char>>,
    code: Seq<char>,
    r1: Result<Seq<char>, Error>,
    r2: Result<Seq<char>, Error>,
)
    requires
        r1 == resolution_of(m, code),
        r2 == resolution_of(m, code),
    ensures
        r1 == r2,
{
}

} // verus!
