//! Code allocation: candidate generation over the 62-symbol alphanumeric
//! alphabet, and the bounded retry/growth state machine that decides, from
//! each store outcome, what the allocation does next.
//!
//! The machine is pure: a driver performs the store operation that
//! [`Allocator::next_action`] names, and feeds the outcome back through
//! [`Allocator::step`]. Three collisions in a row at one length are judged
//! keyspace saturation and grow the length by one; after a fixed number of
//! growth rounds the allocation gives up instead of looping forever.

use vstd::prelude::*;
use rand::Rng;

verus! {

/// Candidates tried at one code length before the length is grown.
pub const ATTEMPTS_PER_ROUND: usize = 3;

/// Growth rounds an allocation may go through before it fails with
/// `CapacityExhausted`.
pub const MAX_GROWTH_ROUNDS: usize = 10;

/// A character of the 62-symbol code alphabet: an ASCII digit or letter.
pub open spec fn is_code_char(c: char) -> bool {
    ||| '0' as int <= c as int <= '9' as int
    ||| 'A' as int <= c as int <= 'Z' as int
    ||| 'a' as int <= c as int <= 'z' as int
}

/// True when every character of `s` belongs to the code alphabet.
pub open spec fn is_code(s: Seq<char>) -> bool {
    forall|i: int| 0 <= i < s.len() ==> is_code_char(s[i])
}

/// Relies on rand's `Alphanumeric` distribution: each sampled byte is an
/// ASCII digit, upper-case letter or lower-case letter, drawn fresh from the
/// thread's generator. Nothing more is assumed of which characters come out.
#[verifier::external_body]
pub(crate) fn generate_short_code(length: usize) -> (r: String)
    ensures
        r@.len() == length,
        is_code(r@),
{
    rand::thread_rng()
        .sample_iter(&rand::distributions::Alphanumeric)
        .take(length)
        .map(char::from)
        .collect()
}

/// Why an allocation stopped without a reserved code.
#[derive(Clone, Copy, Debug, PartialEq, Eq, Structural)]
pub enum FailureKind {
    /// The store reported a fault; the allocation is not retried.
    StoreFault,
    /// Every round up to the growth bound collided.
    Exhausted,
}

/// Where an allocation stands.
#[derive(Clone, Copy, Debug, PartialEq, Eq, Structural)]
pub enum Phase {
    /// The current length setting must be read before candidates are tried.
    Generating,
    /// A candidate of the current length should be generated and reserved.
    Reserving,
    /// The round collided out; the grown length must be written back.
    Growing,
    /// A candidate was reserved; the allocation is done.
    Succeeded,
    /// The allocation stopped without a code.
    Failed(FailureKind),
}

/// What the store answered to the operation the machine asked for.
#[derive(Clone, Copy, Debug, PartialEq, Eq, Structural)]
pub enum AllocEvent {
    /// The length setting was read and holds this value.
    LengthRead(usize),
    /// The candidate was free and is now bound.
    Reserved,
    /// The candidate was already bound.
    Conflicted,
    /// The read or the reservation failed at the store.
    StoreFailed,
    /// The grown length was written back (or the best-effort write was
    /// swallowed; either way the round is over).
    LengthWritten,
}

/// The store operation the driver should perform next.
#[derive(Clone, Copy, Debug, PartialEq, Eq, Structural)]
pub enum AllocAction {
    /// Read the code-length setting.
    ReadLength,
    /// Generate a candidate of this length and try to reserve it.
    TryReserve(usize),
    /// Upsert the code-length setting to this value.
    WriteLength(usize),
    /// The allocation is over; no further store operation is wanted.
    Stop,
}

/// The allocation state machine: the phase, the length candidates are being
/// tried at, how many candidates this round has used, and how many growth
/// rounds have passed.
#[derive(Clone, Copy, Debug, PartialEq, Eq, Structural)]
pub struct Allocator {
    pub phase: Phase,
    pub length: usize,
    pub attempts: usize,
    pub rounds: usize,
}

/// A read length, forced into the range the machine can work with: at least
/// 1, and small enough that growing it by one still fits in `usize`.
pub open spec fn clamped_length(n: usize) -> usize {
    if n == 0 {
        1usize
    } else if n == usize::MAX {
        (usize::MAX - 1) as usize
    } else {
        n
    }
}

/// The machine's whole transition relation: the state after `m` absorbs the
/// store outcome `e`. An outcome that does not belong to the current phase
/// changes nothing.
pub open spec fn spec_step(m: Allocator, e: AllocEvent) -> Allocator {
    match (m.phase, e) {
        (Phase::Generating, AllocEvent::LengthRead(n)) => Allocator {
            phase: Phase::Reserving,
            length: clamped_length(n),
            attempts: 0,
            ..m
        },
        (Phase::Generating, AllocEvent::StoreFailed) => Allocator {
            phase: Phase::Failed(FailureKind::StoreFault),
            ..m
        },
        (Phase::Reserving, AllocEvent::Reserved) => Allocator { phase: Phase::Succeeded, ..m },
        (Phase::Reserving, AllocEvent::Conflicted) => if m.attempts + 1 < ATTEMPTS_PER_ROUND {
            Allocator { attempts: (m.attempts + 1) as usize, ..m }
        } else {
            Allocator { phase: Phase::Growing, attempts: (m.attempts + 1) as usize, ..m }
        },
        (Phase::Reserving, AllocEvent::StoreFailed) => Allocator {
            phase: Phase::Failed(FailureKind::StoreFault),
            ..m
        },
        (Phase::Growing, AllocEvent::LengthWritten) => if m.rounds + 1 < MAX_GROWTH_ROUNDS {
            Allocator { phase: Phase::Generating, rounds: (m.rounds + 1) as usize, ..m }
        } else {
            Allocator {
                phase: Phase::Failed(FailureKind::Exhausted),
                rounds: (m.rounds + 1) as usize,
                ..m
            }
        },
        _ => m,
    }
}

/// The store operation each phase calls for.
pub open spec fn spec_action(m: Allocator) -> AllocAction {
    match m.phase {
        Phase::Generating => AllocAction::ReadLength,
        Phase::Reserving => AllocAction::TryReserve(m.length),
        Phase::Growing => AllocAction::WriteLength((m.length + 1) as usize),
        Phase::Succeeded => AllocAction::Stop,
        Phase::Failed(_) => AllocAction::Stop,
    }
}

impl Allocator {
    /// The counters stay inside their bounds, and each phase is entered with
    /// the counters it expects.
    pub open spec fn inv(self) -> bool {
        &&& 1 <= self.length < usize::MAX
        &&& self.attempts <= ATTEMPTS_PER_ROUND
        &&& self.rounds <= MAX_GROWTH_ROUNDS
        &&& (self.phase is Reserving ==> self.attempts < ATTEMPTS_PER_ROUND)
        &&& (self.phase is Reserving ==> self.rounds < MAX_GROWTH_ROUNDS)
        &&& (self.phase is Generating ==> self.rounds < MAX_GROWTH_ROUNDS)
        &&& (self.phase is Growing ==> self.rounds < MAX_GROWTH_ROUNDS)
    }

    /// A measure that shrinks with every applicable transition short of
    /// `Succeeded` and `Failed`: growth rounds left, then the phase's place
    /// in a round, then candidates left in the round.
    pub open spec fn phase_rank(self) -> int {
        match self.phase {
            Phase::Generating => 2,
            Phase::Reserving => 1,
            Phase::Growing => 0,
            Phase::Succeeded => 0,
            Phase::Failed(_) => 0,
        }
    }

    /// A fresh allocation, about to read the length setting.
    pub fn new() -> (m: Allocator)
        ensures
            m.inv(),
            m.phase is Generating,
            m.rounds == 0,
    {
        Allocator { phase: Phase::Generating, length: 1, attempts: 0, rounds: 0 }
    }

    /// The store operation to perform next.
    pub fn next_action(&self) -> (a: AllocAction)
        requires
            self.inv(),
        ensures
            a == spec_action(*self),
    {
        match self.phase {
            Phase::Generating => AllocAction::ReadLength,
            Phase::Reserving => AllocAction::TryReserve(self.length),
            Phase::Growing => AllocAction::WriteLength(self.length + 1),
            Phase::Succeeded => AllocAction::Stop,
            Phase::Failed(_) => AllocAction::Stop,
        }
    }

    /// Absorbs one store outcome, exactly as [`spec_step`] says.
    pub fn step(&mut self, e: AllocEvent)
        requires
            old(self).inv(),
        ensures
            final(self).inv(),
            *final(self) == spec_step(*old(self), e),
    {
        match (self.phase, e) {
            (Phase::Generating, AllocEvent::LengthRead(n)) => {
                self.phase = Phase::Reserving;
                self.length = if n == 0 {
                    1
                } else if n == usize::MAX {
                    usize::MAX - 1
                } else {
                    n
                };
                self.attempts = 0;
            },
            (Phase::Generating, AllocEvent::StoreFailed) => {
                self.phase = Phase::Failed(FailureKind::StoreFault);
            },
            (Phase::Reserving, AllocEvent::Reserved) => {
                self.phase = Phase::Succeeded;
            },
            (Phase::Reserving, AllocEvent::Conflicted) => {
                self.attempts = self.attempts + 1;
                if self.attempts == ATTEMPTS_PER_ROUND {
                    self.phase = Phase::Growing;
                }
            },
            (Phase::Reserving, AllocEvent::StoreFailed) => {
                self.phase = Phase::Failed(FailureKind::StoreFault);
            },
            (Phase::Growing, AllocEvent::LengthWritten) => {
                self.rounds = self.rounds + 1;
                if self.rounds < MAX_GROWTH_ROUNDS {
                    self.phase = Phase::Generating;
                } else {
                    self.phase = Phase::Failed(FailureKind::Exhausted);
                }
            },
            _ => {},
        }
    }
}

/// The machine after `n` collision outcomes in a row.
pub open spec fn run_conflicts(m: Allocator, n: nat) -> Allocator
    decreases n,
{
    if n == 0 {
        m
    } else {
        spec_step(run_conflicts(m, (n - 1) as nat), AllocEvent::Conflicted)
    }
}

/// Collision transparency: as long as the collisions stay under the round's
/// candidate bound, they leave the machine reserving at the same length, and
/// an accepted candidate after them still ends the allocation in `Succeeded`
/// — collisions never surface to the caller.
pub proof fn lemma_collision_transparency(m: Allocator, n: nat)
    requires
        m.inv(),
        m.phase is Reserving,
        m.attempts + n < ATTEMPTS_PER_ROUND,
    ensures
        run_conflicts(m, n).phase is Reserving,
        run_conflicts(m, n).length == m.length,
        run_conflicts(m, n).rounds == m.rounds,
        run_conflicts(m, n).attempts == m.attempts + n,
        run_conflicts(m, n).inv(),
        spec_step(run_conflicts(m, n), AllocEvent::Reserved).phase is Succeeded,
    decreases n,
{
    if n > 0 {
        lemma_collision_transparency(m, (n - 1) as nat);
    }
}

/// Length growth: when all candidates of a round collide, the machine asks
/// for the setting to be written to the grown length, and the next round
/// reads the setting back fresh — whatever value that read returns is the
/// length the round reserves at (clamped into the workable range), and in
/// particular reading back the grown value reserves candidates one
/// character longer.
pub proof fn lemma_length_growth(m: Allocator)
    requires
        m.inv(),
        m.phase is Reserving,
        m.attempts == 0,
        m.rounds + 1 < MAX_GROWTH_ROUNDS,
    ensures
        ({
            let exhausted = run_conflicts(m, ATTEMPTS_PER_ROUND as nat);
            let grown = spec_step(exhausted, AllocEvent::LengthWritten);
            &&& exhausted.phase is Growing
            &&& spec_action(exhausted) == AllocAction::WriteLength((m.length + 1) as usize)
            &&& grown.phase is Generating
            &&& forall|n: usize|
                (#[trigger] spec_step(grown, AllocEvent::LengthRead(n))).phase is Reserving
            &&& forall|n: usize|
                (#[trigger] spec_step(grown, AllocEvent::LengthRead(n))).length
                    == clamped_length(n)
            &&& m.length + 1 < usize::MAX ==> spec_step(
                grown,
                AllocEvent::LengthRead((m.length + 1) as usize),
            ).length == m.length + 1
        }),
{
    reveal_with_fuel(run_conflicts, 5);
    lemma_collision_transparency(m, (ATTEMPTS_PER_ROUND - 1) as nat);
}

} // verus!
