use url_shortener::allocator::{
    AllocAction, AllocEvent, Allocator, FailureKind, Phase, ATTEMPTS_PER_ROUND, MAX_GROWTH_ROUNDS,
};

#[test]
fn machine_reserves_on_first_free_candidate() {
    let mut m = Allocator::new();
    assert_eq!(m.next_action(), AllocAction::ReadLength);
    m.step(AllocEvent::LengthRead(4));
    assert_eq!(m.next_action(), AllocAction::TryReserve(4));
    m.step(AllocEvent::Reserved);
    assert_eq!(m.phase, Phase::Succeeded);
    assert_eq!(m.next_action(), AllocAction::Stop);
}

#[test]
fn machine_collisions_within_bound_still_succeed() {
    let mut m = Allocator::new();
    m.step(AllocEvent::LengthRead(4));
    m.step(AllocEvent::Conflicted);
    assert_eq!(m.next_action(), AllocAction::TryReserve(4));
    m.step(AllocEvent::Conflicted);
    assert_eq!(m.next_action(), AllocAction::TryReserve(4));
    m.step(AllocEvent::Reserved);
    assert_eq!(m.phase, Phase::Succeeded);
}

#[test]
fn machine_grows_length_after_a_saturated_round() {
    let mut m = Allocator::new();
    m.step(AllocEvent::LengthRead(4));
    for _ in 0..ATTEMPTS_PER_ROUND {
        m.step(AllocEvent::Conflicted);
    }
    assert_eq!(m.phase, Phase::Growing);
    assert_eq!(m.next_action(), AllocAction::WriteLength(5));
    m.step(AllocEvent::LengthWritten);
    assert_eq!(m.next_action(), AllocAction::ReadLength);
    m.step(AllocEvent::LengthRead(5));
    assert_eq!(m.next_action(), AllocAction::TryReserve(5));
}

#[test]
fn machine_fails_on_store_fault() {
    let mut m = Allocator::new();
    m.step(AllocEvent::LengthRead(4));
    m.step(AllocEvent::StoreFailed);
    assert_eq!(m.phase, Phase::Failed(FailureKind::StoreFault));
    assert_eq!(m.next_action(), AllocAction::Stop);

    let mut m2 = Allocator::new();
    m2.step(AllocEvent::StoreFailed);
    assert_eq!(m2.phase, Phase::Failed(FailureKind::StoreFault));
}

#[test]
fn machine_gives_up_after_the_growth_bound() {
    let mut m = Allocator::new();
    for round in 0..MAX_GROWTH_ROUNDS {
        m.step(AllocEvent::LengthRead(4 + round));
        for _ in 0..ATTEMPTS_PER_ROUND {
            m.step(AllocEvent::Conflicted);
        }
        m.step(AllocEvent::LengthWritten);
    }
    assert_eq!(m.phase, Phase::Failed(FailureKind::Exhausted));
    assert_eq!(m.next_action(), AllocAction::Stop);
}

#[test]
fn machine_clamps_a_zero_length_reading() {
    let mut m = Allocator::new();
    m.step(AllocEvent::LengthRead(0));
    assert_eq!(m.next_action(), AllocAction::TryReserve(1));
}
