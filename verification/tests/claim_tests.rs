use chain_engine::cache::{Claim, InFlight, Outcome, VerifyCache};

fn outcome(fee: u64) -> Outcome {
    Outcome { fee, cycles: 7, valid: true }
}

#[test]
fn a_key_is_handed_out_for_verification_once() {
    let mut cache = VerifyCache::new(4);
    let mut flight = InFlight::new();
    assert_eq!(flight.claim(&mut cache, 1, 1), Claim::Compute);
    assert_eq!(flight.claim(&mut cache, 1, 1), Claim::Wait);
    assert_eq!(flight.claim(&mut cache, 1, 1), Claim::Wait);
    assert_eq!(flight.claim(&mut cache, 1, 2), Claim::Compute);
    assert_eq!(flight.claim(&mut cache, 2, 1), Claim::Compute);
    flight.complete(&mut cache, 1, 1, outcome(9));
    assert_eq!(flight.claim(&mut cache, 1, 1), Claim::Hit(outcome(9)));
    assert_eq!(flight.claim(&mut cache, 1, 2), Claim::Wait);
}

#[test]
fn an_abandoned_verification_can_be_taken_up_again() {
    let mut cache = VerifyCache::new(4);
    let mut flight = InFlight::new();
    assert_eq!(flight.claim(&mut cache, 1, 1), Claim::Compute);
    assert_eq!(flight.claim(&mut cache, 2, 1), Claim::Compute);
    flight.abandon(1, 1);
    assert_eq!(flight.claim(&mut cache, 2, 1), Claim::Wait);
    assert_eq!(flight.claim(&mut cache, 1, 1), Claim::Compute);
    assert_eq!(flight.claim(&mut cache, 1, 1), Claim::Wait);
    flight.abandon(3, 3);
    assert_eq!(flight.claim(&mut cache, 1, 1), Claim::Wait);
}

#[test]
fn a_cached_outcome_needs_no_verification() {
    let mut cache = VerifyCache::new(4);
    let mut flight = InFlight::new();
    cache.insert(5, 1, outcome(3));
    assert_eq!(flight.claim(&mut cache, 5, 1), Claim::Hit(outcome(3)));
    cache.invalidate_epoch(1);
    assert_eq!(flight.claim(&mut cache, 5, 1), Claim::Compute);
}

#[test]
fn a_claim_counts_as_use_of_the_entry() {
    let mut cache = VerifyCache::new(2);
    let mut flight = InFlight::new();
    cache.insert(1, 1, outcome(1));
    cache.insert(2, 1, outcome(2));
    assert_eq!(flight.claim(&mut cache, 1, 1), Claim::Hit(outcome(1)));
    flight.complete(&mut cache, 3, 1, outcome(3));
    assert_eq!(cache.lookup(2, 1), None);
    assert_eq!(cache.lookup(1, 1), Some(outcome(1)));
}
