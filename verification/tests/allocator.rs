use sequencer::{GlobalCounter, Sequencer};

#[test]
fn fresh_allocator_starts_empty() {
    let c = GlobalCounter::new();
    let s = Sequencer::new(128, 2048);
    assert_eq!(c.read(), 0);
    assert_eq!(s.local(), 0);
    assert_eq!(s.global(&c), 0);
}

#[test]
fn single_allocator_counts_from_zero() {
    // step = 4, lag = 100, fresh counter: the first four calls serve the
    // initial batch [0, 4); the fifth refills, claims [4, 8) and returns 4.
    let mut c = GlobalCounter::new();
    let mut s = Sequencer::new(4, 100);
    assert_eq!(s.inc(&mut c), 0);
    assert_eq!(s.inc(&mut c), 1);
    assert_eq!(s.inc(&mut c), 2);
    assert_eq!(s.inc(&mut c), 3);
    assert_eq!(c.read(), 4);
    assert_eq!(s.inc(&mut c), 4);
    assert_eq!(c.read(), 8);
    assert_eq!(s.local(), 5);
    assert_eq!(s.global(&c), 8);
}

#[test]
fn first_call_does_not_skip_or_repeat_zero() {
    // A fresh allocator has local == target == 0; the exhaustion check makes
    // the very first call refill, and value 0 comes out exactly once.
    let mut c = GlobalCounter::new();
    let mut s = Sequencer::new(8, 64);
    let mut seen: Vec<u64> = Vec::new();
    for _ in 0..20 {
        seen.push(s.inc(&mut c));
    }
    assert_eq!(seen.iter().filter(|&&v| v == 0).count(), 1);
    assert_eq!(seen[0], 0);
}

#[test]
fn two_allocators_claim_disjoint_batches() {
    // Two allocators, step = 4, lag = 100, counter from 0: A claims [0, 4)
    // and returns 0; B claims [4, 8) and returns 4.
    let mut c = GlobalCounter::new();
    let mut a = Sequencer::new(4, 100);
    let mut b = Sequencer::new(4, 100);
    assert_eq!(a.inc(&mut c), 0);
    assert_eq!(b.inc(&mut c), 4);
    assert_eq!(a.inc(&mut c), 1);
    assert_eq!(b.inc(&mut c), 5);
}

#[test]
fn no_value_issued_twice_across_allocators() {
    let mut c = GlobalCounter::new();
    let mut a = Sequencer::new(4, 16);
    let mut b = Sequencer::new(8, 16);
    let mut all: Vec<u64> = Vec::new();
    for round in 0..200u32 {
        // An uneven interleaving so both refill at different moments.
        if round % 3 == 0 {
            all.push(a.inc(&mut c));
        } else {
            all.push(b.inc(&mut c));
        }
        if round % 7 == 0 {
            all.push(a.inc(&mut c));
        }
    }
    let mut sorted = all.clone();
    sorted.sort_unstable();
    for w in sorted.windows(2) {
        assert_ne!(w[0], w[1]);
    }
}

#[test]
fn single_allocator_output_strictly_increasing() {
    let mut c = GlobalCounter::new();
    let mut s = Sequencer::new(4, 8);
    let mut prev = s.inc(&mut c);
    for round in 0..100u64 {
        // External claims force refills through the staleness path too.
        if round % 5 == 0 {
            c.fetch_add(17);
        }
        let v = s.inc(&mut c);
        assert!(v > prev);
        prev = v;
    }
}

#[test]
fn sole_allocator_output_has_no_gaps() {
    // With no other claimant the batches are adjacent, so the output is
    // exactly 0, 1, 2, ... even across refills.
    let mut c = GlobalCounter::new();
    let mut s = Sequencer::new(16, 1000);
    for expected in 0..100u64 {
        assert_eq!(s.inc(&mut c), expected);
    }
}

#[test]
fn stale_allocator_refills_immediately() {
    // step = 64, lag = 512: after the counter moves 1000 past the batch, the
    // next call abandons the old batch and claims afresh at the frontier.
    let mut c = GlobalCounter::new();
    let mut s = Sequencer::new(64, 512);
    assert_eq!(s.inc(&mut c), 0);
    assert_eq!(c.fetch_add(1000), 64);
    assert_eq!(s.inc(&mut c), 1064);
    assert_eq!(c.read(), 1128);
}

#[test]
fn lagging_within_bound_keeps_the_batch() {
    // While the counter stays within lag of local, the batch is kept.
    let mut c = GlobalCounter::new();
    let mut s = Sequencer::new(64, 512);
    assert_eq!(s.inc(&mut c), 0);
    c.fetch_add(400);
    assert_eq!(c.read(), 464);
    assert_eq!(s.inc(&mut c), 1);
    assert_eq!(c.read(), 464);
}

#[test]
fn fetch_add_grants_disjoint_ranges() {
    let mut c = GlobalCounter::new();
    let a = c.fetch_add(5);
    let b = c.fetch_add(3);
    let d = c.fetch_add(7);
    assert_eq!(a, 0);
    assert_eq!(b, 5);
    assert_eq!(d, 8);
    assert!(a + 5 <= b);
    assert!(b + 3 <= d);
    assert_eq!(c.read(), 15);
}
