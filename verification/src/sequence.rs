use vstd::prelude::*;

use crate::counter::{grant_end, grants_disjoint, CounterModel, GlobalCounter, Grant};

verus! {

/// The numbers this library allocates.
pub type Sequence = u64;

/// One refill recorded by an allocator: the position (`idx`) of the grant it
/// took in the counter's grant history, and the granted range.
pub struct Claim {
    pub idx: int,
    pub start: u64,
    pub len: u64,
}

/// Mathematical model of a [`Sequencer`]: its policy parameters, the current
/// batch `[local, target)`, every value it has issued and every claim it has
/// made, both in order.
#[verifier::ext_equal]
pub struct SequencerModel {
    pub local: u64,
    pub target: u64,
    pub step: u64,
    pub lag: u64,
    pub issued: Seq<u64>,
    pub claims: Seq<Claim>,
}

/// The value lies in the claim's range.
pub open spec fn in_claim(v: u64, c: Claim) -> bool {
    c.start <= v < c.start + c.len
}

/// The value lies in some claim of the sequence.
pub open spec fn in_some_claim(v: u64, claims: Seq<Claim>) -> bool {
    exists|k: int| 0 <= k < claims.len() && in_claim(v, #[trigger] claims[k])
}

/// The claim records, at its index, a grant the counter really made.
pub open spec fn claim_granted(c: Claim, grants: Seq<Grant>) -> bool {
    &&& 0 <= c.idx < grants.len()
    &&& grants[c.idx] == (Grant { start: c.start, len: c.len })
}

/// No claim of `a` and claim of `b` took the same grant.  Because every
/// `fetch_add` hands its grant to exactly one caller, any two allocators
/// drawing from one counter satisfy this.
pub open spec fn claim_indices_disjoint(a: Seq<Claim>, b: Seq<Claim>) -> bool {
    forall|i: int, j: int|
        0 <= i < a.len() && 0 <= j < b.len() ==> (#[trigger] a[i]).idx != (#[trigger] b[j]).idx
}

impl SequencerModel {
    /// Structural well-formedness: positive policy parameters, a current
    /// batch that ends at the last claim, and every issued value inside some
    /// claimed range.
    pub open spec fn wf(self) -> bool {
        &&& 1 <= self.step
        &&& 1 <= self.lag
        &&& self.local <= self.target
        &&& forall|k: int|
            0 <= k < self.claims.len() ==> (#[trigger] self.claims[k]).len == self.step
        &&& if self.claims.len() == 0 {
            self.local == 0 && self.target == 0 && self.issued.len() == 0
        } else {
            self.claims.last().start <= self.local
                && self.target == self.claims.last().start + self.claims.last().len
        }
        &&& forall|k: int|
            0 <= k < self.issued.len() ==> in_some_claim(#[trigger] self.issued[k], self.claims)
    }
}

/// The allocator has drawn every claim from this counter and from no other:
/// its batch lies below the counter's value, its claims are recorded grants,
/// and its issued values are strictly increasing and all below `local`.
/// `Sequencer::new` establishes it (via [`lemma_new_synced`]) and
/// `Sequencer::inc` preserves it.
pub open spec fn synced(s: SequencerModel, c: CounterModel) -> bool {
    &&& s.wf()
    &&& c.wf()
    &&& s.target <= c.value
    &&& forall|k: int|
        0 <= k < s.claims.len() ==> claim_granted(#[trigger] s.claims[k], c.grants)
    &&& forall|i: int, j: int|
        0 <= i < j < s.issued.len() ==> #[trigger] s.issued[i] < #[trigger] s.issued[j]
    &&& forall|k: int| 0 <= k < s.issued.len() ==> #[trigger] s.issued[k] < s.local
}

/// The refill policy's trigger: the batch is exhausted, or the allocator has
/// fallen more than `lag` behind the counter.
pub open spec fn needs_refill(s: SequencerModel, global: u64) -> bool {
    s.local == s.target || s.local + s.lag < global
}

/// Uniqueness: two allocators drawing from one counter never issue the same
/// value.  The premise that no grant was taken by both is what the counter's
/// fetch-and-add provides, since each grant goes to exactly one caller;
/// [`lemma_fresh_claim_keeps_indices_disjoint`] shows a refill preserves it.
pub proof fn lemma_unique_across_allocators(s1: SequencerModel, s2: SequencerModel, c: CounterModel)
    requires
        synced(s1, c),
        synced(s2, c),
        claim_indices_disjoint(s1.claims, s2.claims),
    ensures
        forall|i: int, j: int|
            0 <= i < s1.issued.len() && 0 <= j < s2.issued.len()
                ==> #[trigger] s1.issued[i] != #[trigger] s2.issued[j],
{
    assert forall|i: int, j: int|
        0 <= i < s1.issued.len() && 0 <= j < s2.issued.len() implies #[trigger] s1.issued[i]
        != #[trigger] s2.issued[j] by {
        let v1 = s1.issued[i];
        let v2 = s2.issued[j];
        assert(in_some_claim(v1, s1.claims));
        assert(in_some_claim(v2, s2.claims));
        let k1 = choose|k: int| 0 <= k < s1.claims.len() && in_claim(v1, #[trigger] s1.claims[k]);
        let k2 = choose|k: int| 0 <= k < s2.claims.len() && in_claim(v2, #[trigger] s2.claims[k]);
        let c1 = s1.claims[k1];
        let c2 = s2.claims[k2];
        assert(claim_granted(c1, c.grants));
        assert(claim_granted(c2, c.grants));
        let g1 = c.grants[c1.idx];
        let g2 = c.grants[c2.idx];
        if c1.idx < c2.idx {
            assert(grant_end(g1) <= g2.start);
        } else {
            assert(grant_end(g2) <= g1.start);
        }
        assert(grants_disjoint(g1, g2));
    }
}

/// A refill records the counter's next grant, so it cannot collide with any
/// claim an allocator already synced with that counter holds: the claim-index
/// disjointness that [`lemma_unique_across_allocators`] needs is preserved.
pub proof fn lemma_fresh_claim_keeps_indices_disjoint(
    a: Seq<Claim>,
    n: Claim,
    b: Seq<Claim>,
    c: CounterModel,
)
    requires
        claim_indices_disjoint(a, b),
        forall|k: int| 0 <= k < b.len() ==> claim_granted(#[trigger] b[k], c.grants),
        n.idx == c.grants.len(),
    ensures
        claim_indices_disjoint(a.push(n), b),
{
    assert forall|i: int, j: int|
        0 <= i < a.push(n).len() && 0 <= j < b.len() implies (#[trigger] a.push(n)[i]).idx
        != (#[trigger] b[j]).idx by {
        if i < a.len() {
            assert(a[i].idx != b[j].idx);
        } else {
            assert(claim_granted(b[j], c.grants));
        }
    }
}

/// Local monotonicity: an allocator's issued values are strictly increasing,
/// so it never repeats a value; `inc` additionally returns exactly the
/// previous value plus one whenever it serves from the same batch.
pub proof fn lemma_issued_strictly_increasing(s: SequencerModel, c: CounterModel)
    requires
        synced(s, c),
    ensures
        forall|i: int, j: int|
            0 <= i < j < s.issued.len() ==> #[trigger] s.issued[i] < #[trigger] s.issued[j],
{
}

/// An allocator stays synced while others move the counter: a further grant
/// (another allocator's refill, or an external `fetch_add`) only appends to
/// the grant history and raises the value.
pub proof fn lemma_synced_after_grant(s: SequencerModel, c0: CounterModel, c1: CounterModel)
    requires
        synced(s, c0),
        c1.wf(),
        c0.value <= c1.value,
        c0.grants.len() <= c1.grants.len(),
        forall|k: int| 0 <= k < c0.grants.len() ==> #[trigger] c1.grants[k] == c0.grants[k],
    ensures
        synced(s, c1),
{
    assert forall|k: int| 0 <= k < s.claims.len() implies claim_granted(
        #[trigger] s.claims[k],
        c1.grants,
    ) by {
        assert(claim_granted(s.claims[k], c0.grants));
        assert(c1.grants[s.claims[k].idx] == c0.grants[s.claims[k].idx]);
    }
}

/// A freshly created allocator is synced with any well-formed counter.
pub proof fn lemma_new_synced(s: SequencerModel, c: CounterModel)
    requires
        s.wf(),
        c.wf(),
        s.claims.len() == 0,
    ensures
        synced(s, c),
{
}

/// A per-consumer allocator of sequence numbers.  It claims `[local, target)`
/// from a shared [`GlobalCounter`] in batches of `step` and hands the numbers
/// out one by one, refilling on exhaustion or when more than `lag` behind.
pub struct Sequencer {
    local: u64,
    target: u64,
    step: u64,
    lag: u64,
    issued: Ghost<Seq<u64>>,
    claims: Ghost<Seq<Claim>>,
}

impl View for Sequencer {
    type V = SequencerModel;

    closed spec fn view(&self) -> SequencerModel {
        SequencerModel {
            local: self.local,
            target: self.target,
            step: self.step,
            lag: self.lag,
            issued: self.issued@,
            claims: self.claims@,
        }
    }
}

impl Sequencer {
    /// A new allocator with nothing claimed; its first call to `inc` refills.
    /// Both parameters must be positive: a zero `step` would collapse the
    /// batching guarantee and a zero `lag` the staleness policy.
    pub fn new(step: Sequence, lag: Sequence) -> (s: Self)
        requires
            1 <= step,
            1 <= lag,
        ensures
            s@.local == 0,
            s@.target == 0,
            s@.step == step,
            s@.lag == lag,
            s@.issued =~= Seq::<u64>::empty(),
            s@.claims =~= Seq::<Claim>::empty(),
            s@.wf(),
    {
        Sequencer {
            local: 0,
            target: 0,
            step,
            lag,
            issued: Ghost(Seq::empty()),
            claims: Ghost(Seq::empty()),
        }
    }

    /// The counter's current value, the allocator's staleness signal.
    pub fn global(&self, counter: &GlobalCounter) -> (r: Sequence)
        ensures
            r == counter@.value,
    {
        counter.read()
    }

    /// The next value this allocator will hand out.
    pub fn local(&self) -> (r: Sequence)
        ensures
            r == self@.local,
    {
        self.local
    }

    /// The next sequence number: unique among all values ever issued through
    /// this counter and greater than everything this allocator issued before.
    /// Serves from the current batch; refills first when the batch is
    /// exhausted or the allocator is more than `lag` behind the counter, in
    /// which case exactly one new grant is taken from the counter.
    pub fn inc(&mut self, counter: &mut GlobalCounter) -> (r: Sequence)
        requires
            synced(old(self)@, old(counter)@),
            old(counter)@.value + old(self)@.step <= u64::MAX,
            old(self)@.local + old(self)@.lag <= u64::MAX,
        ensures
            synced(final(self)@, final(counter)@),
            final(self)@.step == old(self)@.step,
            final(self)@.lag == old(self)@.lag,
            final(self)@.issued == old(self)@.issued.push(r),
            final(self)@.local == r + 1,
            forall|k: int| 0 <= k < old(self)@.issued.len() ==> #[trigger] old(self)@.issued[k] < r,
            needs_refill(old(self)@, old(counter)@.value) ==> {
                &&& r == old(counter)@.value
                &&& final(counter)@.value == r + old(self)@.step
                &&& final(counter)@.grants == old(counter)@.grants.push(
                    (Grant { start: r, len: old(self)@.step }),
                )
                &&& final(self)@.target == r + old(self)@.step
                &&& final(self)@.claims == old(self)@.claims.push(
                    (Claim {
                        idx: old(counter)@.grants.len() as int,
                        start: r,
                        len: old(self)@.step,
                    }),
                )
            },
            !needs_refill(old(self)@, old(counter)@.value) ==> {
                &&& r == old(self)@.local
                &&& final(counter)@ == old(counter)@
                &&& final(self)@.target == old(self)@.target
                &&& final(self)@.claims == old(self)@.claims
            },
    {
        self.try_alloc(counter);
        let res = self.local;
        self.local = self.local + 1;
        self.issued = Ghost(self.issued@.push(res));
        proof {
            let m = self@;
            let om = old(self)@;
            assert forall|k: int| 0 <= k < m.issued.len() implies in_some_claim(
                #[trigger] m.issued[k],
                m.claims,
            ) by {
                if k < om.issued.len() {
                    assert(in_some_claim(om.issued[k], m.claims));
                } else {
                    assert(m.claims.len() > 0);
                    assert(in_claim(res, m.claims.last()));
                }
            }
        }
        res
    }

    /// Refills the batch when the policy asks for it, else does nothing.
    fn try_alloc(&mut self, counter: &mut GlobalCounter)
        requires
            synced(old(self)@, old(counter)@),
            old(counter)@.value + old(self)@.step <= u64::MAX,
            old(self)@.local + old(self)@.lag <= u64::MAX,
        ensures
            synced(final(self)@, final(counter)@),
            final(self)@.step == old(self)@.step,
            final(self)@.lag == old(self)@.lag,
            final(self)@.issued == old(self)@.issued,
            old(self)@.local <= final(self)@.local,
            final(self)@.local < final(self)@.target,
            needs_refill(old(self)@, old(counter)@.value) ==> {
                &&& final(self)@.local == old(counter)@.value
                &&& final(counter)@.value == old(counter)@.value + old(self)@.step
                &&& final(counter)@.grants == old(counter)@.grants.push(
                    (Grant { start: old(counter)@.value, len: old(self)@.step }),
                )
                &&& final(self)@.target == old(counter)@.value + old(self)@.step
                &&& final(self)@.claims == old(self)@.claims.push(
                    (Claim {
                        idx: old(counter)@.grants.len() as int,
                        start: old(counter)@.value,
                        len: old(self)@.step,
                    }),
                )
            },
            !needs_refill(old(self)@, old(counter)@.value) ==> {
                &&& final(self)@ == old(self)@
                &&& final(counter)@ == old(counter)@
            },
    {
        if self.local == self.target || self.local + self.lag < counter.read() {
            self.refill(counter)
        }
    }

    /// Claims a fresh batch: one `fetch_add(step)` on the counter, after
    /// which the batch is `[r, r + step)` for the value `r` returned.
    fn refill(&mut self, counter: &mut GlobalCounter)
        requires
            synced(old(self)@, old(counter)@),
            old(counter)@.value + old(self)@.step <= u64::MAX,
        ensures
            synced(final(self)@, final(counter)@),
            final(self)@.step == old(self)@.step,
            final(self)@.lag == old(self)@.lag,
            final(self)@.issued == old(self)@.issued,
            final(self)@.local == old(counter)@.value,
            final(self)@.target == old(counter)@.value + old(self)@.step,
            old(self)@.local <= final(self)@.local,
            final(self)@.local < final(self)@.target,
            final(counter)@.value == old(counter)@.value + old(self)@.step,
            final(counter)@.grants == old(counter)@.grants.push(
                (Grant { start: old(counter)@.value, len: old(self)@.step }),
            ),
            final(self)@.claims == old(self)@.claims.push(
                (Claim {
                    idx: old(counter)@.grants.len() as int,
                    start: old(counter)@.value,
                    len: old(self)@.step,
                }),
            ),
    {
        let ghost gidx = counter@.grants.len() as int;
        let r = counter.fetch_add(self.step);
        self.claims = Ghost(self.claims@.push(Claim { idx: gidx, start: r, len: self.step }));
        self.local = r;
        self.target = r + self.step;
        proof {
            let m = self@;
            let om = old(self)@;
            let oc = old(counter)@;
            let nc = counter@;
            assert forall|k: int| 0 <= k < m.claims.len() implies claim_granted(
                #[trigger] m.claims[k],
                nc.grants,
            ) by {
                if k < om.claims.len() {
                    assert(claim_granted(om.claims[k], oc.grants));
                    assert(nc.grants[om.claims[k].idx] == oc.grants[om.claims[k].idx]);
                } else {
                    assert(nc.grants[gidx] == (Grant { start: m.local, len: m.step }));
                }
            }
            assert forall|k: int| 0 <= k < m.issued.len() implies in_some_claim(
                #[trigger] m.issued[k],
                m.claims,
            ) by {
                assert(in_some_claim(om.issued[k], om.claims));
                let j = choose|j: int| 0 <= j < om.claims.len() && in_claim(om.issued[k], om.claims[j]);
                assert(in_claim(m.issued[k], m.claims[j]));
            }
            assert forall|i: int, j: int| 0 <= i < j < m.issued.len() implies #[trigger] m.issued[i]
                < #[trigger] m.issued[j] by {
                assert(om.issued[i] < om.issued[j]);
            }
            assert forall|k: int| 0 <= k < m.issued.len() implies #[trigger] m.issued[k]
                < m.local by {
                assert(om.issued[k] < om.local);
            }
        }
    }
}

} // verus!
