use vstd::prelude::*;

verus! {

/// A half-open range `[start, start + len)` of sequence numbers handed out by
/// the global counter in a single `fetch_add` call.
pub struct Grant {
    pub start: u64,
    pub len: u64,
}

/// Mathematical model of a [`GlobalCounter`]: its current value together with
/// every range it has ever granted, in the order the grants were made.
#[verifier::ext_equal]
pub struct CounterModel {
    pub value: u64,
    pub grants: Seq<Grant>,
}

/// The first number past the end of a grant's range.
pub open spec fn grant_end(g: Grant) -> int {
    g.start + g.len
}

/// Two grants cover disjoint ranges of numbers.
pub open spec fn grants_disjoint(a: Grant, b: Grant) -> bool {
    grant_end(a) <= b.start || grant_end(b) <= a.start
}

impl CounterModel {
    /// Every granted range lies below the current value, and grants are
    /// ordered: each one ends no later than any later one begins.
    pub open spec fn wf(self) -> bool {
        &&& forall|i: int|
            0 <= i < self.grants.len() ==> grant_end(#[trigger] self.grants[i]) <= self.value
        &&& forall|i: int, j: int|
            0 <= i < j < self.grants.len()
                ==> grant_end(#[trigger] self.grants[i]) <= (#[trigger] self.grants[j]).start
    }
}

/// Global range-partition: the ranges ever granted by a well-formed counter
/// are pairwise disjoint, so no number belongs to two grants.
pub proof fn lemma_grants_pairwise_disjoint(c: CounterModel)
    requires
        c.wf(),
    ensures
        forall|i: int, j: int|
            0 <= i < c.grants.len() && 0 <= j < c.grants.len() && i != j
                ==> grants_disjoint(#[trigger] c.grants[i], #[trigger] c.grants[j]),
{
}

/// A shared source of unique sequence numbers, advanced only by fetch-and-add.
///
/// The ghost grant history records every range the counter has handed out;
/// it is what the disjointness guarantees are stated over.
pub struct GlobalCounter {
    value: u64,
    grants: Ghost<Seq<Grant>>,
}

impl View for GlobalCounter {
    type V = CounterModel;

    closed spec fn view(&self) -> CounterModel {
        CounterModel { value: self.value, grants: self.grants@ }
    }
}

impl GlobalCounter {
    /// A fresh counter at zero that has granted nothing.
    pub fn new() -> (c: Self)
        ensures
            c@.value == 0,
            c@.grants =~= Seq::<Grant>::empty(),
            c@.wf(),
    {
        GlobalCounter { value: 0, grants: Ghost(Seq::empty()) }
    }

    /// The current value.  Allocators use it only as a staleness signal.
    pub fn read(&self) -> (r: u64)
        ensures
            r == self@.value,
    {
        self.value
    }

    /// Returns the current value and advances the counter by `n`, granting
    /// the caller the range `[r, r + n)`, which no earlier grant overlaps.
    pub fn fetch_add(&mut self, n: u64) -> (r: u64)
        requires
            old(self)@.wf(),
            old(self)@.value + n <= u64::MAX,
        ensures
            r == old(self)@.value,
            final(self)@.value == r + n,
            final(self)@.grants == old(self)@.grants.push((Grant { start: r, len: n })),
            final(self)@.wf(),
    {
        let r = self.value;
        self.value = self.value + n;
        self.grants = Ghost(self.grants@.push(Grant { start: r, len: n }));
        r
    }
}

} // verus!
