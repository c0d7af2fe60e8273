use vstd::prelude::*;

verus! {

/// Identifier of a body in a simulation.
pub type BodyId = usize;

/// Source of body identifiers: a counter that hands out its current value and
/// then advances by one, wrapping at the end of the `u64` range.
pub struct IdCounter {
    next: u64,
}

impl View for IdCounter {
    type V = u64;

    closed spec fn view(&self) -> u64 {
        self.next
    }
}

impl IdCounter {
    /// A counter whose first identifier is zero.
    pub fn new() -> (c: Self)
        ensures
            c@ == 0,
    {
        IdCounter { next: 0 }
    }
}

/// The counter value after one identifier has been handed out.
pub open spec fn advanced(v: u64) -> u64 {
    if v == u64::MAX {
        0
    } else {
        (v + 1) as u64
    }
}

/// The counter value after `k` identifiers have been handed out, starting from `v`.
pub open spec fn advanced_by(v: u64, k: nat) -> u64
    decreases k,
{
    if k == 0 {
        v
    } else {
        advanced(advanced_by(v, (k - 1) as nat))
    }
}

/// Hands out the counter's current value as an identifier and advances the counter.
pub fn next_id(counter: &mut IdCounter) -> (id: BodyId)
    ensures
        id == old(counter)@ as usize,
        final(counter)@ == advanced(old(counter)@),
{
    let id = counter.next as usize;
    counter.next = counter.next.wrapping_add(1);
    id
}

proof fn lemma_advanced_by(v: u64, k: nat)
    requires
        v + k <= u64::MAX,
    ensures
        advanced_by(v, k) == v + k,
    decreases k,
{
    if k > 0 {
        lemma_advanced_by(v, (k - 1) as nat);
    }
}

/// Identifiers are fresh: of the identifiers that a counter hands out one after another,
/// no two are the same, as long as the counter has not run through its whole range and the
/// identifiers fit in a `usize`.
pub proof fn law_ids_fresh(start: u64, i: nat, j: nat)
    requires
        i < j,
        start + j <= u64::MAX,
        start + j <= usize::MAX,
    ensures
        advanced_by(start, i) as usize != advanced_by(start, j) as usize,
{
    lemma_advanced_by(start, i);
    lemma_advanced_by(start, j);
}

} // verus!
