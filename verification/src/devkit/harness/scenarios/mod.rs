//! Pre-built test scenarios for the Stellar fee tracker harness.

use vstd::prelude::*;

verus! {

/// Cycles through a list of scenario names, returning the next one each call.
pub struct ScenarioRotator {
    scenarios: Vec<String>,
    index: usize,
}

/// Position that follows `index` in a rotation of `len` names.
pub open spec fn next_index(index: nat, len: nat) -> nat {
    if len == 0 {
        0
    } else {
        (index + 1) % len
    }
}

impl ScenarioRotator {
    #[verifier::type_invariant]
    spec fn index_in_bounds(self) -> bool {
        &&& self.scenarios@.len() == 0 ==> self.index == 0
        &&& self.scenarios@.len() > 0 ==> self.index < self.scenarios@.len()
    }

    /// The scenario names, in rotation order.
    pub closed spec fn names(self) -> Seq<Seq<char>> {
        self.scenarios@.map_values(|s: String| s@)
    }

    /// Position of the name that the next `advance` returns.
    pub closed spec fn position(self) -> nat {
        self.index as nat
    }

    /// A rotator over `scenarios` that starts with the first one.
    pub fn new(scenarios: Vec<String>) -> (r: Self)
        ensures
            r.names() == scenarios@.map_values(|s: String| s@),
            r.position() == 0,
    {
        Self { scenarios, index: 0 }
    }

    /// Returns the current scenario name and advances to the next.
    pub fn advance(&mut self) -> (r: Option<&str>)
        ensures
            final(self).names() == old(self).names(),
            old(self).names().len() == 0 ==> r is None && final(self).position() == 0,
            old(self).names().len() > 0 ==> {
                &&& old(self).position() < old(self).names().len()
                &&& r matches Some(name) && name@ == old(self).names()[old(self).position() as int]
                &&& final(self).position() == next_index(old(self).position(), old(self).names().len())
            },
    {
        proof {
            use_type_invariant(&*self);
        }
        if self.scenarios.len() == 0 {
            return None;
        }
        let current = self.scenarios[self.index].as_str();
        self.index = (self.index + 1) % self.scenarios.len();
        Some(current)
    }
}

/// Position after `k` advances from `index` in a rotation of `len` names.
pub open spec fn index_after(index: nat, len: nat, k: nat) -> nat
    decreases k,
{
    if k == 0 {
        index
    } else {
        next_index(index_after(index, len, (k - 1) as nat), len)
    }
}

/// `k` advances from position `index` land on position `(index + k) % len`: a new rotator
/// (position 0) hands out, on its `k`-th call counted from 0, the name at `k % len`, so it
/// goes through the names in order and starts over after `len` calls.
pub proof fn lemma_index_after_mod(index: nat, len: nat, k: nat)
    requires
        len > 0,
        index < len,
    ensures
        index_after(index, len, k) == ((index + k) as int) % (len as int),
    decreases k,
{
    if k == 0 {
        vstd::arithmetic::div_mod::lemma_small_mod(index, len);
    } else {
        lemma_index_after_mod(index, len, (k - 1) as nat);
        vstd::arithmetic::div_mod::lemma_add_mod_noop(index + k - 1, 1, len as int);
        if len > 1 {
            vstd::arithmetic::div_mod::lemma_small_mod(1, len);
        } else {
            vstd::arithmetic::div_mod::lemma_mod_pos_bound(1, 1);
            vstd::arithmetic::div_mod::lemma_mod_pos_bound((index + k) as int, 1);
        }
    }
}

/// The rotation has period `len`: after as many advances as there are names, the
/// rotator is back at the name it started from.
pub proof fn lemma_rotation_period(index: nat, len: nat)
    requires
        len > 0,
        index < len,
    ensures
        index_after(index, len, len) == index,
{
    lemma_index_after_mod(index, len, len);
    vstd::arithmetic::div_mod::lemma_mod_add_multiples_vanish(index as int, len as int);
    vstd::arithmetic::div_mod::lemma_small_mod(index, len);
}

} // verus!
