use vstd::prelude::*;

verus! {

/// The repetition budget of a quantified expression.
#[derive(Clone, Copy, Debug, PartialEq, Eq, Structural)]
pub enum Quantifier {
    /// This many further cycles are allowed.
    Bounded(usize),
    /// Every requested cycle is allowed.
    Unbounded,
}

impl Quantifier {
    /// Whether the next request for a cycle is granted.
    pub open spec fn grants(self) -> bool {
        match self {
            Quantifier::Bounded(remaining) => remaining > 0,
            Quantifier::Unbounded => true,
        }
    }

    /// The budget after one request, granted or not.
    pub open spec fn after_request(self) -> Quantifier {
        match self {
            Quantifier::Bounded(remaining) => Quantifier::Bounded(
                if remaining > 0 {
                    (remaining - 1) as usize
                } else {
                    0
                },
            ),
            Quantifier::Unbounded => Quantifier::Unbounded,
        }
    }

    /// The budget after `k` requests in a row.
    pub open spec fn after_requests(self, k: nat) -> Quantifier
        decreases k,
    {
        if k == 0 {
            self
        } else {
            self.after_request().after_requests((k - 1) as nat)
        }
    }

    /// Asks for another cycle. A bounded budget grants while a unit is left
    /// and spends it; an unbounded one always grants.
    pub fn request_cycle(&mut self) -> (granted: bool)
        ensures
            granted == old(self).grants(),
            *final(self) == old(self).after_request(),
    {
        match *self {
            Quantifier::Bounded(remaining) => {
                if remaining > 0 {
                    *self = Quantifier::Bounded(remaining - 1);
                    true
                } else {
                    false
                }
            },
            Quantifier::Unbounded => true,
        }
    }
}

} // verus!
