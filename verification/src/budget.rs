//! Resource budgets: a pair of compute units and value units that a pull
//! declares up front and that the released promises may not exceed.

use vstd::prelude::*;

verus! {

/// What a set of promises needs, as unbounded quantities: a sum of many
/// 128-bit costs need not fit in 128 bits.
pub struct Demand {
    pub compute: nat,
    pub value: nat,
}

impl Demand {
    pub open spec fn zero() -> Demand {
        Demand { compute: 0, value: 0 }
    }

    pub open spec fn plus(self, other: Demand) -> Demand {
        Demand { compute: self.compute + other.compute, value: self.value + other.value }
    }

    /// Both quantities of `self` are at most those of `other`.
    pub open spec fn within(self, other: Demand) -> bool {
        self.compute <= other.compute && self.value <= other.value
    }
}

/// A conserved pair of compute units and value units.
#[derive(Clone, Copy, Debug, PartialEq, Eq, Structural)]
pub struct ResourceBudget {
    pub compute: u128,
    pub value: u128,
}

impl ResourceBudget {
    /// The budget as a demand of the same size.
    pub open spec fn as_demand(self) -> Demand {
        Demand { compute: self.compute as nat, value: self.value as nat }
    }

    /// The budget is sufficient for `need`: neither quantity of `need`
    /// exceeds the budget's.
    pub open spec fn affords(self, need: Demand) -> bool {
        need.within(self.as_demand())
    }

    pub fn new(compute: u128, value: u128) -> (budget: ResourceBudget)
        ensures
            budget.compute == compute,
            budget.value == value,
    {
        ResourceBudget { compute, value }
    }

    /// Whether this budget is sufficient for the requirement `need`.
    pub fn covers(&self, need: &ResourceBudget) -> (enough: bool)
        ensures
            enough == self.affords(need.as_demand()),
    {
        need.compute <= self.compute && need.value <= self.value
    }

    /// What is left of the budget once `compute` and `value` are taken from
    /// it, or `None` where it is not sufficient for them.
    pub fn spend(&self, compute: u128, value: u128) -> (left: Option<ResourceBudget>)
        ensures
            left.is_some() == (compute <= self.compute && value <= self.value),
            left.is_some() ==> left.unwrap().compute == self.compute - compute
                && left.unwrap().value == self.value - value,
    {
        if compute <= self.compute && value <= self.value {
            Some(ResourceBudget { compute: self.compute - compute, value: self.value - value })
        } else {
            None
        }
    }
}

} // verus!
