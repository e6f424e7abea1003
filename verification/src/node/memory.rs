//! RAM and how much of it the pool may have.
use vstd::prelude::*;

verus! {

/// The RAM of a node.
#[derive(Clone, Copy, Debug, PartialEq, Eq, Structural)]
pub struct MemoryCapabilities {
    pub physical_ram_total: u64,
    pub os_available_ram: u64,
    pub trainpool_ram_used: u64,
    pub trainpool_ram_budget: u64,
    pub trainpool_ram_available: u64,
    pub safety_reserve: u64,
    pub safe_local_ram_allocatable_now: u64,
}

impl Default for MemoryCapabilities {
    fn default() -> (r: Self)
        ensures
            r == (MemoryCapabilities {
                physical_ram_total: 0,
                os_available_ram: 0,
                trainpool_ram_used: 0,
                trainpool_ram_budget: 0,
                trainpool_ram_available: 0,
                safety_reserve: 0,
                safe_local_ram_allocatable_now: 0,
            }),
    {
        MemoryCapabilities {
            physical_ram_total: 0,
            os_available_ram: 0,
            trainpool_ram_used: 0,
            trainpool_ram_budget: 0,
            trainpool_ram_available: 0,
            safety_reserve: 0,
            safe_local_ram_allocatable_now: 0,
        }
    }
}

/// The smaller of two numbers.
pub open spec fn least(a: int, b: int) -> int {
    if a <= b {
        a
    } else {
        b
    }
}

/// The larger of two numbers.
pub open spec fn most(a: int, b: int) -> int {
    if a >= b {
        a
    } else {
        b
    }
}

/// `a` less `b`, but not below zero.
pub open spec fn beyond(a: int, b: int) -> int {
    most(a - b, 0)
}

/// The budget: what the pool has and the system has left, no more than there
/// is, less the reserve; no more than the node's share; no more than the limit.
pub open spec fn budget_of(
    total: u64,
    available: u64,
    owned: u64,
    ceiling: u64,
    limit: Option<u64>,
    reserve_bytes: u64,
    reserve_share: u64,
) -> int {
    least(
        least(
            beyond(least(available + owned, total as int), most(reserve_bytes as int, reserve_share as int)),
            ceiling as int,
        ),
        match limit {
            Some(l) => l as int,
            None => u64::MAX as int,
        },
    )
}

/// The RAM of a node, with its budget and what is left of it.
pub open spec fn memory_for(
    total: u64,
    available: u64,
    owned: u64,
    ceiling: u64,
    limit: Option<u64>,
    reserve_bytes: u64,
    reserve_share: u64,
) -> MemoryCapabilities {
    let budget = budget_of(total, available, owned, ceiling, limit, reserve_bytes, reserve_share);
    MemoryCapabilities {
        physical_ram_total: total,
        os_available_ram: available,
        trainpool_ram_used: owned,
        trainpool_ram_budget: budget as u64,
        trainpool_ram_available: beyond(budget, owned as int) as u64,
        safety_reserve: most(reserve_bytes as int, reserve_share as int) as u64,
        safe_local_ram_allocatable_now: beyond(budget, owned as int) as u64,
    }
}

impl MemoryCapabilities {
    /// What the pool may have of `total` bytes, of which `available` are free
    /// and the pool has `owned`. `ceiling` is the node's share of the total
    /// and `reserve_share` the part of it that is kept back, at least
    /// `reserve_bytes`.
    pub fn calculate(
        total: u64,
        available: u64,
        owned: u64,
        ceiling: u64,
        limit: Option<u64>,
        reserve_bytes: u64,
        reserve_share: u64,
    ) -> (r: Self)
        ensures
            r == memory_for(total, available, owned, ceiling, limit, reserve_bytes, reserve_share),
    {
        let sum: u64 = available.saturating_add(owned);
        let effective: u64 = if sum <= total {
            sum
        } else {
            total
        };
        let reserve: u64 = if reserve_bytes >= reserve_share {
            reserve_bytes
        } else {
            reserve_share
        };
        let safe: u64 = effective.saturating_sub(reserve);
        let shared: u64 = if safe <= ceiling {
            safe
        } else {
            ceiling
        };
        let budget: u64 = match limit {
            Some(l) => if shared <= l {
                shared
            } else {
                l
            },
            None => shared,
        };
        let allocatable: u64 = budget.saturating_sub(owned);
        MemoryCapabilities {
            physical_ram_total: total,
            os_available_ram: available,
            trainpool_ram_used: owned,
            trainpool_ram_budget: budget,
            trainpool_ram_available: allocatable,
            safety_reserve: reserve,
            safe_local_ram_allocatable_now: allocatable,
        }
    }

    /// By how much the pool has more than its budget.
    pub fn excess(&self) -> (r: u64)
        ensures
            r == beyond(self.trainpool_ram_used as int, self.trainpool_ram_budget as int),
    {
        self.trainpool_ram_used.saturating_sub(self.trainpool_ram_budget)
    }
}

/// What the pool takes does not shrink its budget: bytes that move from the
/// system's free RAM into the pool leave the budget as it was.
pub proof fn law_budget_does_not_shrink(
    total: u64,
    available: u64,
    owned: u64,
    taken: u64,
    ceiling: u64,
    limit: Option<u64>,
    reserve_bytes: u64,
    reserve_share: u64,
)
    requires
        taken <= available,
        owned + taken <= u64::MAX,
    ensures
        budget_of(total, available, owned, ceiling, limit, reserve_bytes, reserve_share) == budget_of(
            total,
            (available - taken) as u64,
            (owned + taken) as u64,
            ceiling,
            limit,
            reserve_bytes,
            reserve_share,
        ),
{
}

/// The budget stays within the share, within the limit, and out of the reserve.
pub proof fn law_budget_is_bounded(
    total: u64,
    available: u64,
    owned: u64,
    ceiling: u64,
    limit: Option<u64>,
    reserve_bytes: u64,
    reserve_share: u64,
)
    ensures
        0 <= budget_of(total, available, owned, ceiling, limit, reserve_bytes, reserve_share) <= ceiling,
        limit matches Some(l) ==> budget_of(total, available, owned, ceiling, limit, reserve_bytes, reserve_share)
            <= l,
        budget_of(total, available, owned, ceiling, limit, reserve_bytes, reserve_share) <= beyond(
            total as int,
            most(reserve_bytes as int, reserve_share as int),
        ),
{
}

/// A limit on what a node contributes can only reduce its budget.
pub proof fn law_limit_only_reduces(
    total: u64,
    available: u64,
    owned: u64,
    ceiling: u64,
    limit: u64,
    reserve_bytes: u64,
    reserve_share: u64,
)
    ensures
        budget_of(total, available, owned, ceiling, Some(limit), reserve_bytes, reserve_share) <= budget_of(
            total,
            available,
            owned,
            ceiling,
            None,
            reserve_bytes,
            reserve_share,
        ),
{
}

} // verus!
