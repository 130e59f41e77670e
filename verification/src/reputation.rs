//! Provider reputation: hardware tiers of compute providers and the
//! integer rules of provider selection.
use vstd::prelude::*;

verus! {

/// Hardware tier of a compute provider, ordered from the lowest.
#[derive(Clone, Copy, Debug, PartialEq, Eq, Structural, PartialOrd, Ord, Hash)]
pub enum HardwareTier {
    Standard,
    Premium,
    Dedicated,
}

/// The rank of a tier: 0 for the lowest.
pub open spec fn tier_rank(t: HardwareTier) -> nat {
    match t {
        HardwareTier::Standard => 0,
        HardwareTier::Premium => 1,
        HardwareTier::Dedicated => 2,
    }
}

impl HardwareTier {
    /// Whether this tier is `other` or above, as the derived order has it.
    pub fn at_least(&self, other: &HardwareTier) -> (r: bool)
        ensures
            r == (tier_rank(*self) >= tier_rank(*other)),
            r == (*self == *other || *self == HardwareTier::Dedicated || *other == HardwareTier::Standard),
    {
        let a: u8 = match self {
            HardwareTier::Standard => 0,
            HardwareTier::Premium => 1,
            HardwareTier::Dedicated => 2,
        };
        let b: u8 = match other {
            HardwareTier::Standard => 0,
            HardwareTier::Premium => 1,
            HardwareTier::Dedicated => 2,
        };
        a >= b
    }
}

/// A provider last active at `last_active_slot` is recent enough at
/// `current_slot` when no more than `staleness_threshold` slots have passed.
pub fn is_recent(last_active_slot: u64, current_slot: u64, staleness_threshold: u64) -> (r: bool)
    requires
        last_active_slot <= current_slot,
    ensures
        r == (current_slot - last_active_slot <= staleness_threshold),
{
    current_slot - last_active_slot <= staleness_threshold
}

/// Whether a provider passes the integer filters of a provider query: its
/// tier is at least `tier`, it serves the model, and it is recent enough.
pub fn passes_filters(
    provider_tier: HardwareTier,
    serves_model: bool,
    last_active_slot: u64,
    tier: HardwareTier,
    current_slot: u64,
    staleness_threshold: u64,
) -> (r: bool)
    requires
        last_active_slot <= current_slot,
    ensures
        r == (tier_rank(provider_tier) >= tier_rank(tier) && serves_model && current_slot - last_active_slot
            <= staleness_threshold),
        r == ((provider_tier == tier || provider_tier == HardwareTier::Dedicated || tier == HardwareTier::Standard)
            && serves_model && current_slot - last_active_slot <= staleness_threshold),
{
    provider_tier.at_least(&tier) && serves_model && is_recent(last_active_slot, current_slot, staleness_threshold)
}

/// The tiers rank in their declaration order: Standard below Premium below
/// Dedicated, so a tier is at least another exactly when it comes no earlier.
pub proof fn lemma_tier_order()
    ensures
        tier_rank(HardwareTier::Standard) < tier_rank(HardwareTier::Premium),
        tier_rank(HardwareTier::Premium) < tier_rank(HardwareTier::Dedicated),
        forall|a: HardwareTier, b: HardwareTier|
            (#[trigger] tier_rank(a) == #[trigger] tier_rank(b)) ==> a == b,
{
}

/// A provider that passes the filters of a query still passes them with a
/// tier at least as high: raising the provider's tier never excludes it.
pub proof fn lemma_filters_monotone_in_tier(
    low: HardwareTier,
    high: HardwareTier,
    serves_model: bool,
    last_active_slot: u64,
    tier: HardwareTier,
    current_slot: u64,
    staleness_threshold: u64,
)
    requires
        last_active_slot <= current_slot,
        high == low || high == HardwareTier::Dedicated || low == HardwareTier::Standard,
        (low == tier || low == HardwareTier::Dedicated || tier == HardwareTier::Standard) && serves_model
            && current_slot - last_active_slot <= staleness_threshold,
    ensures
        tier_rank(low) >= tier_rank(tier),
        tier_rank(high) >= tier_rank(low),
        tier_rank(high) >= tier_rank(tier),
{
}

} // verus!
