use aether::reputation::{is_recent, passes_filters, HardwareTier};

#[test]
fn tiers_are_ordered() {
    assert!(HardwareTier::Premium.at_least(&HardwareTier::Standard));
    assert!(HardwareTier::Dedicated.at_least(&HardwareTier::Dedicated));
    assert!(!HardwareTier::Standard.at_least(&HardwareTier::Premium));
}

#[test]
fn provider_filters() {
    assert!(is_recent(10, 12, 10));
    assert!(!is_recent(1, 12, 10));
    assert!(passes_filters(HardwareTier::Premium, true, 10, HardwareTier::Standard, 12, 10));
    assert!(!passes_filters(HardwareTier::Standard, true, 10, HardwareTier::Premium, 12, 10));
    assert!(!passes_filters(HardwareTier::Premium, false, 10, HardwareTier::Standard, 12, 10));
}
