use chemengine::ai::{count_tier, ContactTier};

#[test]
fn knowledge_base_add_and_count() {
    let tiers = vec![ContactTier::FirstHand, ContactTier::FirstHand, ContactTier::Hearsay];
    assert_eq!(tiers.len(), 3);
    assert_eq!(count_tier(&tiers, ContactTier::FirstHand), 2);
}

#[test]
fn count_tier_counts_each_tier() {
    let tiers = vec![ContactTier::Derived, ContactTier::Hearsay, ContactTier::Derived, ContactTier::FirstHand];
    assert_eq!(count_tier(&tiers, ContactTier::Derived), 2);
    assert_eq!(count_tier(&tiers, ContactTier::Hearsay), 1);
    assert_eq!(count_tier(&Vec::new(), ContactTier::FirstHand), 0);
}
