use dvel_core::event::{Event, ZERO_HASH};
use dvel_core::ledger::Ledger;
use dvel_core::scoring::{
    weight_at, EquivocationPolicy, Fingerprint, SybilConfig, SybilOverlay,
};

fn config() -> SybilConfig {
    SybilConfig {
        warmup_ticks: 10,
        quarantine_ticks: 100,
        policy: EquivocationPolicy::Quarantine,
        fixed_point_scale: 1000,
        max_link_walk: 2,
    }
}

fn event_of(author: u8, prev: [u8; 32], timestamp: u64) -> Event {
    Event::new(prev, [author; 32], timestamp, [0u8; 32], [0u8; 64])
}

#[test]
fn weight_rule_values() {
    let cfg = config();
    assert_eq!(weight_at(&cfg, 0, 0, 0), 0);
    assert_eq!(weight_at(&cfg, 9, 0, 0), 0);
    assert_eq!(weight_at(&cfg, 10, 0, 0), 1000);
    assert_eq!(weight_at(&cfg, 50, 0, 51), 0);
    assert_eq!(weight_at(&cfg, 51, 0, 51), 1000);
    assert_eq!(weight_at(&cfg, 5, 7, 0), 0);
    assert_eq!(weight_at(&cfg, u64::MAX, u64::MAX, 0), 0);
    let mut wide = config();
    wide.warmup_ticks = u64::MAX;
    assert_eq!(weight_at(&wide, u64::MAX, 1, 0), 0);
    assert_eq!(weight_at(&wide, u64::MAX, 0, 0), 1000);
}

#[test]
fn warmup_then_full_weight() {
    let ledger = Ledger::new();
    let mut overlay = SybilOverlay::new(config());
    let author = [1u8; 32];
    assert_eq!(overlay.weight_of(&author), 0);
    overlay.observe_event(&ledger, 5, 0, &event_of(1, ZERO_HASH, 5), [10u8; 32]);
    assert_eq!(overlay.weight_of(&author), 0);
    assert_eq!(overlay.quarantined_until(&author), 0);
    overlay.observe_event(&ledger, 14, 0, &event_of(1, [10u8; 32], 14), [11u8; 32]);
    assert_eq!(overlay.weight_of(&author), 0);
    overlay.observe_event(&ledger, 15, 0, &event_of(1, [11u8; 32], 15), [12u8; 32]);
    assert_eq!(overlay.weight_of(&author), 1000);
    assert_eq!(overlay.entries.len(), 1);
    assert_eq!(overlay.entries[0].first_seen, 5);
    assert_eq!(overlay.seen.len(), 3);
}

#[test]
fn equivocation_opens_quarantine() {
    let ledger = Ledger::new();
    let mut overlay = SybilOverlay::new(config());
    let author = [1u8; 32];
    let other = [2u8; 32];
    overlay.observe_event(&ledger, 0, 0, &event_of(1, ZERO_HASH, 0), [10u8; 32]);
    overlay.observe_event(&ledger, 0, 0, &event_of(2, ZERO_HASH, 0), [20u8; 32]);
    overlay.observe_event(&ledger, 50, 1, &event_of(1, ZERO_HASH, 50), [10u8; 32]);
    assert_eq!(overlay.weight_of(&author), 1000);
    assert_eq!(overlay.seen.len(), 2);
    overlay.observe_event(&ledger, 60, 1, &event_of(1, ZERO_HASH, 60), [11u8; 32]);
    assert_eq!(overlay.quarantined_until(&author), 160);
    assert_eq!(overlay.weight_of(&author), 0);
    assert_eq!(overlay.quarantined_until(&other), 0);
    overlay.observe_event(&ledger, 70, 1, &event_of(2, ZERO_HASH, 70), [20u8; 32]);
    assert_eq!(overlay.weight_of(&other), 1000);
    overlay.observe_event(&ledger, 159, 1, &event_of(1, [11u8; 32], 159), [12u8; 32]);
    assert_eq!(overlay.weight_of(&author), 0);
    assert_eq!(overlay.quarantined_until(&author), 160);
    overlay.observe_event(&ledger, 160, 1, &event_of(1, [12u8; 32], 160), [13u8; 32]);
    assert_eq!(overlay.weight_of(&author), 1000);
    let fp = Fingerprint { author, prev_hash: ZERO_HASH, event_hash: [10u8; 32] };
    assert_eq!(overlay.look_up(&fp), (true, true));
    let fresh = Fingerprint { author, prev_hash: [13u8; 32], event_hash: [14u8; 32] };
    assert_eq!(overlay.look_up(&fresh), (false, false));
}

#[test]
fn quarantine_never_moves_back() {
    let ledger = Ledger::new();
    let mut overlay = SybilOverlay::new(config());
    let author = [1u8; 32];
    let mut last = 0u64;
    let steps: [(u64, u8); 6] = [(200, 1), (210, 2), (5, 3), (u64::MAX, 4), (7, 5), (300, 5)];
    for (tick, id) in steps {
        overlay.observe_event(&ledger, tick, 0, &event_of(1, ZERO_HASH, tick), [id; 32]);
        let until = overlay.quarantined_until(&author);
        assert!(until >= last);
        assert!(overlay.weight_of(&author) <= 1000);
        last = until;
    }
    assert_eq!(last, u64::MAX);
}

#[test]
fn ancestor_walk_is_bounded() {
    let mut ledger = Ledger::new();
    let overlay = SybilOverlay::new(config());
    let a = event_of(1, ZERO_HASH, 1);
    let ha = ledger.try_add_event(a).unwrap();
    let b = event_of(1, ha, 2);
    let hb = ledger.try_add_event(b).unwrap();
    let c = event_of(1, hb, 3);
    let hc = ledger.try_add_event(c).unwrap();
    let d = event_of(1, hc, 4);
    assert!(overlay.ancestor_check(&ledger, &a));
    assert!(overlay.ancestor_check(&ledger, &b));
    assert!(overlay.ancestor_check(&ledger, &c));
    assert!(!overlay.ancestor_check(&ledger, &d));
    assert!(!overlay.ancestor_check(&ledger, &event_of(1, [9u8; 32], 5)));
}
