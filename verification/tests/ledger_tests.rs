use dvel_core::event::{hash_eq, Event, ZERO_HASH};
use dvel_core::ledger::{Ledger, LinkError};
use dvel_core::merkle::{hash_le, hash_pair, merkle_root, sort_hashes};
use dvel_core::validation::{
    compute_signature_with_secret, derive_pubkey_from_secret, validate_event,
    validate_with_verdict, ValidationContext, ValidationError,
};
use dvel_core::PROTOCOL_VERSION;

fn make_payload(tag: u8) -> [u8; 32] {
    let mut h = [0u8; 32];
    for (i, b) in h.iter_mut().enumerate() {
        *b = tag.wrapping_add(i as u8);
    }
    h
}

fn make_secret(tag: u8) -> [u8; 32] {
    make_payload(tag)
}

fn signed_event(secret: &[u8; 32], prev: [u8; 32], timestamp: u64, payload: [u8; 32]) -> Event {
    let author = derive_pubkey_from_secret(secret);
    let mut ev = Event::new(prev, author, timestamp, payload, [0u8; 64]);
    ev.signature = compute_signature_with_secret(&ev, secret);
    ev
}

fn genesis_scenario_event() -> Event {
    let mut payload = [0u8; 32];
    payload[0] = 0xAB;
    signed_event(&[7u8; 32], ZERO_HASH, 10, payload)
}

#[test]
fn ffi_validate_link_and_fetch() {
    let secret = make_secret(7);
    let author = derive_pubkey_from_secret(&secret);

    let mut ev = Event {
        version: PROTOCOL_VERSION,
        prev_hash: ZERO_HASH,
        author,
        timestamp: 10,
        payload_hash: make_payload(0xAB),
        signature: [0u8; 64],
    };
    ev.signature = compute_signature_with_secret(&ev, &secret);

    let mut ctx = ValidationContext::new();
    let vr = validate_event(&ev, &mut ctx);
    assert!(matches!(vr, Ok(())));

    let mut ledger = Ledger::new();
    let lr = ledger.try_add_event(ev);
    assert!(matches!(lr, Ok(_)));
    let out_hash = lr.unwrap();

    let fetched = ledger.get_event(&out_hash);
    assert!(fetched.is_some());
    let fetched = fetched.unwrap();
    assert_eq!(fetched.timestamp, ev.timestamp);
    assert_eq!(fetched.author, ev.author);

    let tips = ledger.tips();
    assert_eq!(tips.len(), 1);
    assert_eq!(tips[0], out_hash);

    let merkle = ledger.merkle_root();
    assert!(merkle.is_some());
    assert_eq!(merkle.unwrap(), out_hash);

    let lr_dup = ledger.try_add_event(ev);
    assert!(matches!(lr_dup, Err(LinkError::Duplicate)));
}

#[test]
fn ffi_link_rejects_missing_parent() {
    let secret = make_secret(9);
    let author = derive_pubkey_from_secret(&secret);

    let mut ev = Event {
        version: PROTOCOL_VERSION,
        prev_hash: make_payload(0x01),
        author,
        timestamp: 1,
        payload_hash: make_payload(0xCD),
        signature: [0u8; 64],
    };
    ev.signature = compute_signature_with_secret(&ev, &secret);

    let mut ledger = Ledger::new();
    let mut ctx = ValidationContext::new();
    let vr = validate_event(&ev, &mut ctx);
    assert!(matches!(vr, Ok(())));

    let lr = ledger.try_add_event(ev);
    assert!(matches!(lr, Err(LinkError::MissingParent)));
}

#[test]
fn canonical_bytes_layout() {
    let mut prev = [0u8; 32];
    prev[0] = 1;
    let mut author = [0u8; 32];
    author[31] = 2;
    let mut payload = [0u8; 32];
    payload[5] = 3;
    let ev = Event::from_raw(9, prev, author, 0x0102030405060708, payload, [4u8; 64]);
    let bytes = ev.canonical_bytes();
    assert_eq!(bytes.len(), 105);
    assert_eq!(bytes[0], 9);
    assert_eq!(&bytes[1..33], &prev[..]);
    assert_eq!(&bytes[33..65], &author[..]);
    assert_eq!(&bytes[65..73], &[8u8, 7, 6, 5, 4, 3, 2, 1][..]);
    assert_eq!(&bytes[73..105], &payload[..]);
    let material = ev.hash_material();
    assert_eq!(material.len(), 169);
    assert_eq!(&material[..105], &bytes[..]);
    assert_eq!(&material[105..], &[4u8; 64][..]);
}

#[test]
fn canonical_bytes_read_back() {
    let ev = genesis_scenario_event();
    let bytes = ev.canonical_bytes();
    assert_eq!(bytes[0], ev.version);
    assert_eq!(&bytes[1..33], &ev.prev_hash[..]);
    assert_eq!(&bytes[33..65], &ev.author[..]);
    let mut ts = [0u8; 8];
    ts.copy_from_slice(&bytes[65..73]);
    assert_eq!(u64::from_le_bytes(ts), ev.timestamp);
    assert_eq!(&bytes[73..105], &ev.payload_hash[..]);
}

#[test]
fn event_new_uses_protocol_version() {
    let ev = Event::new([1u8; 32], [2u8; 32], 3, [4u8; 32], [5u8; 64]);
    assert_eq!(ev.version, 1);
    assert_eq!(ev.prev_hash, [1u8; 32]);
    assert_eq!(ev.author, [2u8; 32]);
    assert_eq!(ev.timestamp, 3);
    assert_eq!(ev.payload_hash, [4u8; 32]);
    assert_eq!(ev.signature, [5u8; 64]);
}

#[test]
fn hash_eq_tells_hashes_apart() {
    let a = [3u8; 32];
    let mut b = [3u8; 32];
    assert!(hash_eq(&a, &b));
    b[31] = 4;
    assert!(!hash_eq(&a, &b));
}

#[test]
fn public_key_and_signature_known_values() {
    let secret = [7u8; 32];
    let author = derive_pubkey_from_secret(&secret);
    assert_eq!(
        hex::encode(author),
        "ea4a6c63e29c520abef5507b132ec5f9954776aebebe7b92421eea691446d22c"
    );
    let ev = genesis_scenario_event();
    assert_eq!(
        hex::encode(ev.signature),
        "e57f01c25f7fe362b791fd54224875b51e3cbe9d328671a5d2b721ea0d13d5ad0242d2fdd73f7d0ebb155dd8e99aa9215c56ca8e32c6a956d3134adf6b711006"
    );
    assert_eq!(
        hex::encode(Ledger::hash_event(&ev)),
        "69df63821ea894452ced3b0b578546d0b6cb827ac9566997483097d8bc310c95"
    );
}

#[test]
fn scenario_genesis_link() {
    let ev = genesis_scenario_event();
    let mut ctx = ValidationContext::new();
    assert_eq!(validate_event(&ev, &mut ctx), Ok(()));
    assert_eq!(ctx.last_timestamp, 10);
    let mut ledger = Ledger::new();
    let h = ledger.try_add_event(ev).unwrap();
    assert_eq!(h, Ledger::hash_event(&ev));
    assert_eq!(ledger.tips(), vec![h]);
    assert_eq!(ledger.merkle_root(), Some(h));
    assert_eq!(ledger.len(), 1);
}

#[test]
fn scenario_duplicate_rejection() {
    let ev = genesis_scenario_event();
    let mut ledger = Ledger::new();
    let h = ledger.try_add_event(ev).unwrap();
    assert_eq!(ledger.try_add_event(ev), Err(LinkError::Duplicate));
    assert_eq!(ledger.len(), 1);
    assert_eq!(ledger.tips(), vec![h]);
    assert_eq!(ledger.merkle_root(), Some(h));
}

#[test]
fn scenario_missing_parent() {
    let mut prev = [0u8; 32];
    for (i, b) in prev.iter_mut().enumerate() {
        *b = (i as u8) + 1;
    }
    let ev = signed_event(&[7u8; 32], prev, 1, [0u8; 32]);
    let mut ledger = Ledger::new();
    assert_eq!(ledger.try_add_event(ev), Err(LinkError::MissingParent));
    assert_eq!(ledger.len(), 0);
    assert!(ledger.tips().is_empty());
    assert_eq!(ledger.merkle_root(), None);
}

#[test]
fn scenario_monotonic_timestamp_rejection() {
    let secret = [7u8; 32];
    let first = signed_event(&secret, ZERO_HASH, 100, [1u8; 32]);
    let second = signed_event(&secret, ZERO_HASH, 100, [2u8; 32]);
    let mut ctx = ValidationContext::new();
    assert_eq!(validate_event(&first, &mut ctx), Ok(()));
    assert_eq!(
        validate_event(&second, &mut ctx),
        Err(ValidationError::NonMonotonicTimestamp)
    );
    assert_eq!(ctx.last_timestamp, 100);
}

#[test]
fn accepted_timestamps_strictly_increase() {
    let secret = [7u8; 32];
    let mut ctx = ValidationContext::new();
    let mut last = 0u64;
    for ts in [5u64, 6, 9, 9, 3, 20] {
        let ev = signed_event(&secret, ZERO_HASH, ts, [1u8; 32]);
        if validate_event(&ev, &mut ctx).is_ok() {
            assert!(ts > last);
            last = ts;
        }
        assert_eq!(ctx.last_timestamp, last);
    }
    assert_eq!(last, 20);
}

#[test]
fn bad_signature_leaves_context() {
    let secret = [7u8; 32];
    let mut ev = signed_event(&secret, ZERO_HASH, 50, [1u8; 32]);
    ev.timestamp = 51;
    let mut ctx = ValidationContext::new();
    assert_eq!(validate_event(&ev, &mut ctx), Err(ValidationError::BadSignature));
    assert_eq!(ctx.last_timestamp, 0);
}

#[test]
fn unknown_version_is_rejected_first() {
    let secret = [7u8; 32];
    let author = derive_pubkey_from_secret(&secret);
    let ev = Event::from_raw(2, ZERO_HASH, author, 5, [0u8; 32], [0u8; 64]);
    let mut ctx = ValidationContext::new();
    assert_eq!(validate_event(&ev, &mut ctx), Err(ValidationError::UnknownVersion));
    assert_eq!(ctx.last_timestamp, 0);
}

#[test]
fn verdict_from_a_given_check() {
    let ev = Event::new(ZERO_HASH, [1u8; 32], 7, [0u8; 32], [0u8; 64]);
    let mut ctx = ValidationContext { last_timestamp: 6 };
    assert_eq!(
        validate_with_verdict(&ev, &mut ctx, false),
        Err(ValidationError::BadSignature)
    );
    assert_eq!(ctx.last_timestamp, 6);
    assert_eq!(validate_with_verdict(&ev, &mut ctx, true), Ok(()));
    assert_eq!(ctx.last_timestamp, 7);
    assert_eq!(
        validate_with_verdict(&ev, &mut ctx, true),
        Err(ValidationError::NonMonotonicTimestamp)
    );
}

#[test]
fn tips_follow_the_links() {
    let secret = [7u8; 32];
    let mut ledger = Ledger::new();
    let a = signed_event(&secret, ZERO_HASH, 1, [1u8; 32]);
    let ha = ledger.try_add_event(a).unwrap();
    let b = signed_event(&secret, ha, 2, [2u8; 32]);
    let hb = ledger.try_add_event(b).unwrap();
    let c = signed_event(&secret, ha, 3, [3u8; 32]);
    let hc = ledger.try_add_event(c).unwrap();
    let d = signed_event(&secret, ZERO_HASH, 4, [4u8; 32]);
    let hd = ledger.try_add_event(d).unwrap();
    let mut tips = ledger.tips();
    tips.sort();
    let mut expected = vec![hb, hc, hd];
    expected.sort();
    assert_eq!(tips, expected);
    assert_eq!(ledger.get_event(&hb).unwrap().prev_hash, ha);
    assert!(ledger.get_event(&[9u8; 32]).is_none());
}

#[test]
fn merkle_root_ignores_insertion_order() {
    let secret = [7u8; 32];
    let a = signed_event(&secret, ZERO_HASH, 1, [1u8; 32]);
    let b = signed_event(&secret, ZERO_HASH, 2, [2u8; 32]);
    let c = signed_event(&secret, ZERO_HASH, 3, [3u8; 32]);
    let mut one = Ledger::new();
    for ev in [a, b, c] {
        one.try_add_event(ev).unwrap();
    }
    let mut two = Ledger::new();
    for ev in [c, a, b] {
        two.try_add_event(ev).unwrap();
    }
    assert!(one.merkle_root().is_some());
    assert_eq!(one.merkle_root(), two.merkle_root());
}

#[test]
fn merkle_root_of_three_leaves() {
    let l0 = [3u8; 32];
    let l1 = [1u8; 32];
    let l2 = [2u8; 32];
    let root = merkle_root(&vec![l0, l1, l2]).unwrap();
    let left = hash_pair(&l1, &l2);
    let right = hash_pair(&l0, &l0);
    assert_eq!(root, hash_pair(&left, &right));
    assert_eq!(merkle_root(&vec![l2, l0, l1]), Some(root));
    assert_eq!(merkle_root(&vec![l1]), Some(l1));
    assert_eq!(merkle_root(&Vec::new()), None);
}

#[test]
fn hash_pair_known_value() {
    let a = [0u8; 32];
    let out = hash_pair(&a, &a);
    assert_eq!(
        hex::encode(out),
        "f5a5fd42d16a20302798ef6ed309979b43003d2320d9f0e8ea9831a92759fb4b"
    );
}

#[test]
fn hashes_sort_lexicographically() {
    let mut a = [0u8; 32];
    let mut b = [0u8; 32];
    a[0] = 1;
    b[31] = 255;
    assert!(hash_le(&b, &a));
    assert!(!hash_le(&a, &b));
    assert!(hash_le(&a, &a));
    let mut c = a;
    c[31] = 1;
    assert!(hash_le(&a, &c));
    assert!(!hash_le(&c, &a));
    let input = vec![c, a, b, a, [255u8; 32], [0u8; 32]];
    let mut expected = input.clone();
    expected.sort();
    assert_eq!(sort_hashes(&input), expected);
    assert_eq!(sort_hashes(&Vec::new()), Vec::<[u8; 32]>::new());
}

#[test]
fn identity_tells_signatures_apart() {
    let ev = genesis_scenario_event();
    let mut other = ev;
    other.signature[63] ^= 0x80;
    assert_eq!(ev.canonical_bytes(), other.canonical_bytes());
    assert_ne!(ev.hash_material(), other.hash_material());
    assert_ne!(Ledger::hash_event(&ev), Ledger::hash_event(&other));
    let same = ev;
    assert_eq!(Ledger::hash_event(&ev), Ledger::hash_event(&same));
    let mut later = ev;
    later.timestamp += 1;
    assert_ne!(Ledger::hash_event(&ev), Ledger::hash_event(&later));
}

#[test]
fn every_parent_is_genesis_or_stored() {
    let secret = [7u8; 32];
    let mut ledger = Ledger::new();
    let mut stored: Vec<[u8; 32]> = Vec::new();
    let mut prev = ZERO_HASH;
    for ts in 1..6u64 {
        let ev = signed_event(&secret, prev, ts, [ts as u8; 32]);
        let h = ledger.try_add_event(ev).unwrap();
        stored.push(h);
        if ts % 2 == 0 {
            prev = h;
        }
        let orphan = signed_event(&secret, [0xEE; 32], ts, [0u8; 32]);
        assert_eq!(ledger.try_add_event(orphan), Err(LinkError::MissingParent));
    }
    let mut parents: Vec<[u8; 32]> = Vec::new();
    for h in &stored {
        let ev = ledger.get_event(h).unwrap();
        assert!(ev.prev_hash == ZERO_HASH || stored.contains(&ev.prev_hash));
        if ev.prev_hash != ZERO_HASH {
            parents.push(ev.prev_hash);
        }
    }
    let mut tips = ledger.tips();
    tips.sort();
    let mut expected: Vec<[u8; 32]> =
        stored.iter().filter(|h| !parents.contains(h)).cloned().collect();
    expected.sort();
    assert_eq!(tips, expected);
}
