use dvel_core::event::{Event, ZERO_HASH};
use dvel_core::ledger::{Ledger, LinkError};
use dvel_core::scoring::SybilConfig;
use dvel_core::trace_check::{
    check_trace, hex32, hex64, hex_pair, parse_row, SybilConfigSerde, TraceDoc, TraceError,
    TraceErrorKind, TraceHeader, TraceRowSerde, TraceState,
};
use dvel_core::validation::{
    compute_signature_with_secret, derive_pubkey_from_secret, find_context_in, ValidationError,
};

fn trace_event(secret: &[u8; 32], prev: [u8; 32], timestamp: u64, tag: u8) -> Event {
    let author = derive_pubkey_from_secret(secret);
    let mut ev = Event::new(prev, author, timestamp, [tag; 32], [0u8; 64]);
    ev.signature = compute_signature_with_secret(&ev, secret);
    ev
}

fn row_of(ev: &Event, index: usize) -> TraceRowSerde {
    TraceRowSerde {
        node_id: 0,
        row_index: index,
        prev_hash: hex::encode(ev.prev_hash),
        author: hex::encode(ev.author),
        timestamp: ev.timestamp,
        payload_hash: hex::encode(ev.payload_hash),
        signature: hex::encode(ev.signature),
        parent_present: ev.prev_hash != ZERO_HASH,
        ancestor_check: true,
        quarantined_until_before: 0,
        quarantined_until_after: 0,
        merkle_root: None,
        merkle_root_has: false,
        preferred_tip: None,
        preferred_tip_has: false,
        author_weight_fp: 0,
    }
}

fn doc_of(rows: Vec<TraceRowSerde>) -> TraceDoc {
    TraceDoc {
        header: TraceHeader {
            protocol_version: 1,
            max_backward_skew: 0,
            max_pending_total: 0,
            max_drain_steps: 0,
            sybil_config: SybilConfigSerde {
                warmup_ticks: 0,
                quarantine_ticks: 100,
                fixed_point_scale: 1000,
                max_link_walk: 8,
            },
            final_merkle_root: None,
            sources: Vec::new(),
        },
        rows,
    }
}

fn failure(index: usize, kind: TraceErrorKind) -> Result<(), TraceError> {
    Err(TraceError { row_index: index, kind })
}

#[test]
fn hex_fields_of_rows() {
    assert_eq!(hex_pair(b'0', b'a'), Some(10));
    assert_eq!(hex_pair(b'F', b'f'), Some(255));
    assert_eq!(hex_pair(b'+', b'f'), Some(15));
    assert_eq!(hex_pair(b'-', b'1'), None);
    assert_eq!(hex_pair(b'1', b'+'), None);
    assert_eq!(hex_pair(b'g', b'0'), None);
    let text = "000102030405060708090a0b0c0d0e0f101112131415161718191A1B1C1D1E1F";
    let parsed = hex32(text).unwrap();
    for (i, b) in parsed.iter().enumerate() {
        assert_eq!(*b as usize, i);
    }
    assert_eq!(hex32(&text[2..]), None);
    assert_eq!(hex32(&format!("{}00", text)), None);
    assert_eq!(hex32(&text.replace("1F", "1G")), None);
    assert_eq!(hex64(&format!("{}{}", text, text)).unwrap()[32], 0);
    assert_eq!(hex64(text), None);
}

#[test]
fn rows_parse_to_events() {
    let ev = trace_event(&[7u8; 32], ZERO_HASH, 10, 3);
    let row = row_of(&ev, 0);
    let parsed = parse_row(&row).unwrap();
    assert_eq!(parsed.version, 1);
    assert_eq!(parsed.prev_hash, ev.prev_hash);
    assert_eq!(parsed.author, ev.author);
    assert_eq!(parsed.timestamp, 10);
    assert_eq!(parsed.payload_hash, ev.payload_hash);
    assert_eq!(parsed.signature, ev.signature);
    let mut bad = row_of(&ev, 0);
    bad.signature = "00".to_string();
    assert!(parse_row(&bad).is_none());
}

#[test]
fn a_sound_trace_passes() {
    let secret = [7u8; 32];
    let a = trace_event(&secret, ZERO_HASH, 10, 1);
    let ha = Ledger::hash_event(&a);
    let b = trace_event(&secret, ha, 11, 2);
    let mut ledger = Ledger::new();
    ledger.try_add_event(a).unwrap();
    let root_a = ledger.merkle_root().unwrap();
    ledger.try_add_event(b).unwrap();
    let root_b = ledger.merkle_root().unwrap();
    let mut r0 = row_of(&a, 0);
    r0.merkle_root = Some(hex::encode(root_a));
    let mut r1 = row_of(&b, 1);
    r1.merkle_root = Some(hex::encode(root_b));
    r1.author_weight_fp = 1000;
    let mut doc = doc_of(vec![r0, r1]);
    doc.header.final_merkle_root = Some(hex::encode(root_b));
    assert_eq!(check_trace(doc), Ok(()));
    assert_eq!(check_trace(doc_of(Vec::new())), Ok(()));
}

#[test]
fn trace_violations_are_reported() {
    let secret = [7u8; 32];
    let a = trace_event(&secret, ZERO_HASH, 10, 1);
    let ha = Ledger::hash_event(&a);
    let b = trace_event(&secret, ha, 11, 2);

    let mut bad = row_of(&a, 0);
    bad.author = "zz".to_string();
    assert_eq!(check_trace(doc_of(vec![bad])), failure(0, TraceErrorKind::Parse));

    let orphan = trace_event(&secret, [9u8; 32], 10, 1);
    assert_eq!(
        check_trace(doc_of(vec![row_of(&orphan, 0)])),
        failure(0, TraceErrorKind::ParentUnknown)
    );
    let mut undeclared = row_of(&orphan, 0);
    undeclared.parent_present = false;
    assert_eq!(
        check_trace(doc_of(vec![undeclared])),
        failure(0, TraceErrorKind::Link(LinkError::MissingParent))
    );

    let mut denied = row_of(&b, 1);
    denied.parent_present = false;
    assert_eq!(
        check_trace(doc_of(vec![row_of(&a, 0), denied])),
        failure(1, TraceErrorKind::ParentKnown)
    );

    let mut forged = a;
    forged.signature[0] ^= 1;
    assert_eq!(
        check_trace(doc_of(vec![row_of(&forged, 0)])),
        failure(0, TraceErrorKind::Validate(ValidationError::BadSignature))
    );

    let stale = trace_event(&secret, ha, 10, 2);
    assert_eq!(
        check_trace(doc_of(vec![row_of(&a, 0), row_of(&stale, 1)])),
        failure(1, TraceErrorKind::Validate(ValidationError::NonMonotonicTimestamp))
    );

    let mut short = row_of(&a, 0);
    short.ancestor_check = false;
    short.quarantined_until_before = 5;
    short.quarantined_until_after = 104;
    assert_eq!(
        check_trace(doc_of(vec![short])),
        failure(0, TraceErrorKind::QuarantineTooSmall { before: 5, after: 104 })
    );
    let mut long_enough = row_of(&a, 0);
    long_enough.ancestor_check = false;
    long_enough.quarantined_until_before = 5;
    long_enough.quarantined_until_after = 105;
    assert_eq!(check_trace(doc_of(vec![long_enough])), Ok(()));

    let mut heavy = row_of(&a, 0);
    heavy.author_weight_fp = 1001;
    assert_eq!(check_trace(doc_of(vec![heavy])), failure(0, TraceErrorKind::WeightOutOfBounds));

    let mut loud = row_of(&a, 0);
    loud.quarantined_until_after = 11;
    loud.author_weight_fp = 1;
    assert_eq!(check_trace(doc_of(vec![loud])), failure(0, TraceErrorKind::WeightNotZero));

    let mut wrong_root = row_of(&a, 0);
    wrong_root.merkle_root = Some(hex::encode([1u8; 32]));
    assert_eq!(
        check_trace(doc_of(vec![wrong_root])),
        failure(0, TraceErrorKind::MerkleRootMismatch)
    );
    let mut unreadable_root = row_of(&a, 0);
    unreadable_root.merkle_root = Some("nothing".to_string());
    assert_eq!(check_trace(doc_of(vec![unreadable_root])), Ok(()));

    let mut doc = doc_of(vec![row_of(&a, 0)]);
    doc.header.final_merkle_root = Some(hex::encode([1u8; 32]));
    assert_eq!(check_trace(doc), failure(1, TraceErrorKind::FinalMerkleRootMismatch));
}

#[test]
fn duplicate_rows_fail_on_the_timestamp_first() {
    let secret = [7u8; 32];
    let a = trace_event(&secret, ZERO_HASH, 10, 1);
    assert_eq!(
        check_trace(doc_of(vec![row_of(&a, 0), row_of(&a, 1)])),
        failure(1, TraceErrorKind::Validate(ValidationError::NonMonotonicTimestamp))
    );
}

#[test]
fn authors_keep_separate_clocks() {
    let a = trace_event(&[7u8; 32], ZERO_HASH, 10, 1);
    let b = trace_event(&[8u8; 32], ZERO_HASH, 5, 1);
    let c = trace_event(&[7u8; 32], ZERO_HASH, 11, 2);
    let config = SybilConfig::from(SybilConfigSerde {
        warmup_ticks: 0,
        quarantine_ticks: 100,
        fixed_point_scale: 1000,
        max_link_walk: 8,
    });
    let mut st = TraceState::new(config);
    for (i, ev) in [a, b, c].iter().enumerate() {
        assert_eq!(st.check_row(&row_of(ev, i), ev, i), Ok(()));
    }
    assert_eq!(st.contexts.len(), 2);
    assert_eq!(st.contexts[0].context.last_timestamp, 11);
    assert_eq!(st.contexts[1].context.last_timestamp, 5);
    assert_eq!(st.ledger.len(), 3);
    assert_eq!(st.last_root, st.ledger.merkle_root());
    assert_eq!(find_context_in(&st.contexts, &b.author), Some(1));
    assert_eq!(st.overlay.weight_of(&b.author), 1000);
    assert_eq!(st.overlay.weight_of(&a.author), 0);
    assert_eq!(st.overlay.quarantined_until(&a.author), 111);
}
