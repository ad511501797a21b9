use dvel_core::block::{apply_block, BlockError};
use dvel_core::event::{Event, ZERO_HASH};
use dvel_core::ledger::{Ledger, LinkError};
use dvel_core::validation::{
    compute_signature_with_secret, derive_pubkey_from_secret, validate_for_author,
    AuthorContext, ValidationContext, ValidationError,
};

fn block_event(secret: &[u8; 32], prev: [u8; 32], timestamp: u64, tag: u8) -> Event {
    let author = derive_pubkey_from_secret(secret);
    let mut ev = Event::new(prev, author, timestamp, [tag; 32], [0u8; 64]);
    ev.signature = compute_signature_with_secret(&ev, secret);
    ev
}

#[test]
fn a_block_links_in_order() {
    let a = block_event(&[1u8; 32], ZERO_HASH, 5, 1);
    let ha = Ledger::hash_event(&a);
    let b = block_event(&[2u8; 32], ha, 3, 2);
    let hb = Ledger::hash_event(&b);
    let c = block_event(&[1u8; 32], hb, 6, 3);
    let hc = Ledger::hash_event(&c);
    let mut ledger = Ledger::new();
    let mut contexts: Vec<AuthorContext> = Vec::new();
    assert_eq!(apply_block(&mut ledger, &mut contexts, &vec![a, b, c]), Ok(()));
    assert_eq!(ledger.len(), 3);
    assert_eq!(ledger.tips(), vec![hc]);
    assert_eq!(contexts.len(), 2);
    assert_eq!(contexts[0].author, a.author);
    assert_eq!(contexts[0].context.last_timestamp, 6);
    assert_eq!(contexts[1].context.last_timestamp, 3);
    assert_eq!(apply_block(&mut ledger, &mut contexts, &Vec::new()), Ok(()));
    assert_eq!(ledger.len(), 3);
}

#[test]
fn a_refused_block_leaves_nothing() {
    let a = block_event(&[1u8; 32], ZERO_HASH, 5, 1);
    let ha = Ledger::hash_event(&a);
    let mut ledger = Ledger::new();
    let mut contexts: Vec<AuthorContext> = Vec::new();
    assert_eq!(apply_block(&mut ledger, &mut contexts, &vec![a]), Ok(()));

    let b = block_event(&[2u8; 32], ha, 7, 2);
    let orphan = block_event(&[2u8; 32], [9u8; 32], 8, 3);
    assert_eq!(
        apply_block(&mut ledger, &mut contexts, &vec![b, orphan]),
        Err(BlockError::Unlinked { index: 1, fault: LinkError::MissingParent })
    );
    assert_eq!(ledger.len(), 1);
    assert_eq!(ledger.tips(), vec![ha]);
    assert_eq!(contexts.len(), 1);

    let late = block_event(&[1u8; 32], ha, 5, 4);
    assert_eq!(
        apply_block(&mut ledger, &mut contexts, &vec![b, late]),
        Err(BlockError::Invalid { index: 1, error: ValidationError::NonMonotonicTimestamp })
    );
    assert_eq!(ledger.len(), 1);
    assert_eq!(contexts.len(), 1);
    assert_eq!(contexts[0].context.last_timestamp, 5);

    let mut forged = b;
    forged.signature[5] ^= 1;
    assert_eq!(
        apply_block(&mut ledger, &mut contexts, &vec![forged]),
        Err(BlockError::Invalid { index: 0, error: ValidationError::BadSignature })
    );

    let again = block_event(&[1u8; 32], ZERO_HASH, 9, 1);
    let twice = again;
    assert_eq!(
        apply_block(&mut ledger, &mut contexts, &vec![again, twice]),
        Err(BlockError::Invalid { index: 1, error: ValidationError::NonMonotonicTimestamp })
    );
    assert_eq!(ledger.len(), 1);
}

#[test]
fn contexts_by_author() {
    let a = block_event(&[1u8; 32], ZERO_HASH, 5, 1);
    let b = block_event(&[2u8; 32], ZERO_HASH, 2, 1);
    let mut contexts: Vec<AuthorContext> = Vec::new();
    assert_eq!(validate_for_author(&mut contexts, &a), Ok(()));
    assert_eq!(validate_for_author(&mut contexts, &b), Ok(()));
    assert_eq!(
        validate_for_author(&mut contexts, &a),
        Err(ValidationError::NonMonotonicTimestamp)
    );
    assert_eq!(contexts.len(), 2);
    assert_eq!(contexts[0].context.last_timestamp, 5);
    assert_eq!(contexts[1].context.last_timestamp, 2);
    let fresh = ValidationContext::new();
    assert_eq!(fresh.last_timestamp, 0);
}

#[test]
fn a_duplicate_of_a_ledger() {
    let a = block_event(&[1u8; 32], ZERO_HASH, 5, 1);
    let mut ledger = Ledger::new();
    let ha = ledger.try_add_event(a).unwrap();
    let copy = ledger.duplicate();
    assert_eq!(copy.len(), 1);
    assert_eq!(copy.tips(), vec![ha]);
    assert_eq!(copy.merkle_root(), ledger.merkle_root());
    assert_eq!(copy.get_event(&ha).unwrap().timestamp, 5);
}
