//! Validation of a single event: protocol version, signature over the
//! canonical bytes, and strictly increasing timestamps per author.
use vstd::prelude::*;
use crate::crypto::{ed25519_public_key, ed25519_signature, ed25519_verifies};
use crate::crypto::{derive_public_key, sign_bytes, verify_strict_bytes};
use crate::event::{hash_eq, Event, PublicKey, Signature};
use crate::PROTOCOL_VERSION;

verus! {

#[derive(Debug, Clone, Copy, PartialEq, Eq, Structural)]
pub enum ValidationError {
    BadSignature,
    NonMonotonicTimestamp,
    UnknownVersion,
}

/// What validation remembers of one author.
#[derive(Debug, Clone, Copy)]
pub struct ValidationContext {
    pub last_timestamp: u64,
}

/// The last timestamp accepted from one author.
#[derive(Debug, Clone, Copy)]
pub struct AuthorContext {
    pub author: PublicKey,
    pub context: ValidationContext,
}

/// Whether the event's signature verifies strictly over its canonical bytes
/// under its author.
pub open spec fn signature_holds(ev: Event) -> bool {
    ed25519_verifies(ev.author@, ev.spec_canonical_bytes(), ev.signature@)
}

/// The verdict on an event, given the author's last accepted timestamp and
/// whether the signature verified. The version is looked at first, then the
/// signature, then the timestamp.
pub open spec fn validation_verdict(ev: Event, last_timestamp: u64, signature_ok: bool) -> Result<
    (),
    ValidationError,
> {
    if ev.version != PROTOCOL_VERSION {
        Err(ValidationError::UnknownVersion)
    } else if !signature_ok {
        Err(ValidationError::BadSignature)
    } else if ev.timestamp <= last_timestamp {
        Err(ValidationError::NonMonotonicTimestamp)
    } else {
        Ok(())
    }
}

/// The timestamp that the context holds once validation has decided: that
/// of the event on success, the earlier one otherwise.
pub open spec fn timestamp_after(
    ev: Event,
    last_timestamp: u64,
    verdict: Result<(), ValidationError>,
) -> u64 {
    if verdict.is_ok() {
        ev.timestamp
    } else {
        last_timestamp
    }
}

/// The first place from `from` on where `author` stands in `contexts`, or
/// their number where there is none.
pub open spec fn find_context(contexts: Seq<AuthorContext>, author: Seq<u8>, from: int) -> int
    decreases contexts.len() - from,
{
    if from < 0 || from >= contexts.len() || contexts[from].author@ == author {
        from
    } else {
        find_context(contexts, author, from + 1)
    }
}

/// The last timestamp accepted from `author`, 0 where there is none.
pub open spec fn last_timestamp_of(contexts: Seq<AuthorContext>, author: Seq<u8>) -> u64 {
    let i = find_context(contexts, author, 0);
    if 0 <= i < contexts.len() {
        contexts[i].context.last_timestamp
    } else {
        0
    }
}

/// The contexts once `author` has had `timestamp` accepted.
pub open spec fn with_timestamp(
    contexts: Seq<AuthorContext>,
    author: PublicKey,
    timestamp: u64,
) -> Seq<AuthorContext> {
    let i = find_context(contexts, author@, 0);
    let entry = AuthorContext { author, context: ValidationContext { last_timestamp: timestamp } };
    if 0 <= i < contexts.len() {
        contexts.update(i, entry)
    } else {
        contexts.push(entry)
    }
}

/// Every event of `evs` is accepted in turn, starting from `last_timestamp`.
pub open spec fn accepted_in_turn(evs: Seq<Event>, last_timestamp: u64) -> bool
    decreases evs.len(),
{
    evs.len() == 0 || (validation_verdict(evs[0], last_timestamp, signature_holds(evs[0])).is_ok()
        && accepted_in_turn(evs.drop_first(), evs[0].timestamp))
}

/// Events that one context accepted one after another carry strictly
/// increasing timestamps, all above the one the context started from.
pub proof fn lemma_accepted_timestamps_increase(evs: Seq<Event>, last_timestamp: u64)
    requires
        accepted_in_turn(evs, last_timestamp),
    ensures
        forall|i: int| 0 <= i < evs.len() ==> last_timestamp < (#[trigger] evs[i]).timestamp,
        forall|i: int, j: int|
            0 <= i < j < evs.len() ==> (#[trigger] evs[i]).timestamp < (#[trigger] evs[j]).timestamp,
    decreases evs.len(),
{
    if evs.len() > 0 {
        let rest = evs.drop_first();
        lemma_accepted_timestamps_increase(rest, evs[0].timestamp);
        assert forall|i: int| 0 <= i < evs.len() implies last_timestamp < (
        #[trigger] evs[i]).timestamp by {
            if i > 0 {
                assert(evs[i] == rest[i - 1]);
            }
        }
        assert forall|i: int, j: int| 0 <= i < j < evs.len() implies (
        #[trigger] evs[i]).timestamp < (#[trigger] evs[j]).timestamp by {
            assert(evs[j] == rest[j - 1]);
            if i > 0 {
                assert(evs[i] == rest[i - 1]);
            }
        }
    }
}

impl ValidationContext {
    /// A context that has accepted nothing yet.
    pub fn new() -> (ctx: Self)
        ensures
            ctx.last_timestamp == 0,
    {
        ValidationContext { last_timestamp: 0 }
    }
}

/// The public key of a 32-byte seed.
pub fn derive_pubkey_from_secret(secret: &[u8; 32]) -> (key: PublicKey)
    ensures
        key@ == ed25519_public_key(secret@),
{
    match derive_public_key(secret) {
        Some(k) => k,
        None => [0u8; 32],
    }
}

/// The signature of the event's canonical bytes under `secret`; the event's
/// own signature field is not read.
pub fn compute_signature_with_secret(ev: &Event, secret: &[u8; 32]) -> (sig: Signature)
    ensures
        sig@ == ed25519_signature(secret@, ev.spec_canonical_bytes()),
{
    let bytes = ev.canonical_bytes();
    match sign_bytes(secret, bytes.as_slice()) {
        Some(s) => s,
        None => [0u8; 64],
    }
}

/// Decides on an event once the signature check has been made.
pub fn validate_with_verdict(ev: &Event, ctx: &mut ValidationContext, signature_ok: bool) -> (res:
    Result<(), ValidationError>)
    ensures
        res == validation_verdict(*ev, old(ctx).last_timestamp, signature_ok),
        final(ctx).last_timestamp == timestamp_after(*ev, old(ctx).last_timestamp, res),
        res.is_ok() ==> final(ctx).last_timestamp > old(ctx).last_timestamp,
        final(ctx).last_timestamp >= old(ctx).last_timestamp,
{
    if ev.version != PROTOCOL_VERSION {
        return Err(ValidationError::UnknownVersion);
    }
    if !signature_ok {
        return Err(ValidationError::BadSignature);
    }
    if ev.timestamp <= ctx.last_timestamp {
        return Err(ValidationError::NonMonotonicTimestamp);
    }
    ctx.last_timestamp = ev.timestamp;
    Ok(())
}

/// Validates an event against its author's context: the signature is
/// verified strictly over the canonical bytes, and the timestamp must lie
/// above the last one accepted. The context moves only on success.
pub fn validate_event(ev: &Event, ctx: &mut ValidationContext) -> (res: Result<
    (),
    ValidationError,
>)
    ensures
        res == validation_verdict(*ev, old(ctx).last_timestamp, signature_holds(*ev)),
        final(ctx).last_timestamp == timestamp_after(*ev, old(ctx).last_timestamp, res),
        res.is_ok() ==> final(ctx).last_timestamp > old(ctx).last_timestamp,
        final(ctx).last_timestamp >= old(ctx).last_timestamp,
{
    let bytes = ev.canonical_bytes();
    let ok = verify_strict_bytes(&ev.author, bytes.as_slice(), &ev.signature);
    validate_with_verdict(ev, ctx, ok)
}

/// Where `author` stands among the contexts.
pub fn find_context_in(contexts: &Vec<AuthorContext>, author: &PublicKey) -> (at: Option<usize>)
    ensures
        match at {
            Some(i) => i < contexts@.len() && find_context(contexts@, author@, 0) == i,
            None => find_context(contexts@, author@, 0) >= contexts@.len(),
        },
{
    let mut i: usize = 0;
    while i < contexts.len()
        invariant
            i <= contexts@.len(),
            find_context(contexts@, author@, 0) == find_context(contexts@, author@, i as int),
        decreases contexts@.len() - i,
    {
        if hash_eq(&contexts[i].author, author) {
            return Some(i);
        }
        i += 1;
    }
    None
}

/// Validates an event against the context of its author, which starts at 0
/// for an author not seen before. The contexts change only on success, and
/// then only that of the event's author.
pub fn validate_for_author(contexts: &mut Vec<AuthorContext>, ev: &Event) -> (res: Result<
    (),
    ValidationError,
>)
    ensures
        res == validation_verdict(
            *ev,
            last_timestamp_of(old(contexts)@, ev.author@),
            signature_holds(*ev),
        ),
        final(contexts)@ == (if res.is_ok() {
            with_timestamp(old(contexts)@, ev.author, ev.timestamp)
        } else {
            old(contexts)@
        }),
{
    let at = find_context_in(contexts, &ev.author);
    let mut ctx = match at {
        Some(i) => contexts[i].context,
        None => ValidationContext::new(),
    };
    match validate_event(ev, &mut ctx) {
        Ok(_) => {},
        Err(e) => {
            return Err(e);
        },
    }
    let entry = AuthorContext { author: ev.author, context: ctx };
    match at {
        Some(i) => {
            contexts.set(i, entry);
        },
        None => {
            contexts.push(entry);
        },
    }
    Ok(())
}

} // verus!
