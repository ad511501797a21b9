//! Blocks: an ordered run of events that is validated as a whole and then
//! linked as a whole, or not at all.
use vstd::prelude::*;
use crate::event::Event;
use crate::ledger::{link_one, Ledger, LedgerView, LinkError};
use crate::validation::{last_timestamp_of, signature_holds, validate_for_author};
use crate::validation::{validation_verdict, with_timestamp, AuthorContext, ValidationError};

verus! {

/// Why a block was refused, and at which of its events.
#[derive(Debug, Clone, Copy, PartialEq, Eq, Structural)]
pub enum BlockError {
    Invalid { index: usize, error: ValidationError },
    Unlinked { index: usize, fault: LinkError },
}

/// The contexts after the events from `from` on have been validated in
/// order, each against the context of its author, or the first failure.
pub open spec fn validate_all(contexts: Seq<AuthorContext>, events: Seq<Event>, from: int) -> Result<
    Seq<AuthorContext>,
    BlockError,
>
    decreases events.len() - from,
{
    if from < 0 || from >= events.len() {
        Ok(contexts)
    } else {
        let ev = events[from];
        let verdict = validation_verdict(
            ev,
            last_timestamp_of(contexts, ev.author@),
            signature_holds(ev),
        );
        match verdict {
            Ok(_) => validate_all(
                with_timestamp(contexts, ev.author, ev.timestamp),
                events,
                from + 1,
            ),
            Err(error) => Err(BlockError::Invalid { index: from as usize, error }),
        }
    }
}

/// The ledger after the events from `from` on have been linked in order,
/// or the first failure.
pub open spec fn link_all(v: LedgerView, events: Seq<Event>, from: int) -> Result<
    LedgerView,
    BlockError,
>
    decreases events.len() - from,
{
    if from < 0 || from >= events.len() {
        Ok(v)
    } else {
        match link_one(v, events[from]) {
            Ok(next) => link_all(next, events, from + 1),
            Err(fault) => Err(BlockError::Unlinked { index: from as usize, fault }),
        }
    }
}

/// What applying a block gives: every event is validated first, in order;
/// only then are they linked, in order.
pub open spec fn spec_apply_block(
    v: LedgerView,
    contexts: Seq<AuthorContext>,
    events: Seq<Event>,
) -> Result<(LedgerView, Seq<AuthorContext>), BlockError> {
    match validate_all(contexts, events, 0) {
        Err(e) => Err(e),
        Ok(after) => match link_all(v, events, 0) {
            Err(e) => Err(e),
            Ok(linked) => Ok((linked, after)),
        },
    }
}

/// Applies a block. Where every event validates and links, the ledger and
/// the contexts are what `spec_apply_block` says. On any failure neither
/// the ledger nor the contexts change: no part of a refused block stays.
pub fn apply_block(ledger: &mut Ledger, contexts: &mut Vec<AuthorContext>, events: &Vec<Event>) -> (res:
    Result<(), BlockError>)
    requires
        old(ledger).wf(),
    ensures
        final(ledger).wf(),
        match spec_apply_block(old(ledger)@, old(contexts)@, events@) {
            Ok((v, after)) => res.is_ok() && final(ledger)@ == v && final(contexts)@ == after,
            Err(e) => res == Err::<(), BlockError>(e) && *final(ledger) == *old(ledger)
                && final(contexts)@ == old(contexts)@,
        },
{
    let mut staged_contexts: Vec<AuthorContext> = Vec::with_capacity(contexts.len());
    let mut c: usize = 0;
    while c < contexts.len()
        invariant
            c <= contexts@.len(),
            staged_contexts@ == contexts@.subrange(0, c as int),
        decreases contexts@.len() - c,
    {
        staged_contexts.push(contexts[c]);
        assert(staged_contexts@ =~= contexts@.subrange(0, c + 1));
        c += 1;
    }
    assert(staged_contexts@ =~= contexts@);
    let mut i: usize = 0;
    while i < events.len()
        invariant
            i <= events@.len(),
            ledger.wf(),
            validate_all(contexts@, events@, 0) == validate_all(
                staged_contexts@,
                events@,
                i as int,
            ),
        decreases events@.len() - i,
    {
        match validate_for_author(&mut staged_contexts, &events[i]) {
            Ok(_) => {},
            Err(error) => {
                return Err(BlockError::Invalid { index: i, error });
            },
        }
        i += 1;
    }
    let mut staged = ledger.duplicate();
    let mut j: usize = 0;
    while j < events.len()
        invariant
            j <= events@.len(),
            ledger.wf(),
            staged.wf(),
            validate_all(contexts@, events@, 0) == Ok::<Seq<AuthorContext>, BlockError>(
                staged_contexts@,
            ),
            link_all(ledger@, events@, 0) == link_all(staged@, events@, j as int),
        decreases events@.len() - j,
    {
        match staged.try_add_event(events[j]) {
            Ok(_) => {},
            Err(fault) => {
                return Err(BlockError::Unlinked { index: j, fault });
            },
        }
        j += 1;
    }
    *ledger = staged;
    *contexts = staged_contexts;
    Ok(())
}

} // verus!
