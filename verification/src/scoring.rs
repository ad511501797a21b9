//! The reputation overlay: authors earn weight once a warm-up has passed,
//! and lose it for a quarantine window when they are caught signing two
//! different events on the same parent.
use vstd::prelude::*;
use crate::event::{hash_eq, Event, PublicKey, ZERO_HASH};
use crate::ledger::Ledger;

verus! {

/// What is done to an author who equivocates.
#[derive(Debug, Clone, Copy, PartialEq, Eq, Structural)]
pub enum EquivocationPolicy {
    Quarantine,
}

#[derive(Debug, Clone, Copy)]
pub struct SybilConfig {
    pub warmup_ticks: u64,
    pub quarantine_ticks: u64,
    pub policy: EquivocationPolicy,
    pub fixed_point_scale: u64,
    pub max_link_walk: usize,
}

/// What the overlay holds of one author.
#[derive(Debug, Clone, Copy)]
pub struct AuthorEntry {
    pub author: PublicKey,
    pub first_seen: u64,
    pub quarantined_until: u64,
    pub weight: u64,
}

/// An event as the overlay remembers it: who signed it, on which parent,
/// and its identity.
#[derive(Debug, Clone, Copy)]
pub struct Fingerprint {
    pub author: PublicKey,
    pub prev_hash: crate::event::Hash,
    pub event_hash: crate::event::Hash,
}

pub struct SybilOverlay {
    pub config: SybilConfig,
    pub entries: Vec<AuthorEntry>,
    pub seen: Vec<Fingerprint>,
}

/// The weight of an author at `now`: nothing during the warm-up that
/// follows `first_seen` and nothing before `quarantined_until`; the full
/// scale afterwards.
pub open spec fn weight_rule(
    config: SybilConfig,
    now: u64,
    first_seen: u64,
    quarantined_until: u64,
) -> u64 {
    if now < first_seen + config.warmup_ticks || now < quarantined_until {
        0
    } else {
        config.fixed_point_scale
    }
}

/// The first place from `from` on where `author` stands in `entries`, or
/// their number where there is none.
pub open spec fn find_author(entries: Seq<AuthorEntry>, author: Seq<u8>, from: int) -> int
    decreases entries.len() - from,
{
    if from < 0 || from >= entries.len() || entries[from].author@ == author {
        from
    } else {
        find_author(entries, author, from + 1)
    }
}

/// The entry of `author`, if the overlay has one.
pub open spec fn entry_of(entries: Seq<AuthorEntry>, author: Seq<u8>) -> Option<AuthorEntry> {
    let i = find_author(entries, author, 0);
    if 0 <= i < entries.len() {
        Some(entries[i])
    } else {
        None
    }
}

/// Whether the event with identity `event_hash`, signed by `author` on
/// the parent `prev_hash`, is among those remembered.
pub open spec fn is_seen(
    seen: Seq<Fingerprint>,
    author: Seq<u8>,
    prev_hash: Seq<u8>,
    event_hash: Seq<u8>,
) -> bool {
    exists|k: int|
        0 <= k < seen.len() && (#[trigger] seen[k]).author@ == author && seen[k].prev_hash@
            == prev_hash && seen[k].event_hash@ == event_hash
}

/// Whether such an event shows an equivocation: its author has signed
/// another event on the same parent before.
pub open spec fn equivocates(
    seen: Seq<Fingerprint>,
    author: Seq<u8>,
    prev_hash: Seq<u8>,
    event_hash: Seq<u8>,
) -> bool {
    exists|k: int|
        0 <= k < seen.len() && (#[trigger] seen[k]).author@ == author && seen[k].prev_hash@
            == prev_hash && seen[k].event_hash@ != event_hash
}

/// Whether `after` is what is remembered once such an event has been
/// observed: the event is added at the end unless it was there already.
pub open spec fn seen_after(
    before: Seq<Fingerprint>,
    after: Seq<Fingerprint>,
    author: Seq<u8>,
    prev_hash: Seq<u8>,
    event_hash: Seq<u8>,
) -> bool {
    if is_seen(before, author, prev_hash, event_hash) {
        after == before
    } else {
        &&& after.len() == before.len() + 1
        &&& after.drop_last() == before
        &&& after.last().author@ == author
        &&& after.last().prev_hash@ == prev_hash
        &&& after.last().event_hash@ == event_hash
    }
}

/// The end of an author's quarantine, 0 for an author without an entry.
pub open spec fn quarantine_end(entries: Seq<AuthorEntry>, author: Seq<u8>) -> u64 {
    match entry_of(entries, author) {
        Some(e) => e.quarantined_until,
        None => 0,
    }
}

/// `a + b`, held at the largest `u64`.
pub open spec fn saturating_sum(a: u64, b: u64) -> u64 {
    if a + b > u64::MAX {
        u64::MAX
    } else {
        (a + b) as u64
    }
}

/// The entry of an author after an observation at `tick`. The first
/// observation sets `first_seen`; an equivocation moves `quarantined_until`
/// to `tick + quarantine_ticks` unless it lies later already; the weight is
/// then that of the weight rule at `tick`.
pub open spec fn observed_entry(
    config: SybilConfig,
    before: Option<AuthorEntry>,
    author: PublicKey,
    tick: u64,
    equivocation: bool,
) -> AuthorEntry {
    let first_seen = match before {
        Some(e) => e.first_seen,
        None => tick,
    };
    let until_before = match before {
        Some(e) => e.quarantined_until,
        None => 0,
    };
    let window = saturating_sum(tick, config.quarantine_ticks);
    let until = if equivocation && window > until_before {
        window
    } else {
        until_before
    };
    AuthorEntry {
        author,
        first_seen,
        quarantined_until: until,
        weight: weight_rule(config, tick, first_seen, until),
    }
}

/// Whether a walk of at most `steps` parent links from `h` ends at the
/// genesis marker.
pub open spec fn reaches_genesis(ledger: Ledger, h: Seq<u8>, steps: nat) -> bool
    decreases steps,
{
    if h == ZERO_HASH@ {
        true
    } else if steps == 0 {
        false
    } else {
        match ledger.spec_get(h) {
            Some(e) => reaches_genesis(ledger, e.prev_hash@, (steps - 1) as nat),
            None => false,
        }
    }
}

/// Whether `after` is the overlay that observing an event at `tick` makes
/// of `before`. The author's entry becomes what `observed_entry` says, the
/// event is remembered, and nothing else changes.
pub open spec fn observes(
    before: SybilOverlay,
    after: SybilOverlay,
    author: PublicKey,
    prev_hash: Seq<u8>,
    event_hash: Seq<u8>,
    tick: u64,
) -> bool {
    &&& after.config == before.config
    &&& entry_of(after.entries@, author@) == Some(
        observed_entry(
            before.config,
            entry_of(before.entries@, author@),
            author,
            tick,
            equivocates(before.seen@, author@, prev_hash, event_hash),
        ),
    )
    &&& forall|other: Seq<u8>|
        other != author@ ==> entry_of(after.entries@, other) == entry_of(before.entries@, other)
    &&& forall|a: Seq<u8>| #[trigger]
        quarantine_end(after.entries@, a) >= quarantine_end(before.entries@, a)
    &&& seen_after(before.seen@, after.seen@, author@, prev_hash, event_hash)
}

/// An observation never moves the end of an author's quarantine back, and
/// an equivocation moves it to `tick + quarantine_ticks` at least.
pub proof fn lemma_quarantine_monotone(
    config: SybilConfig,
    before: Option<AuthorEntry>,
    author: PublicKey,
    tick: u64,
    equivocation: bool,
)
    ensures
        before.is_some() ==> observed_entry(
            config,
            before,
            author,
            tick,
            equivocation,
        ).quarantined_until >= before.unwrap().quarantined_until,
        equivocation ==> observed_entry(
            config,
            before,
            author,
            tick,
            equivocation,
        ).quarantined_until >= saturating_sum(tick, config.quarantine_ticks),
{
}

/// A weight never passes the scale, and it is 0 during warm-up and during
/// quarantine.
pub proof fn lemma_weight_bound(
    config: SybilConfig,
    now: u64,
    first_seen: u64,
    quarantined_until: u64,
)
    ensures
        0 <= weight_rule(config, now, first_seen, quarantined_until) <= config.fixed_point_scale,
        now < first_seen + config.warmup_ticks || now < quarantined_until ==> weight_rule(
            config,
            now,
            first_seen,
            quarantined_until,
        ) == 0,
{
}

/// Changing the entry at `at`, its author kept, changes no other author's
/// entry; nor does adding an entry at the end.
proof fn lemma_find_author_stable(
    before: Seq<AuthorEntry>,
    after: Seq<AuthorEntry>,
    author: Seq<u8>,
    from: int,
)
    requires
        0 <= from,
        before.len() <= after.len() <= before.len() + 1,
        forall|k: int| 0 <= k < before.len() ==> (#[trigger] before[k]).author@ == after[k].author@,
    ensures
        find_author(before, author, from) < before.len() ==> find_author(after, author, from)
            == find_author(before, author, from),
        find_author(before, author, from) >= before.len() ==> find_author(after, author, from)
            >= before.len(),
        find_author(before, author, from) >= from,
        find_author(after, author, from) >= from,
    decreases after.len() - from,
{
    if from < before.len() {
        if before[from].author@ != author {
            lemma_find_author_stable(before, after, author, from + 1);
        }
    } else if from < after.len() {
        if after[from].author@ != author {
            lemma_find_author_stable(before, after, author, from + 1);
        }
    }
}

/// The weight of an author at `now`.
pub fn weight_at(config: &SybilConfig, now: u64, first_seen: u64, quarantined_until: u64) -> (w:
    u64)
    ensures
        w == weight_rule(*config, now, first_seen, quarantined_until),
        w <= config.fixed_point_scale,
{
    if now < first_seen || now - first_seen < config.warmup_ticks || now < quarantined_until {
        0
    } else {
        config.fixed_point_scale
    }
}

impl SybilOverlay {
    /// The entries are valid: each weight is within the scale.
    pub open spec fn wf(&self) -> bool {
        forall|i: int|
            0 <= i < self.entries@.len() ==> (#[trigger] self.entries@[i]).weight
                <= self.config.fixed_point_scale
    }

    /// An overlay that has observed nothing.
    pub fn new(config: SybilConfig) -> (overlay: Self)
        ensures
            overlay.wf(),
            overlay.config == config,
            overlay.entries@.len() == 0,
            overlay.seen@.len() == 0,
    {
        SybilOverlay { config, entries: Vec::new(), seen: Vec::new() }
    }

    /// Where `author` stands among the entries.
    pub fn find_entry(&self, author: &PublicKey) -> (at: Option<usize>)
        ensures
            match at {
                Some(i) => i < self.entries@.len() && find_author(self.entries@, author@, 0) == i
                    && self.entries@[i as int].author@ == author@,
                None => find_author(self.entries@, author@, 0) >= self.entries@.len(),
            },
            at.is_some() == entry_of(self.entries@, author@).is_some(),
    {
        let mut i: usize = 0;
        while i < self.entries.len()
            invariant
                i <= self.entries@.len(),
                find_author(self.entries@, author@, 0) == find_author(
                    self.entries@,
                    author@,
                    i as int,
                ),
            decreases self.entries@.len() - i,
        {
            if hash_eq(&self.entries[i].author, author) {
                return Some(i);
            }
            i += 1;
        }
        None
    }

    /// Looks `fp` up among the remembered events: whether it is there
    /// itself, and whether its author signed another event on its parent.
    pub fn look_up(&self, fp: &Fingerprint) -> (found: (bool, bool))
        ensures
            found.0 == is_seen(self.seen@, fp.author@, fp.prev_hash@, fp.event_hash@),
            found.1 == equivocates(self.seen@, fp.author@, fp.prev_hash@, fp.event_hash@),
    {
        let mut known = false;
        let mut other = false;
        let mut k: usize = 0;
        while k < self.seen.len()
            invariant
                k <= self.seen@.len(),
                known == is_seen(
                    self.seen@.subrange(0, k as int),
                    fp.author@,
                    fp.prev_hash@,
                    fp.event_hash@,
                ),
                other == equivocates(
                    self.seen@.subrange(0, k as int),
                    fp.author@,
                    fp.prev_hash@,
                    fp.event_hash@,
                ),
            decreases self.seen@.len() - k,
        {
            let s = &self.seen[k];
            let ghost upto = self.seen@.subrange(0, k as int);
            let ghost next = self.seen@.subrange(0, k + 1);
            let same_slot = hash_eq(&s.author, &fp.author) && hash_eq(&s.prev_hash, &fp.prev_hash);
            let same_event = hash_eq(&s.event_hash, &fp.event_hash);
            proof {
                assert(next[k as int] == self.seen@[k as int]);
                assert forall|j: int| 0 <= j < k implies upto[j] == next[j] by {}
                if is_seen(upto, fp.author@, fp.prev_hash@, fp.event_hash@) {
                    let j = choose|j: int|
                        0 <= j < upto.len() && (#[trigger] upto[j]).author@ == fp.author@
                            && upto[j].prev_hash@ == fp.prev_hash@ && upto[j].event_hash@
                            == fp.event_hash@;
                    assert(next[j] == upto[j]);
                }
                if equivocates(upto, fp.author@, fp.prev_hash@, fp.event_hash@) {
                    let j = choose|j: int|
                        0 <= j < upto.len() && (#[trigger] upto[j]).author@ == fp.author@
                            && upto[j].prev_hash@ == fp.prev_hash@ && upto[j].event_hash@
                            != fp.event_hash@;
                    assert(next[j] == upto[j]);
                }
                if is_seen(next, fp.author@, fp.prev_hash@, fp.event_hash@) && !(same_slot && same_event) {
                    let j = choose|j: int|
                        0 <= j < next.len() && (#[trigger] next[j]).author@ == fp.author@
                            && next[j].prev_hash@ == fp.prev_hash@ && next[j].event_hash@
                            == fp.event_hash@;
                    assert(upto[j] == next[j]);
                }
                if equivocates(next, fp.author@, fp.prev_hash@, fp.event_hash@) && !(same_slot && !same_event) {
                    let j = choose|j: int|
                        0 <= j < next.len() && (#[trigger] next[j]).author@ == fp.author@
                            && next[j].prev_hash@ == fp.prev_hash@ && next[j].event_hash@
                            != fp.event_hash@;
                    assert(upto[j] == next[j]);
                }
            }
            if same_slot && same_event {
                known = true;
            }
            if same_slot && !same_event {
                other = true;
            }
            k += 1;
        }
        assert(self.seen@.subrange(0, k as int) =~= self.seen@);
        (known, other)
    }

    /// Observes an event at `tick`, as `observes` says. Neither the ledger
    /// nor the source node is consulted.
    pub fn observe_event(
        &mut self,
        ledger: &Ledger,
        tick: u64,
        node_id: u32,
        ev: &Event,
        hash: crate::event::Hash,
    )
        requires
            old(self).wf(),
        ensures
            final(self).wf(),
            observes(*old(self), *final(self), ev.author, ev.prev_hash@, hash@, tick),
    {
        let fp = Fingerprint { author: ev.author, prev_hash: ev.prev_hash, event_hash: hash };
        let (known, equivocation) = self.look_up(&fp);
        let at = self.find_entry(&ev.author);
        let (first_seen, until_before) = match at {
            Some(i) => (self.entries[i].first_seen, self.entries[i].quarantined_until),
            None => (tick, 0),
        };
        let window: u64 = if tick > u64::MAX - self.config.quarantine_ticks {
            u64::MAX
        } else {
            tick + self.config.quarantine_ticks
        };
        let until: u64 = if equivocation && window > until_before {
            window
        } else {
            until_before
        };
        let entry = AuthorEntry {
            author: ev.author,
            first_seen,
            quarantined_until: until,
            weight: weight_at(&self.config, tick, first_seen, until),
        };
        let ghost before = self.entries@;
        match at {
            Some(i) => {
                self.entries.set(i, entry);
            },
            None => {
                self.entries.push(entry);
            },
        }
        let ghost seen_before = self.seen@;
        if !known {
            self.seen.push(fp);
            assert(self.seen@.drop_last() =~= seen_before);
        }
        proof {
            let after = self.entries@;
            lemma_find_author_stable(before, after, ev.author@, 0);
            assert forall|other: Seq<u8>| other != ev.author@ implies entry_of(after, other)
                == entry_of(before, other) by {
                lemma_find_author_stable(before, after, other, 0);
                let j = find_author(before, other, 0);
                if j >= before.len() {
                    let j2 = find_author(after, other, 0);
                    if j2 < after.len() {
                        lemma_find_author_found(after, other, 0);
                    }
                } else {
                    lemma_find_author_found(before, other, 0);
                }
            }
            if at.is_none() {
                lemma_find_author_last(after, ev.author@, 0);
            }
        }
    }

    /// The weight that the author's last observation left, 0 for an author
    /// never observed.
    pub fn weight_of(&self, author: &PublicKey) -> (w: u64)
        requires
            self.wf(),
        ensures
            w == (match entry_of(self.entries@, author@) {
                Some(e) => e.weight,
                None => 0,
            }),
            w <= self.config.fixed_point_scale,
    {
        match self.find_entry(author) {
            Some(i) => self.entries[i].weight,
            None => 0,
        }
    }

    /// The end of the author's quarantine, 0 for an author never put in
    /// quarantine.
    pub fn quarantined_until(&self, author: &PublicKey) -> (until: u64)
        ensures
            until == quarantine_end(self.entries@, author@),
    {
        match self.find_entry(author) {
            Some(i) => self.entries[i].quarantined_until,
            None => 0,
        }
    }

    /// Whether a walk of at most `max_link_walk` parent links from the
    /// event's parent ends at the genesis marker.
    pub fn ancestor_check(&self, ledger: &Ledger, ev: &Event) -> (ok: bool)
        requires
            ledger.wf(),
        ensures
            ok == reaches_genesis(*ledger, ev.prev_hash@, self.config.max_link_walk as nat),
    {
        let mut cur = ev.prev_hash;
        let mut left: usize = self.config.max_link_walk;
        loop
            invariant
                ledger.wf(),
                reaches_genesis(*ledger, ev.prev_hash@, self.config.max_link_walk as nat)
                    == reaches_genesis(*ledger, cur@, left as nat),
            decreases left,
        {
            if hash_eq(&cur, &ZERO_HASH) {
                return true;
            }
            if left == 0 {
                return false;
            }
            match ledger.get_event(&cur) {
                Some(e) => {
                    cur = e.prev_hash;
                    left = left - 1;
                },
                None => {
                    return false;
                },
            }
        }
    }
}

/// Where `find_author` stops within the entries, the author stands.
proof fn lemma_find_author_found(entries: Seq<AuthorEntry>, author: Seq<u8>, from: int)
    requires
        0 <= from,
        find_author(entries, author, from) < entries.len(),
    ensures
        from <= find_author(entries, author, from),
        entries[find_author(entries, author, from)].author@ == author,
    decreases entries.len() - from,
{
    if from < entries.len() && entries[from].author@ != author {
        lemma_find_author_found(entries, author, from + 1);
    }
}

/// An author who stands only at the end is found there.
proof fn lemma_find_author_last(entries: Seq<AuthorEntry>, author: Seq<u8>, from: int)
    requires
        0 <= from < entries.len(),
        entries.last().author@ == author,
        find_author(entries, author, from) >= entries.len() - 1,
    ensures
        find_author(entries, author, from) == entries.len() - 1,
    decreases entries.len() - from,
{
    if from < entries.len() - 1 && entries[from].author@ != author {
        lemma_find_author_last(entries, author, from + 1);
    }
}

} // verus!
