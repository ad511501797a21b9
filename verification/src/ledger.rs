//! The ledger: events stored under their identity hash and linked to their
//! parents, the set of tips, and the Merkle root over the stored identities.
use vstd::prelude::*;
use crate::crypto::{sha256_bytes, sha256_digest};
use crate::event::{hash_eq, Event, ZERO_HASH};
use crate::merkle::{hashes_view, merkle_root, spec_merkle_root, lemma_merkle_root_of_same_set};

verus! {

#[derive(Debug, Clone, Copy, PartialEq, Eq, Structural)]
pub enum LinkError {
    Duplicate,
    MissingParent,
}

/// The identity of an event: SHA-256 of its canonical bytes followed by its
/// signature.
pub open spec fn spec_identity_hash(ev: Event) -> Seq<u8> {
    sha256_digest(ev.spec_hash_material())
}

/// Events in the order they were linked, each beside its identity hash.
pub struct Ledger {
    pub(crate) hashes: Vec<crate::event::Hash>,
    pub(crate) events: Vec<Event>,
    pub(crate) tips: Vec<crate::event::Hash>,
}

/// A ledger as plain values: the identity hashes and the events in the
/// order of linking, and the tip set.
pub struct LedgerView {
    pub hashes: Seq<Seq<u8>>,
    pub events: Seq<Event>,
    pub tips: Set<Seq<u8>>,
}

/// What linking one event does: `Duplicate` where its identity is stored,
/// else `MissingParent` where its parent is neither the genesis marker nor
/// stored; otherwise the event is stored, its parent leaves the tip set and
/// its identity enters it.
pub open spec fn link_one(v: LedgerView, ev: Event) -> Result<LedgerView, LinkError> {
    let h = spec_identity_hash(ev);
    if v.hashes.contains(h) {
        Err(LinkError::Duplicate)
    } else if ev.prev_hash@ != ZERO_HASH@ && !v.hashes.contains(ev.prev_hash@) {
        Err(LinkError::MissingParent)
    } else {
        Ok(
            LedgerView {
                hashes: v.hashes.push(h),
                events: v.events.push(ev),
                tips: v.tips.remove(ev.prev_hash@).insert(h),
            },
        )
    }
}

impl View for Ledger {
    type V = LedgerView;

    open spec fn view(&self) -> LedgerView {
        LedgerView {
            hashes: self.spec_hashes(),
            events: self.spec_events(),
            tips: self.spec_tips(),
        }
    }
}

/// Taking one element out of a sequence without repetitions takes out its
/// value and nothing else.
pub proof fn lemma_remove_distinct(s: Seq<Seq<u8>>, i: int)
    requires
        s.no_duplicates(),
        0 <= i < s.len(),
    ensures
        s.remove(i).no_duplicates(),
        forall|x: Seq<u8>| #[trigger] s.remove(i).contains(x) <==> s.contains(x) && x != s[i],
{
    let r = s.remove(i);
    assert forall|x: Seq<u8>| #[trigger] r.contains(x) <==> s.contains(x) && x != s[i] by {
        if r.contains(x) {
            let k = choose|k: int| 0 <= k < r.len() && r[k] == x;
            if k < i {
                assert(s[k] == x);
            } else {
                assert(s[k + 1] == x);
            }
        }
        if s.contains(x) && x != s[i] {
            let k = choose|k: int| 0 <= k < s.len() && s[k] == x;
            if k < i {
                assert(r[k] == x);
            } else {
                assert(r[k - 1] == x);
            }
        }
    }
}

/// Appending a value that a sequence without repetitions lacks adds that
/// value and nothing else.
pub proof fn lemma_push_distinct(s: Seq<Seq<u8>>, v: Seq<u8>)
    requires
        s.no_duplicates(),
        !s.contains(v),
    ensures
        s.push(v).no_duplicates(),
        forall|x: Seq<u8>| #[trigger] s.push(v).contains(x) <==> s.contains(x) || x == v,
{
    let r = s.push(v);
    assert forall|x: Seq<u8>| #[trigger] r.contains(x) <==> s.contains(x) || x == v by {
        if r.contains(x) {
            let k = choose|k: int| 0 <= k < r.len() && r[k] == x;
            if k < s.len() {
                assert(s[k] == x);
            }
        }
        if s.contains(x) {
            let k = choose|k: int| 0 <= k < s.len() && s[k] == x;
            assert(r[k] == x);
        }
        if x == v {
            assert(r[s.len() as int] == x);
        }
    }
    assert forall|a: int, b: int| 0 <= a < r.len() && 0 <= b < r.len() && a != b implies r[a]
        != r[b] by {
        if a < s.len() && b < s.len() {
        } else if a < s.len() {
            assert(s.contains(s[a]));
        } else {
            assert(s.contains(s[b]));
        }
    }
}

/// Where `h` stands in `hashes`, if anywhere.
pub fn find_hash(hashes: &Vec<crate::event::Hash>, h: &crate::event::Hash) -> (at: Option<usize>)
    ensures
        match at {
            Some(i) => i < hashes@.len() && hashes_view(hashes@)[i as int] == h@,
            None => !hashes_view(hashes@).contains(h@),
        },
{
    let mut i: usize = 0;
    while i < hashes.len()
        invariant
            i <= hashes@.len(),
            forall|k: int| 0 <= k < i ==> hashes_view(hashes@)[k] != h@,
        decreases hashes@.len() - i,
    {
        if hash_eq(&hashes[i], h) {
            return Some(i);
        }
        i += 1;
    }
    None
}

impl Ledger {
    /// The identity hashes of the stored events, in the order of linking.
    pub closed spec fn spec_hashes(&self) -> Seq<Seq<u8>> {
        hashes_view(self.hashes@)
    }

    /// The stored events, in the order of linking.
    pub closed spec fn spec_events(&self) -> Seq<Event> {
        self.events@
    }

    /// The tip set.
    pub closed spec fn spec_tips(&self) -> Set<Seq<u8>> {
        hashes_view(self.tips@).to_set()
    }

    /// The tips are kept without repetitions.
    pub closed spec fn tips_distinct(&self) -> bool {
        hashes_view(self.tips@).no_duplicates()
    }

    /// Whether an event is stored under `h`.
    pub open spec fn contains(&self, h: Seq<u8>) -> bool {
        self.spec_hashes().contains(h)
    }

    /// Whether some stored event names `h`, which is not the genesis marker,
    /// as its parent.
    pub open spec fn is_parent(&self, h: Seq<u8>) -> bool {
        h != ZERO_HASH@ && exists|i: int|
            0 <= i < self.spec_events().len() && (#[trigger] self.spec_events()[i]).prev_hash@ == h
    }

    /// The event stored under `h`.
    pub open spec fn spec_get(&self, h: Seq<u8>) -> Option<Event> {
        if self.contains(h) {
            Some(self.spec_events()[self.spec_hashes().index_of(h)])
        } else {
            None
        }
    }

    /// The tip set that the stored events call for: the stored identities
    /// that no stored event names as its parent.
    pub open spec fn tips_by_law(&self) -> Set<Seq<u8>> {
        Set::new(|h: Seq<u8>| self.contains(h) && !self.is_parent(h))
    }

    /// The ledger's invariant: every event stands beside its identity, no
    /// identity is stored twice, every parent named is the genesis marker or
    /// stored, and every tip is stored. As long as no event has the genesis
    /// marker itself for its identity, the tips are the stored identities
    /// that no event names as its parent.
    pub open spec fn wf(&self) -> bool {
        &&& self.tips_distinct()
        &&& self.spec_hashes().len() == self.spec_events().len()
        &&& self.spec_hashes().no_duplicates()
        &&& forall|i: int|
            0 <= i < self.spec_events().len() ==> #[trigger] self.spec_hashes()[i]
                == spec_identity_hash(self.spec_events()[i])
        &&& forall|i: int|
            0 <= i < self.spec_events().len() ==> (#[trigger] self.spec_events()[i]).prev_hash@
                == ZERO_HASH@ || self.contains(self.spec_events()[i].prev_hash@)
        &&& forall|h: Seq<u8>| #[trigger] self.spec_tips().contains(h) ==> self.contains(h)
        &&& !self.contains(ZERO_HASH@) ==> self.spec_tips() == self.tips_by_law()
    }

    /// An empty ledger.
    pub fn new() -> (ledger: Self)
        ensures
            ledger.wf(),
            ledger.spec_hashes() == Seq::<Seq<u8>>::empty(),
            ledger.spec_events() == Seq::<Event>::empty(),
            ledger.spec_tips() == Set::<Seq<u8>>::empty(),
    {
        let ledger = Ledger { hashes: Vec::new(), events: Vec::new(), tips: Vec::new() };
        proof {
            assert(ledger.spec_hashes() =~= Seq::<Seq<u8>>::empty());
            assert(ledger.spec_tips() =~= Set::<Seq<u8>>::empty());
            assert(ledger.tips_by_law() =~= Set::<Seq<u8>>::empty());
        }
        ledger
    }

    /// The identity hash of an event.
    pub fn hash_event(ev: &Event) -> (h: crate::event::Hash)
        ensures
            h@ == spec_identity_hash(*ev),
    {
        let material = ev.hash_material();
        sha256_bytes(material.as_slice())
    }

    /// A ledger with the same events, identities and tips.
    pub fn duplicate(&self) -> (out: Self)
        ensures
            out@ == self@,
            self.wf() ==> out.wf(),
    {
        let mut out = Ledger {
            hashes: Vec::with_capacity(self.hashes.len()),
            events: Vec::with_capacity(self.events.len()),
            tips: Vec::with_capacity(self.tips.len()),
        };
        let mut i: usize = 0;
        while i < self.hashes.len()
            invariant
                i <= self.hashes@.len(),
                out.hashes@ == self.hashes@.subrange(0, i as int),
                out.events@.len() == 0,
                out.tips@.len() == 0,
            decreases self.hashes@.len() - i,
        {
            out.hashes.push(self.hashes[i]);
            assert(out.hashes@ =~= self.hashes@.subrange(0, i + 1));
            i += 1;
        }
        let mut j: usize = 0;
        while j < self.events.len()
            invariant
                j <= self.events@.len(),
                out.hashes@ == self.hashes@.subrange(0, self.hashes@.len() as int),
                out.events@ == self.events@.subrange(0, j as int),
                out.tips@.len() == 0,
            decreases self.events@.len() - j,
        {
            out.events.push(self.events[j]);
            assert(out.events@ =~= self.events@.subrange(0, j + 1));
            j += 1;
        }
        let mut k: usize = 0;
        while k < self.tips.len()
            invariant
                k <= self.tips@.len(),
                out.hashes@ == self.hashes@.subrange(0, self.hashes@.len() as int),
                out.events@ == self.events@.subrange(0, self.events@.len() as int),
                out.tips@ == self.tips@.subrange(0, k as int),
            decreases self.tips@.len() - k,
        {
            out.tips.push(self.tips[k]);
            assert(out.tips@ =~= self.tips@.subrange(0, k + 1));
            k += 1;
        }
        assert(out.hashes@ =~= self.hashes@);
        assert(out.events@ =~= self.events@);
        assert(out.tips@ =~= self.tips@);
        proof {
            assert(out.spec_events() == self.spec_events());
            assert(out.spec_hashes() == self.spec_hashes());
            assert forall|h: Seq<u8>| out.is_parent(h) == self.is_parent(h) by {
                if self.is_parent(h) {
                    let i = choose|i: int|
                        0 <= i < self.spec_events().len() && (#[trigger] self.spec_events()[i]).prev_hash@
                            == h;
                    assert(out.spec_events()[i].prev_hash@ == h);
                }
                if out.is_parent(h) {
                    let i = choose|i: int|
                        0 <= i < out.spec_events().len() && (#[trigger] out.spec_events()[i]).prev_hash@
                            == h;
                    assert(self.spec_events()[i].prev_hash@ == h);
                }
            }
            assert(out.tips_by_law() =~= self.tips_by_law());
            assert(out.spec_tips() == self.spec_tips());
            assert(out.tips_distinct() == self.tips_distinct());
            if self.wf() {
                assert forall|i: int| 0 <= i < out.spec_events().len() implies (
                #[trigger] out.spec_events()[i]).prev_hash@ == ZERO_HASH@ || out.contains(
                    out.spec_events()[i].prev_hash@,
                ) by {
                    assert(self.spec_events()[i].prev_hash@ == ZERO_HASH@ || self.contains(
                        self.spec_events()[i].prev_hash@,
                    ));
                }
                assert forall|h: Seq<u8>| #[trigger] out.spec_tips().contains(h) implies out.contains(
                    h,
                ) by {
                    assert(self.spec_tips().contains(h));
                }
            }
        }
        out
    }

    /// The number of stored events.
    pub fn len(&self) -> (n: usize)
        ensures
            n == self.spec_events().len(),
    {
        self.events.len()
    }

    /// Links an event. Fails with `Duplicate` where its identity is stored
    /// already, else with `MissingParent` where its parent is neither the
    /// genesis marker nor stored; a failure leaves the ledger as it was.
    /// Otherwise the event is stored, its parent leaves the tip set and its
    /// own identity enters it.
    pub fn try_add_event(&mut self, ev: Event) -> (res: Result<crate::event::Hash, LinkError>)
        requires
            old(self).wf(),
        ensures
            final(self).wf(),
            match link_one(old(self)@, ev) {
                Ok(v) => res.is_ok() && final(self)@ == v,
                Err(e) => res.is_err() && res->Err_0 == e,
            },
            match res {
                Err(LinkError::Duplicate) => {
                    &&& old(self).contains(spec_identity_hash(ev))
                    &&& *final(self) == *old(self)
                },
                Err(LinkError::MissingParent) => {
                    &&& !old(self).contains(spec_identity_hash(ev))
                    &&& ev.prev_hash@ != ZERO_HASH@
                    &&& !old(self).contains(ev.prev_hash@)
                    &&& *final(self) == *old(self)
                },
                Ok(h) => {
                    &&& h@ == spec_identity_hash(ev)
                    &&& !old(self).contains(h@)
                    &&& ev.prev_hash@ == ZERO_HASH@ || old(self).contains(ev.prev_hash@)
                    &&& final(self).spec_hashes() == old(self).spec_hashes().push(h@)
                    &&& final(self).spec_events() == old(self).spec_events().push(ev)
                    &&& final(self).spec_tips() == old(self).spec_tips().remove(
                        ev.prev_hash@,
                    ).insert(h@)
                },
            },
    {
        let h = Ledger::hash_event(&ev);
        if find_hash(&self.hashes, &h).is_some() {
            return Err(LinkError::Duplicate);
        }
        if !hash_eq(&ev.prev_hash, &ZERO_HASH) && find_hash(&self.hashes, &ev.prev_hash).is_none() {
            return Err(LinkError::MissingParent);
        }
        let ghost before = *self;
        let ghost old_hashes = self.spec_hashes();
        let ghost old_events = self.spec_events();
        let ghost old_tips = hashes_view(self.tips@);
        let ghost prev = ev.prev_hash@;
        self.hashes.push(h);
        self.events.push(ev);
        match find_hash(&self.tips, &ev.prev_hash) {
            Some(i) => {
                self.tips.remove(i);
                proof {
                    lemma_remove_distinct(old_tips, i as int);
                    assert(hashes_view(self.tips@) =~= old_tips.remove(i as int));
                }
            },
            None => {},
        }
        let ghost mid_tips = hashes_view(self.tips@);
        proof {
            assert(mid_tips.no_duplicates());
            assert forall|x: Seq<u8>| #[trigger] mid_tips.contains(x) <==> old_tips.contains(x) && x
                != prev by {}
            assert(!old_tips.contains(h@)) by {
                if old_tips.contains(h@) {
                    assert(before.spec_tips().contains(h@));
                }
            }
        }
        self.tips.push(h);
        proof {
            lemma_push_distinct(mid_tips, h@);
            lemma_push_distinct(old_hashes, h@);
            assert(hashes_view(self.tips@) =~= mid_tips.push(h@));
            assert(self.spec_hashes() =~= old_hashes.push(h@));
            assert(self.spec_events() == old_events.push(ev));
            let new_tips = self.spec_tips();
            assert forall|x: Seq<u8>| #[trigger]
                new_tips.contains(x) <==> x == h@ || (old_tips.to_set().contains(x) && x
                != prev) by {
                assert(new_tips.contains(x) <==> hashes_view(self.tips@).contains(x));
                assert(old_tips.to_set().contains(x) <==> old_tips.contains(x));
            }
            assert(new_tips =~= old_tips.to_set().remove(prev).insert(h@));
            assert forall|i: int| 0 <= i < self.spec_events().len() implies (
            #[trigger] self.spec_events()[i]).prev_hash@ == ZERO_HASH@ || self.contains(
                self.spec_events()[i].prev_hash@,
            ) by {
                if i < old_events.len() {
                    assert(old_events[i] == self.spec_events()[i]);
                    assert(old_events[i].prev_hash@ == ZERO_HASH@ || old_hashes.contains(
                        old_events[i].prev_hash@,
                    ));
                }
            }
            assert forall|x: Seq<u8>| #[trigger] new_tips.contains(x) implies self.contains(x) by {
                if x != h@ {
                    assert(before.spec_tips().contains(x));
                    assert(old_hashes.contains(x));
                }
            }
            if !self.contains(ZERO_HASH@) {
                assert(!old_hashes.contains(ZERO_HASH@));
                let law = self.tips_by_law();
                let old_law = Set::new(
                    |y: Seq<u8>|
                        old_hashes.contains(y) && !(y != ZERO_HASH@ && exists|i: int|
                            0 <= i < old_events.len() && (#[trigger] old_events[i]).prev_hash@
                                == y),
                );
                assert(old_tips.to_set() == old_law);
                assert forall|x: Seq<u8>| new_tips.contains(x) <==> law.contains(x) by {
                    if x == h@ {
                        if self.is_parent(x) {
                            let i = choose|i: int|
                                0 <= i < self.spec_events().len() && (
                                #[trigger] self.spec_events()[i]).prev_hash@ == x;
                            if i < old_events.len() {
                                assert(old_events[i] == self.spec_events()[i]);
                                assert(old_hashes.contains(old_events[i].prev_hash@));
                            }
                        }
                    } else {
                        if old_tips.to_set().contains(x) && x != prev {
                            assert(old_law.contains(x));
                            if self.is_parent(x) {
                                let i = choose|i: int|
                                    0 <= i < self.spec_events().len() && (
                                    #[trigger] self.spec_events()[i]).prev_hash@ == x;
                                assert(i < old_events.len());
                                assert(old_events[i] == self.spec_events()[i]);
                            }
                        }
                        if law.contains(x) {
                            assert(old_hashes.contains(x));
                            assert(x != prev) by {
                                if x == prev {
                                    assert(self.spec_events()[old_events.len() as int].prev_hash@
                                        == x);
                                }
                            }
                            if !old_law.contains(x) {
                                let i = choose|i: int|
                                    0 <= i < old_events.len() && (
                                    #[trigger] old_events[i]).prev_hash@ == x;
                                assert(old_events[i] == self.spec_events()[i]);
                            }
                        }
                    }
                }
                assert(new_tips =~= law);
            }
        }
        Ok(h)
    }

    /// The event stored under `h`, if any.
    pub fn get_event(&self, h: &crate::event::Hash) -> (found: Option<Event>)
        requires
            self.wf(),
        ensures
            found == self.spec_get(h@),
    {
        match find_hash(&self.hashes, h) {
            Some(i) => {
                assert(self.spec_hashes()[i as int] == h@);
                assert(self.spec_hashes().contains(h@));
                Some(self.events[i])
            },
            None => None,
        }
    }

    /// A snapshot of the tip set, each tip once.
    pub fn tips(&self) -> (out: Vec<crate::event::Hash>)
        requires
            self.wf(),
        ensures
            hashes_view(out@).to_set() == self.spec_tips(),
            hashes_view(out@).no_duplicates(),
    {
        let mut out: Vec<crate::event::Hash> = Vec::with_capacity(self.tips.len());
        let mut j: usize = 0;
        while j < self.tips.len()
            invariant
                j <= self.tips@.len(),
                out@ == self.tips@.subrange(0, j as int),
            decreases self.tips@.len() - j,
        {
            out.push(self.tips[j]);
            assert(out@ =~= self.tips@.subrange(0, j + 1));
            j += 1;
        }
        assert(out@ =~= self.tips@);
        out
    }

    /// The Merkle root over the stored identities: absent exactly when the
    /// ledger is empty.
    pub fn merkle_root(&self) -> (root: Option<crate::event::Hash>)
        ensures
            root.is_none() <==> self.spec_hashes().len() == 0,
            root.is_some() ==> Some(root.unwrap()@) == spec_merkle_root(self.spec_hashes()),
    {
        merkle_root(&self.hashes)
    }

    /// Every parent that a stored event names is the genesis marker or is
    /// itself stored.
    pub proof fn lemma_parent_closure(&self, i: int)
        requires
            self.wf(),
            0 <= i < self.spec_events().len(),
        ensures
            self.spec_events()[i].prev_hash@ == ZERO_HASH@ || self.contains(
                self.spec_events()[i].prev_hash@,
            ),
    {
    }

    /// The tip set is the set of stored identities less the parents that
    /// stored events name, the genesis marker not counted among them. This
    /// holds as long as no stored event has the genesis marker itself for
    /// its identity.
    pub proof fn lemma_tip_set_law(&self)
        requires
            self.wf(),
            !self.contains(ZERO_HASH@),
        ensures
            self.spec_tips() == self.spec_hashes().to_set().difference(
                Set::new(|h: Seq<u8>| self.is_parent(h)),
            ),
    {
        assert(self.tips_by_law() =~= self.spec_hashes().to_set().difference(
            Set::new(|h: Seq<u8>| self.is_parent(h)),
        ));
    }

    /// Two ledgers that store the same identities have the same Merkle
    /// root, in whatever order the events were linked.
    pub proof fn lemma_merkle_root_deterministic(&self, other: &Ledger)
        requires
            self.wf(),
            other.wf(),
            self.spec_hashes().to_set() == other.spec_hashes().to_set(),
        ensures
            spec_merkle_root(self.spec_hashes()) == spec_merkle_root(other.spec_hashes()),
    {
        lemma_merkle_root_of_same_set(self.spec_hashes(), other.spec_hashes());
    }
}

} // verus!
