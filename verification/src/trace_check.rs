//! Deterministic replay of a recorded execution: every row is parsed,
//! validated, linked and observed again, and what the row declares is held
//! against what the replay finds.
use vstd::prelude::*;
use vstd::utf8::encode_utf8;
use crate::event::{hash_eq, Event, PublicKey, Signature, ZERO_HASH};
use crate::ledger::{spec_identity_hash, Ledger, LinkError};
use crate::merkle::spec_merkle_root;
use crate::scoring::{observes, EquivocationPolicy, SybilConfig, SybilOverlay};
use crate::storage::option_bytes;
use crate::text::{array_from_slice, hex_value};
use crate::validation::{last_timestamp_of, signature_holds, validate_for_author};
use crate::validation::{validation_verdict, with_timestamp, AuthorContext, ValidationError};
use crate::PROTOCOL_VERSION;

verus! {

#[derive(Debug)]
pub struct TraceHeader {
    pub protocol_version: u8,
    pub max_backward_skew: u64,
    pub max_pending_total: u64,
    pub max_drain_steps: u64,
    pub sybil_config: SybilConfigSerde,
    pub final_merkle_root: Option<String>,
    pub sources: Vec<String>,
}

#[derive(Debug, Clone, Copy)]
pub struct SybilConfigSerde {
    pub warmup_ticks: u64,
    pub quarantine_ticks: u64,
    pub fixed_point_scale: u64,
    pub max_link_walk: usize,
}

#[derive(Debug)]
pub struct TraceRowSerde {
    pub node_id: u32,
    pub row_index: usize,
    pub prev_hash: String,
    pub author: String,
    pub timestamp: u64,
    pub payload_hash: String,
    pub signature: String,
    pub parent_present: bool,
    pub ancestor_check: bool,
    pub quarantined_until_before: u64,
    pub quarantined_until_after: u64,
    pub merkle_root: Option<String>,
    pub merkle_root_has: bool,
    pub preferred_tip: Option<String>,
    pub preferred_tip_has: bool,
    pub author_weight_fp: u64,
}

#[derive(Debug)]
pub struct TraceDoc {
    pub header: TraceHeader,
    pub rows: Vec<TraceRowSerde>,
}

/// Which invariant a row broke.
#[derive(Debug, Clone, Copy, PartialEq, Eq, Structural)]
pub enum TraceErrorKind {
    /// A field of the row is no hexadecimal text of the right length.
    Parse,
    /// The row declares its parent present, and the ledger lacks it.
    ParentUnknown,
    /// The row declares its parent absent, and the ledger has it.
    ParentKnown,
    Validate(ValidationError),
    Link(LinkError),
    /// The quarantine window that the row declares is too short.
    QuarantineTooSmall { before: u64, after: u64 },
    /// The declared weight passes the scale.
    WeightOutOfBounds,
    /// The declared weight is not 0 during quarantine.
    WeightNotZero,
    /// The declared Merkle root is not the ledger's.
    MerkleRootMismatch,
    /// The header's final Merkle root is not the last one computed.
    FinalMerkleRootMismatch,
}

/// The first violation found. For the header's final Merkle root the row
/// index is the number of rows.
#[derive(Debug, Clone, Copy, PartialEq, Eq, Structural)]
pub struct TraceError {
    pub row_index: usize,
    pub kind: TraceErrorKind,
}

/// What the replay has built up.
pub struct TraceState {
    pub ledger: Ledger,
    pub overlay: SybilOverlay,
    pub contexts: Vec<AuthorContext>,
    pub last_root: Option<crate::event::Hash>,
}

/// The part of the replay's state that its verdicts depend on: the
/// identities linked so far, the last timestamp of each author seen, and the
/// last Merkle root computed.
pub struct TraceStateView {
    pub stored: Seq<Seq<u8>>,
    pub contexts: Seq<AuthorContext>,
    pub last_root: Option<Seq<u8>>,
}

/// What a row declares, its texts as bytes.
pub struct RowView {
    pub prev_hash: Seq<u8>,
    pub author: Seq<u8>,
    pub timestamp: u64,
    pub payload_hash: Seq<u8>,
    pub signature: Seq<u8>,
    pub parent_present: bool,
    pub ancestor_check: bool,
    pub quarantined_until_before: u64,
    pub quarantined_until_after: u64,
    pub merkle_root: Option<Seq<u8>>,
    pub author_weight_fp: u64,
}

impl View for TraceRowSerde {
    type V = RowView;

    open spec fn view(&self) -> RowView {
        RowView {
            prev_hash: encode_utf8(self.prev_hash@),
            author: encode_utf8(self.author@),
            timestamp: self.timestamp,
            payload_hash: encode_utf8(self.payload_hash@),
            signature: encode_utf8(self.signature@),
            parent_present: self.parent_present,
            ancestor_check: self.ancestor_check,
            quarantined_until_before: self.quarantined_until_before,
            quarantined_until_after: self.quarantined_until_after,
            merkle_root: match self.merkle_root {
                Some(s) => Some(encode_utf8(s@)),
                None => None,
            },
            author_weight_fp: self.author_weight_fp,
        }
    }
}

impl View for TraceState {
    type V = TraceStateView;

    open spec fn view(&self) -> TraceStateView {
        TraceStateView {
            stored: self.ledger.spec_hashes(),
            contexts: self.contexts@,
            last_root: option_bytes(self.last_root),
        }
    }
}

/// The byte that two characters of a row's hexadecimal text stand for:
/// two hexadecimal digits of either case, or `+` and one such digit.
pub open spec fn spec_hex_pair(a: u8, b: u8) -> Option<u8> {
    if a == 43 {
        hex_value(b)
    } else {
        match (hex_value(a), hex_value(b)) {
            (Some(x), Some(y)) => Some((x * 16 + y) as u8),
            _ => None,
        }
    }
}

/// The `n` bytes that a text of `2n` characters stands for.
pub open spec fn spec_hex_fixed(text: Seq<u8>, n: nat) -> Option<Seq<u8>> {
    if text.len() == 2 * n && (forall|i: int|
        0 <= i < n ==> (#[trigger] spec_hex_pair(text[2 * i], text[2 * i + 1])).is_some()) {
        Some(Seq::new(n, |i: int| spec_hex_pair(text[2 * i], text[2 * i + 1]).unwrap()))
    } else {
        None
    }
}

/// Whether `ev` is the event that the row describes.
pub open spec fn is_row_event(row: RowView, ev: Event) -> bool {
    &&& ev.version == PROTOCOL_VERSION
    &&& Some(ev.prev_hash@) == spec_hex_fixed(row.prev_hash, 32)
    &&& Some(ev.author@) == spec_hex_fixed(row.author, 32)
    &&& ev.timestamp == row.timestamp
    &&& Some(ev.payload_hash@) == spec_hex_fixed(row.payload_hash, 32)
    &&& Some(ev.signature@) == spec_hex_fixed(row.signature, 64)
}

/// Whether the row describes an event at all.
pub open spec fn row_parses(row: RowView) -> bool {
    &&& spec_hex_fixed(row.prev_hash, 32).is_some()
    &&& spec_hex_fixed(row.author, 32).is_some()
    &&& spec_hex_fixed(row.payload_hash, 32).is_some()
    &&& spec_hex_fixed(row.signature, 64).is_some()
}

/// What the replay of one row gives: the state after it, or the first
/// invariant that the row breaks. The checks come in this order: the row
/// parses; its `parent_present` agrees with the ledger; the event validates
/// against its author's context; it links; the declared quarantine window
/// is long enough unless the row is on an ancestor path; the declared weight
/// is within the scale, and 0 during quarantine; the declared Merkle root,
/// where it is given and parses, is the ledger's.
pub open spec fn spec_check_row(
    st: TraceStateView,
    config: SybilConfig,
    row: RowView,
    ev: Event,
    index: usize,
) -> Result<TraceStateView, TraceError> {
    let parent_zero = ev.prev_hash@ == ZERO_HASH@;
    let parent_known = st.stored.contains(ev.prev_hash@);
    let verdict = validation_verdict(
        ev,
        last_timestamp_of(st.contexts, ev.author@),
        signature_holds(ev),
    );
    let h = spec_identity_hash(ev);
    let stored = st.stored.push(h);
    let root = spec_merkle_root(stored);
    if !parent_zero && !parent_known && row.parent_present {
        Err(TraceError { row_index: index, kind: TraceErrorKind::ParentUnknown })
    } else if !parent_zero && parent_known && !row.parent_present {
        Err(TraceError { row_index: index, kind: TraceErrorKind::ParentKnown })
    } else if verdict.is_err() {
        Err(TraceError { row_index: index, kind: TraceErrorKind::Validate(verdict->Err_0) })
    } else if st.stored.contains(h) {
        Err(TraceError { row_index: index, kind: TraceErrorKind::Link(LinkError::Duplicate) })
    } else if !parent_zero && !parent_known {
        Err(TraceError { row_index: index, kind: TraceErrorKind::Link(LinkError::MissingParent) })
    } else if !row.ancestor_check && row.quarantined_until_after < row.quarantined_until_before
        + config.quarantine_ticks {
        Err(
            TraceError {
                row_index: index,
                kind: TraceErrorKind::QuarantineTooSmall {
                    before: row.quarantined_until_before,
                    after: row.quarantined_until_after,
                },
            },
        )
    } else if row.author_weight_fp > config.fixed_point_scale {
        Err(TraceError { row_index: index, kind: TraceErrorKind::WeightOutOfBounds })
    } else if row.timestamp < row.quarantined_until_after && row.author_weight_fp != 0 {
        Err(TraceError { row_index: index, kind: TraceErrorKind::WeightNotZero })
    } else if row.merkle_root.is_some() && spec_hex_fixed(row.merkle_root.unwrap(), 32).is_some()
        && spec_hex_fixed(row.merkle_root.unwrap(), 32) != root {
        Err(TraceError { row_index: index, kind: TraceErrorKind::MerkleRootMismatch })
    } else {
        Ok(
            TraceStateView {
                stored,
                contexts: with_timestamp(st.contexts, ev.author, ev.timestamp),
                last_root: root,
            },
        )
    }
}

/// Whether the header's final Merkle root, where it is given and parses,
/// differs from the last root computed, where there is one.
pub open spec fn final_root_differs(expected: Option<Seq<u8>>, last_root: Option<Seq<u8>>) -> bool {
    expected.is_some() && last_root.is_some() && spec_hex_fixed(expected.unwrap(), 32).is_some()
        && spec_hex_fixed(expected.unwrap(), 32) != last_root
}

impl From<SybilConfigSerde> for SybilConfig {
    fn from(s: SybilConfigSerde) -> (config: Self) {
        SybilConfig {
            warmup_ticks: s.warmup_ticks,
            quarantine_ticks: s.quarantine_ticks,
            policy: EquivocationPolicy::Quarantine,
            fixed_point_scale: s.fixed_point_scale,
            max_link_walk: s.max_link_walk,
        }
    }
}

impl vstd::std_specs::convert::FromSpecImpl<SybilConfigSerde> for SybilConfig {
    open spec fn obeys_from_spec() -> bool {
        true
    }

    open spec fn from_spec(s: SybilConfigSerde) -> SybilConfig {
        spec_config(s)
    }
}

/// The value of a hexadecimal digit of either case.
pub fn hex_digit_value(c: u8) -> (v: Option<u8>)
    ensures
        v == hex_value(c),
{
    if 48 <= c && c <= 57 {
        Some(c - 48)
    } else if 97 <= c && c <= 102 {
        Some(c - 87)
    } else if 65 <= c && c <= 70 {
        Some(c - 55)
    } else {
        None
    }
}

/// The byte that two characters stand for.
pub fn hex_pair(a: u8, b: u8) -> (v: Option<u8>)
    ensures
        v == spec_hex_pair(a, b),
{
    if a == 43 {
        return hex_digit_value(b);
    }
    match (hex_digit_value(a), hex_digit_value(b)) {
        (Some(x), Some(y)) => Some(x * 16 + y),
        _ => None,
    }
}

/// Reads `N` bytes from a text of `2N` characters.
pub fn hex_fixed<const N: usize>(text: &[u8]) -> (out: Option<[u8; N]>)
    ensures
        option_bytes(out) == spec_hex_fixed(text@, N as nat),
{
    if text.len() % 2 != 0 || text.len() / 2 != N {
        return None;
    }
    let mut bytes: Vec<u8> = Vec::with_capacity(N);
    let mut i: usize = 0;
    while i < N
        invariant
            text@.len() == 2 * N,
            2 * N <= usize::MAX,
            i <= N,
            bytes@.len() == i,
            forall|k: int|
                0 <= k < i ==> (#[trigger] spec_hex_pair(text@[2 * k], text@[2 * k + 1])) == Some(
                    bytes@[k],
                ),
        decreases N - i,
    {
        match hex_pair(text[2 * i], text[2 * i + 1]) {
            Some(b) => {
                bytes.push(b);
            },
            None => {
                return None;
            },
        }
        i += 1;
    }
    let out = array_from_slice::<N>(bytes.as_slice());
    proof {
        assert(out.unwrap()@ =~= spec_hex_fixed(text@, N as nat).unwrap());
    }
    out
}

/// Reads a 32-byte value from 64 characters.
pub fn hex32(s: &str) -> (out: Option<crate::event::Hash>)
    ensures
        option_bytes(out) == spec_hex_fixed(encode_utf8(s@), 32),
{
    hex_fixed::<32>(s.as_bytes())
}

/// Reads a 64-byte value from 128 characters.
pub fn hex64(s: &str) -> (out: Option<Signature>)
    ensures
        option_bytes(out) == spec_hex_fixed(encode_utf8(s@), 64),
{
    hex_fixed::<64>(s.as_bytes())
}

/// The event that a row describes, if its texts parse.
pub fn parse_row(row: &TraceRowSerde) -> (out: Option<Event>)
    ensures
        out.is_some() == row_parses(row@),
        out.is_some() ==> is_row_event(row@, out.unwrap()),
{
    let prev_hash = match hex32(row.prev_hash.as_str()) {
        Some(h) => h,
        None => {
            return None;
        },
    };
    let author = match hex32(row.author.as_str()) {
        Some(h) => h,
        None => {
            return None;
        },
    };
    let payload_hash = match hex32(row.payload_hash.as_str()) {
        Some(h) => h,
        None => {
            return None;
        },
    };
    let signature = match hex64(row.signature.as_str()) {
        Some(h) => h,
        None => {
            return None;
        },
    };
    Some(
        Event::from_raw(PROTOCOL_VERSION, prev_hash, author, row.timestamp, payload_hash, signature),
    )
}

impl TraceState {
    /// The replay's invariant: the ledger and the overlay are valid.
    pub open spec fn wf(&self) -> bool {
        self.ledger.wf() && self.overlay.wf()
    }

    /// The state before the first row.
    pub fn new(config: SybilConfig) -> (st: Self)
        ensures
            st.wf(),
            st.overlay.config == config,
            st@ == initial_view(),
    {
        TraceState {
            ledger: Ledger::new(),
            overlay: SybilOverlay::new(config),
            contexts: Vec::new(),
            last_root: None,
        }
    }

    /// Replays one row that parsed to `ev`: the state moves on as
    /// `spec_check_row` says and the overlay observes the event at the row's
    /// timestamp, or the row's first violation is returned.
    pub fn check_row(&mut self, row: &TraceRowSerde, ev: &Event, index: usize) -> (res: Result<
        (),
        TraceError,
    >)
        requires
            old(self).wf(),
        ensures
            final(self).wf(),
            final(self).overlay.config == old(self).overlay.config,
            res.is_ok() ==> observes(
                old(self).overlay,
                final(self).overlay,
                ev.author,
                ev.prev_hash@,
                spec_identity_hash(*ev),
                row.timestamp,
            ),
            match spec_check_row(old(self)@, old(self).overlay.config, row@, *ev, index) {
                Ok(v) => res.is_ok() && final(self)@ == v,
                Err(e) => res == Err::<(), TraceError>(e),
            },
    {
        let config = self.overlay.config;
        let parent_is_zero = hash_eq(&ev.prev_hash, &ZERO_HASH);
        let parent_known = self.ledger.get_event(&ev.prev_hash).is_some();
        if !parent_is_zero && !parent_known && row.parent_present {
            return Err(TraceError { row_index: index, kind: TraceErrorKind::ParentUnknown });
        }
        if !parent_is_zero && parent_known && !row.parent_present {
            return Err(TraceError { row_index: index, kind: TraceErrorKind::ParentKnown });
        }
        match validate_for_author(&mut self.contexts, ev) {
            Ok(_) => {},
            Err(e) => {
                return Err(TraceError { row_index: index, kind: TraceErrorKind::Validate(e) });
            },
        }
        let h = match self.ledger.try_add_event(*ev) {
            Ok(h) => h,
            Err(e) => {
                return Err(TraceError { row_index: index, kind: TraceErrorKind::Link(e) });
            },
        };
        self.overlay.observe_event(&self.ledger, row.timestamp, row.node_id, ev, h);
        let root = self.ledger.merkle_root();
        self.last_root = root;
        if !row.ancestor_check && (row.quarantined_until_after < row.quarantined_until_before
            || row.quarantined_until_after - row.quarantined_until_before
            < config.quarantine_ticks) {
            return Err(
                TraceError {
                    row_index: index,
                    kind: TraceErrorKind::QuarantineTooSmall {
                        before: row.quarantined_until_before,
                        after: row.quarantined_until_after,
                    },
                },
            );
        }
        if row.author_weight_fp > config.fixed_point_scale {
            return Err(TraceError { row_index: index, kind: TraceErrorKind::WeightOutOfBounds });
        }
        if row.timestamp < row.quarantined_until_after && row.author_weight_fp != 0 {
            return Err(TraceError { row_index: index, kind: TraceErrorKind::WeightNotZero });
        }
        match (&row.merkle_root, &root) {
            (Some(text), Some(r)) => {
                match hex32(text.as_str()) {
                    Some(declared) => {
                        if !hash_eq(&declared, r) {
                            return Err(
                                TraceError {
                                    row_index: index,
                                    kind: TraceErrorKind::MerkleRootMismatch,
                                },
                            );
                        }
                    },
                    None => {},
                }
            },
            _ => {},
        }
        Ok(())
    }
}

/// The state after the rows from `from` on, or the first violation.
pub open spec fn spec_check_rows(
    st: TraceStateView,
    config: SybilConfig,
    rows: Seq<TraceRowSerde>,
    from: int,
) -> Result<TraceStateView, TraceError>
    decreases rows.len() - from,
{
    if from < 0 || from >= rows.len() {
        Ok(st)
    } else if !row_parses(rows[from]@) {
        Err(TraceError { row_index: from as usize, kind: TraceErrorKind::Parse })
    } else {
        let ev = choose|ev: Event| is_row_event(rows[from]@, ev);
        match spec_check_row(st, config, rows[from]@, ev, from as usize) {
            Ok(next) => spec_check_rows(next, config, rows, from + 1),
            Err(e) => Err(e),
        }
    }
}

/// The overlay's configuration that a header gives.
pub open spec fn spec_config(s: SybilConfigSerde) -> SybilConfig {
    SybilConfig {
        warmup_ticks: s.warmup_ticks,
        quarantine_ticks: s.quarantine_ticks,
        policy: EquivocationPolicy::Quarantine,
        fixed_point_scale: s.fixed_point_scale,
        max_link_walk: s.max_link_walk,
    }
}

/// The replay's state before the first row.
pub open spec fn initial_view() -> TraceStateView {
    TraceStateView { stored: Seq::empty(), contexts: Seq::empty(), last_root: None }
}

/// The verdict on a whole trace.
pub open spec fn spec_check_trace(doc: TraceDoc) -> Result<(), TraceError> {
    let config = spec_config(doc.header.sybil_config);
    match spec_check_rows(initial_view(), config, doc.rows@, 0) {
        Err(e) => Err(e),
        Ok(st) => if final_root_differs(
            match doc.header.final_merkle_root {
                Some(s) => Some(encode_utf8(s@)),
                None => None,
            },
            st.last_root,
        ) {
            Err(
                TraceError {
                    row_index: doc.rows@.len() as usize,
                    kind: TraceErrorKind::FinalMerkleRootMismatch,
                },
            )
        } else {
            Ok(())
        },
    }
}

/// An event is what a row describes in one way only.
pub proof fn lemma_row_event_unique(row: RowView, a: Event, b: Event)
    requires
        is_row_event(row, a),
        is_row_event(row, b),
    ensures
        a == b,
{
    assert(a.prev_hash =~= b.prev_hash);
    assert(a.author =~= b.author);
    assert(a.payload_hash =~= b.payload_hash);
    assert(a.signature =~= b.signature);
}

/// Checks the trace deterministically: `Ok` where every row holds, else
/// the first violation.
pub fn check_trace(doc: TraceDoc) -> (res: Result<(), TraceError>)
    ensures
        res == spec_check_trace(doc),
{
    let config = SybilConfig::from(doc.header.sybil_config);
    let mut st = TraceState::new(config);
    let mut i: usize = 0;
    while i < doc.rows.len()
        invariant
            i <= doc.rows@.len(),
            st.wf(),
            st.overlay.config == config,
            config == spec_config(doc.header.sybil_config),
            spec_check_rows(initial_view(), config, doc.rows@, 0) == spec_check_rows(
                st@,
                config,
                doc.rows@,
                i as int,
            ),
        decreases doc.rows@.len() - i,
    {
        let row = &doc.rows[i];
        let ev = match parse_row(row) {
            Some(ev) => ev,
            None => {
                return Err(TraceError { row_index: i, kind: TraceErrorKind::Parse });
            },
        };
        proof {
            let chosen = choose|e: Event| is_row_event(row@, e);
            lemma_row_event_unique(row@, ev, chosen);
        }
        match st.check_row(row, &ev, i) {
            Ok(_) => {},
            Err(e) => {
                return Err(e);
            },
        }
        i += 1;
    }
    match (&doc.header.final_merkle_root, &st.last_root) {
        (Some(text), Some(last)) => {
            match hex32(text.as_str()) {
                Some(expected) => {
                    if !hash_eq(&expected, last) {
                        return Err(
                            TraceError {
                                row_index: doc.rows.len(),
                                kind: TraceErrorKind::FinalMerkleRootMismatch,
                            },
                        );
                    }
                },
                None => {},
            }
        },
        _ => {},
    }
    Ok(())
}

} // verus!
