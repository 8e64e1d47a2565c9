//! The bounded semantic history of one studio run: observed text, signals
//! and events grouped into conversation turns.
use vstd::prelude::*;
use vstd::string::StringSliceAdditionalSpecFns;

use crate::registry::str_equal;
use crate::string_set::StringSet;
use crate::managed_stream::bounded_bytes;
use crate::studio::{ends_with_bytes, is_turn_start, truncate, turn_label, turn_start_name};
use crate::text::{decimal_digits, push_char, u64_decimal};

verus! {

/// The most entries one session records.
pub const MAX_ENTRIES: u64 = 10000;

/// The most entry payload bytes one session records.
pub const MAX_SESSION_PAYLOAD_BYTES: usize = 4194304;

/// The largest payload kept whole; a longer one is replaced by a preview.
pub const MAX_PAYLOAD_BYTES: usize = 4096;

/// The most bytes of a binary payload shown as hexadecimal.
pub const PREVIEW_BYTES: usize = 32;

/// One observed text, signal or event. `payload` is its JSON text.
#[derive(Clone, Debug)]
pub struct TraceEntry {
    pub ordinal: u64,
    pub elapsed_ms: u64,
    pub kind: String,
    pub direction: String,
    pub node_id: String,
    pub port: Option<String>,
    pub name: String,
    pub summary: String,
    pub payload: String,
    pub payload_truncated: bool,
    pub frame_id: String,
    pub sequence: u64,
    pub stream_id: String,
    pub trace_id: String,
}

/// One conversation turn and the entries that belong to it.
#[derive(Clone, Debug)]
pub struct TurnTrace {
    pub id: String,
    pub ordinal: u64,
    pub label: String,
    pub started_ms: u64,
    pub entries: Vec<TraceEntry>,
}

/// The abstract content of a turn.
pub struct TurnView {
    pub id: Seq<char>,
    pub ordinal: u64,
    pub label: Seq<char>,
    pub started_ms: u64,
    pub entries: Seq<TraceEntry>,
}

impl View for TurnTrace {
    type V = TurnView;

    open spec fn view(&self) -> TurnView {
        TurnView {
            id: self.id@,
            ordinal: self.ordinal,
            label: self.label@,
            started_ms: self.started_ms,
            entries: self.entries@,
        }
    }
}

/// Whether a session is still recording.
#[derive(Clone, Copy, Debug, PartialEq, Eq, Structural)]
pub enum TraceStatus {
    Running,
    Completed,
}

impl TraceStatus {
    /// The status as the studio reports it.
    pub fn as_str(self) -> (r: &'static str)
        ensures
            r@ == match self {
                TraceStatus::Running => "running"@,
                TraceStatus::Completed => "completed"@,
            },
    {
        match self {
            TraceStatus::Running => "running",
            TraceStatus::Completed => "completed",
        }
    }
}

/// The semantic history of one run.
#[derive(Debug)]
pub struct TraceSession {
    run_id: String,
    status: TraceStatus,
    next_entry: u64,
    next_turn: u64,
    payload_bytes: usize,
    dropped_entries: u64,
    truncated: bool,
    turn_markers: StringSet,
    turns: Vec<TurnTrace>,
}

/// The abstract content of a session.
pub struct TraceSessionView {
    pub run_id: Seq<char>,
    pub status: TraceStatus,
    pub next_entry: u64,
    pub next_turn: u64,
    pub payload_bytes: usize,
    pub dropped_entries: u64,
    pub truncated: bool,
    pub markers: Set<Seq<char>>,
    pub turns: Seq<TurnView>,
}

/// The views of a sequence of turns.
pub open spec fn turn_views(ts: Seq<TurnTrace>) -> Seq<TurnView> {
    ts.map_values(|t: TurnTrace| t@)
}

impl View for TraceSession {
    type V = TraceSessionView;

    closed spec fn view(&self) -> TraceSessionView {
        TraceSessionView {
            run_id: self.run_id@,
            status: self.status,
            next_entry: self.next_entry,
            next_turn: self.next_turn,
            payload_bytes: self.payload_bytes,
            dropped_entries: self.dropped_entries,
            truncated: self.truncated,
            markers: self.turn_markers@.to_set(),
            turns: turn_views(self.turns@),
        }
    }
}

/// The number of entries held by the first `n` turns.
pub open spec fn entries_in(turns: Seq<TurnView>, n: int) -> int
    decreases n,
{
    if n <= 0 {
        0
    } else {
        entries_in(turns, n - 1) + turns[n - 1].entries.len()
    }
}

/// The number of entries held by all turns.
pub open spec fn total_entries(turns: Seq<TurnView>) -> int {
    entries_in(turns, turns.len() as int)
}

/// A consistent session: one turn per opened turn number, every recorded
/// entry held by exactly one turn, and no more entries than the bound.
pub open spec fn session_wf(v: TraceSessionView) -> bool {
    &&& v.next_turn == v.turns.len()
    &&& v.turns.len() <= v.next_entry
    &&& v.next_entry <= MAX_ENTRIES
    &&& total_entries(v.turns) == v.next_entry
}

/// Whether the session still records entries.
pub open spec fn accepts(v: TraceSessionView) -> bool {
    v.next_entry < MAX_ENTRIES && v.payload_bytes < MAX_SESSION_PAYLOAD_BYTES
}

/// The label a turn opened by signal `name` gets.
pub open spec fn turn_label_of(name: Seq<char>) -> Seq<char> {
    if ends_with_bytes(name, ".speech.started"@) {
        "Speech turn"@
    } else {
        "Turn"@
    }
}

/// Where the entries of the last turn split when `e` opens a new turn: just
/// after the last of the first `n` entries that has neither the sequence
/// number nor the trace of `e`, or at the start when there is none. Entries
/// after the split belong to the boundary of the new turn and move with it.
pub open spec fn split_point(es: Seq<TraceEntry>, e: TraceEntry, n: int) -> int
    decreases n,
{
    if n <= 0 {
        0
    } else if es[n - 1].sequence != e.sequence && es[n - 1].trace_id@ != e.trace_id@ {
        n
    } else {
        split_point(es, e, n - 1)
    }
}

/// The turn numbered `n`.
pub open spec fn turn_id(n: nat) -> Seq<char> {
    "turn-"@ + decimal_digits(n)
}

/// The turn a new marker opens: the first turn takes the label when it is
/// still the unlabelled session flow; otherwise a new turn starts and takes
/// the trailing boundary entries of the last turn with it.
pub open spec fn open_turn(v: TraceSessionView, e: TraceEntry, marker: Seq<char>) -> TraceSessionView {
    let marked = TraceSessionView { markers: v.markers.insert(marker), ..v };
    if v.turns.len() == 1 && v.turns[0].label == "Session flow"@ {
        TraceSessionView {
            turns: v.turns.update(0, TurnView { label: turn_label_of(e.name@), ..v.turns[0] }),
            ..marked
        }
    } else {
        let n = v.next_turn + 1;
        let kept = if v.turns.len() == 0 {
            v.turns
        } else {
            let last = v.turns.last();
            let k = split_point(last.entries, e, last.entries.len() as int);
            v.turns.drop_last().push(TurnView { entries: last.entries.take(k), ..last })
        };
        let carried = if v.turns.len() == 0 {
            Seq::<TraceEntry>::empty()
        } else {
            let last = v.turns.last();
            last.entries.skip(split_point(last.entries, e, last.entries.len() as int))
        };
        let started = if carried.len() > 0 {
            carried[0].elapsed_ms
        } else {
            e.elapsed_ms
        };
        TraceSessionView {
            next_turn: n as u64,
            turns: kept.push(
                TurnView {
                    id: turn_id(n as nat),
                    ordinal: n as u64,
                    label: turn_label_of(e.name@),
                    started_ms: started,
                    entries: carried,
                },
            ),
            ..marked
        }
    }
}

/// The first turn, opened for the first entry of a session without a marker.
pub open spec fn ensure_turn(v: TraceSessionView, e: TraceEntry) -> TraceSessionView {
    if v.turns.len() == 0 {
        TraceSessionView {
            next_turn: 1,
            turns: seq![
                TurnView {
                    id: "turn-1"@,
                    ordinal: 1,
                    label: "Session flow"@,
                    started_ms: e.elapsed_ms,
                    entries: Seq::empty(),
                },
            ],
            ..v
        }
    } else {
        v
    }
}

/// `e`, numbered and appended to the current turn.
pub open spec fn record_entry(v: TraceSessionView, e: TraceEntry) -> TraceSessionView {
    let n = (v.next_entry + 1) as u64;
    let grown = v.payload_bytes + vstd::utf8::encode_utf8(e.payload@).len();
    let last = v.turns.last();
    TraceSessionView {
        next_entry: n,
        payload_bytes: if grown > usize::MAX {
            usize::MAX
        } else {
            grown as usize
        },
        turns: v.turns.update(
            v.turns.len() - 1,
            TurnView { entries: last.entries.push(TraceEntry { ordinal: n, ..e }), ..last },
        ),
        ..v
    }
}

/// The text of an optional marker.
pub open spec fn marker_view(marker: Option<String>) -> Option<Seq<char>> {
    match marker {
        Some(m) => Some(m@),
        None => None,
    }
}

/// The session after `e` is appended, opening a turn for a marker not seen
/// before. A full session only counts the dropped entry.
pub open spec fn appended(v: TraceSessionView, e: TraceEntry, marker: Option<Seq<char>>) -> TraceSessionView {
    if !accepts(v) {
        TraceSessionView {
            dropped_entries: if v.dropped_entries == u64::MAX {
                u64::MAX
            } else {
                (v.dropped_entries + 1) as u64
            },
            truncated: true,
            ..v
        }
    } else {
        let opened = match marker {
            Some(m) => if v.markers.contains(m) {
                v
            } else {
                open_turn(v, e, m)
            },
            None => v,
        };
        record_entry(ensure_turn(opened, e), e)
    }
}

proof fn lemma_entries_prefix(turns: Seq<TurnView>, other: Seq<TurnView>, n: int)
    requires
        0 <= n <= turns.len(),
        n <= other.len(),
        forall|i: int| 0 <= i < n ==> (#[trigger] turns[i]).entries.len() == other[i].entries.len(),
    ensures
        entries_in(turns, n) == entries_in(other, n),
    decreases n,
{
    if n > 0 {
        lemma_entries_prefix(turns, other, n - 1);
    }
}

proof fn lemma_entries_nonneg(turns: Seq<TurnView>, n: int)
    ensures
        entries_in(turns, n) >= 0,
    decreases n,
{
    if n > 0 {
        lemma_entries_nonneg(turns, n - 1);
    }
}

proof fn lemma_split_bounds(es: Seq<TraceEntry>, e: TraceEntry, n: int)
    requires
        0 <= n <= es.len(),
    ensures
        0 <= split_point(es, e, n) <= n,
    decreases n,
{
    if n > 0 {
        lemma_split_bounds(es, e, n - 1);
    }
}

/// Replacing the last turn's entries by `k` of them and pushing a turn with
/// the rest keeps the total.
proof fn lemma_split_keeps_total(turns: Seq<TurnView>, kept: Seq<TurnView>)
    requires
        turns.len() > 0,
        kept.len() == turns.len() + 1,
        forall|i: int| 0 <= i < turns.len() - 1 ==> (#[trigger] kept[i]).entries.len() == turns[i].entries.len(),
        kept[turns.len() - 1].entries.len() + kept[turns.len() as int].entries.len()
            == turns[turns.len() - 1].entries.len(),
    ensures
        total_entries(kept) == total_entries(turns),
{
    let l = turns.len() as int;
    lemma_entries_prefix(turns, kept, l - 1);
    assert(entries_in(kept, l) == entries_in(kept, l - 1) + kept[l - 1].entries.len());
    assert(entries_in(kept, l + 1) == entries_in(kept, l) + kept[l].entries.len());
    assert(entries_in(turns, l) == entries_in(turns, l - 1) + turns[l - 1].entries.len());
}

/// Appending one entry to the last turn adds one to the total.
proof fn lemma_push_adds_one(turns: Seq<TurnView>, grown: Seq<TurnView>)
    requires
        turns.len() > 0,
        grown.len() == turns.len(),
        forall|i: int| 0 <= i < turns.len() - 1 ==> (#[trigger] grown[i]).entries.len() == turns[i].entries.len(),
        grown[turns.len() - 1].entries.len() == turns[turns.len() - 1].entries.len() + 1,
    ensures
        total_entries(grown) == total_entries(turns) + 1,
{
    let l = turns.len() as int;
    lemma_entries_prefix(turns, grown, l - 1);
}

/// Changing turns without changing how many entries each holds keeps the
/// total.
proof fn lemma_same_sizes(turns: Seq<TurnView>, other: Seq<TurnView>)
    requires
        other.len() == turns.len(),
        forall|i: int| 0 <= i < turns.len() ==> (#[trigger] other[i]).entries.len() == turns[i].entries.len(),
    ensures
        total_entries(other) == total_entries(turns),
{
    lemma_entries_prefix(turns, other, turns.len() as int);
}

impl TraceSession {
    /// Creates the empty running session of `run_id`.
    pub fn new(run_id: String) -> (r: Self)
        ensures
            session_wf(r@),
            r@.run_id == run_id@,
            r@.status == TraceStatus::Running,
            r@.next_entry == 0,
            r@.next_turn == 0,
            r@.payload_bytes == 0,
            r@.dropped_entries == 0,
            !r@.truncated,
            r@.markers == Set::<Seq<char>>::empty(),
            r@.turns == Seq::<TurnView>::empty(),
    {
        let r = TraceSession {
            run_id,
            status: TraceStatus::Running,
            next_entry: 0,
            next_turn: 0,
            payload_bytes: 0,
            dropped_entries: 0,
            truncated: false,
            turn_markers: StringSet::new(),
            turns: Vec::new(),
        };
        proof {
            assert(r@.turns =~= Seq::<TurnView>::empty());
            assert(r@.markers =~= Set::<Seq<char>>::empty());
        }
        r
    }

    /// Marks the run as finished.
    pub fn finish(&mut self)
        requires
            session_wf(old(self)@),
        ensures
            session_wf(final(self)@),
            final(self)@ == (TraceSessionView { status: TraceStatus::Completed, ..old(self)@ }),
    {
        self.status = TraceStatus::Completed;
    }

    /// The run this session records.
    pub fn run_id(&self) -> (r: &str)
        ensures
            r@ == self@.run_id,
    {
        self.run_id.as_str()
    }

    /// Whether the run is still recording.
    pub fn status(&self) -> (r: TraceStatus)
        ensures
            r == self@.status,
    {
        self.status
    }

    /// The number of entries recorded so far.
    pub fn next_entry(&self) -> (r: u64)
        ensures
            r == self@.next_entry,
    {
        self.next_entry
    }

    /// The payload bytes recorded so far.
    pub fn payload_bytes(&self) -> (r: usize)
        ensures
            r == self@.payload_bytes,
    {
        self.payload_bytes
    }

    /// The number of entries dropped because the session was full.
    pub fn dropped_entries(&self) -> (r: u64)
        ensures
            r == self@.dropped_entries,
    {
        self.dropped_entries
    }

    /// Whether any entry was dropped.
    pub fn truncated(&self) -> (r: bool)
        ensures
            r == self@.truncated,
    {
        self.truncated
    }

    /// The turns, oldest first.
    pub fn turns(&self) -> (r: &[TurnTrace])
        ensures
            turn_views(r@) == self@.turns,
    {
        self.turns.as_slice()
    }

    /// The number of entries held by all turns.
    pub fn entry_count(&self) -> (r: usize)
        requires
            session_wf(self@),
        ensures
            r == total_entries(self@.turns),
    {
        let ghost ts = self@.turns;
        let mut total: usize = 0;
        let mut i: usize = 0;
        while i < self.turns.len()
            invariant
                ts == turn_views(self.turns@),
                total_entries(ts) <= MAX_ENTRIES,
                0 <= i <= ts.len(),
                total == entries_in(ts, i as int),
            decreases ts.len() - i,
        {
            proof {
                lemma_entries_grow(ts, i + 1, ts.len() as int);
                lemma_entries_nonneg(ts, i as int);
            }
            total = total + self.turns[i].entries.len();
            i = i + 1;
        }
        total
    }

    fn open_new_turn(&mut self, entry: &TraceEntry)
        requires
            session_wf(old(self)@),
            old(self)@.next_entry < MAX_ENTRIES,
            !(old(self)@.turns.len() == 1 && old(self)@.turns[0].label == "Session flow"@),
        ensures
            final(self)@.turns.len() == old(self)@.turns.len() + 1,
            final(self)@.next_turn == final(self)@.turns.len(),
            total_entries(final(self)@.turns) == total_entries(old(self)@.turns),
            final(self)@.turns == open_turn(old(self)@, *entry, Seq::empty()).turns,
            final(self)@.next_turn == open_turn(old(self)@, *entry, Seq::empty()).next_turn,
            final(self)@ == (TraceSessionView {
                turns: final(self)@.turns,
                next_turn: final(self)@.next_turn,
                ..old(self)@
            }),
    {
        let ghost old_turns = self@.turns;
        let n = self.next_turn + 1;
        let carried = match self.turns.pop() {
            Some(mut previous) => {
                let split = split_at(previous.entries.as_slice(), entry);
                proof {
                    lemma_split_bounds(previous.entries@, *entry, previous.entries@.len() as int);
                }
                let carried = previous.entries.split_off(split);
                self.turns.push(previous);
                carried
            },
            None => Vec::new(),
        };
        let started_ms = if carried.len() > 0 {
            carried[0].elapsed_ms
        } else {
            entry.elapsed_ms
        };
        let mut id = "turn-".to_owned();
        let digits = u64_decimal(n);
        id.append(digits.as_str());
        let ghost kept = turn_views(self.turns@);
        self.turns.push(
            TurnTrace {
                id,
                ordinal: n,
                label: turn_label(entry.name.as_str()).to_owned(),
                started_ms,
                entries: carried,
            },
        );
        self.next_turn = n;
        proof {
            let expected = open_turn(old(self)@, *entry, Seq::empty());
            if old_turns.len() > 0 {
                let last = old_turns.last();
                lemma_split_bounds(last.entries, *entry, last.entries.len() as int);
                assert(kept =~= old_turns.drop_last().push(TurnView {
                    entries: last.entries.take(split_point(last.entries, *entry, last.entries.len() as int)),
                    ..last
                }));
                assert(turn_views(self.turns@) =~= expected.turns);
                lemma_split_keeps_total(old_turns, turn_views(self.turns@));
            } else {
                assert(turn_views(self.turns@) =~= expected.turns);
                assert(entries_in(turn_views(self.turns@), 1) == entries_in(turn_views(self.turns@), 0)
                    + turn_views(self.turns@)[0].entries.len());
            }
        }
    }

    /// Appends `entry`, numbering it, and opens a turn when `turn_start`
    /// is a marker not seen before in this session. When the session holds
    /// its most entries or payload bytes, the entry is dropped and counted.
    pub fn append(&mut self, entry: TraceEntry, turn_start: Option<String>)
        requires
            session_wf(old(self)@),
        ensures
            session_wf(final(self)@),
            final(self)@ == appended(old(self)@, entry, marker_view(turn_start)),
    {
        if self.next_entry >= MAX_ENTRIES || self.payload_bytes >= MAX_SESSION_PAYLOAD_BYTES {
            self.dropped_entries = self.dropped_entries.saturating_add(1);
            self.truncated = true;
            return;
        }
        let ghost v0 = self@;
        let ghost e0 = entry;
        let ghost mk = marker_view(turn_start);
        let ghost opened = match mk {
            Some(m) => if v0.markers.contains(m) {
                v0
            } else {
                open_turn(v0, e0, m)
            },
            None => v0,
        };
        let mut entry = entry;
        match turn_start {
            Some(marker) => {
                let ghost m = marker@;
                if self.turn_markers.insert(marker) {
                    let first_is_flow = self.turns.len() == 1 && str_equal(
                        self.turns[0].label.as_str(),
                        "Session flow",
                    );
                    if first_is_flow {
                        let ghost before = self.turns@;
                        let mut first = self.turns.pop().unwrap();
                        first.label = turn_label(entry.name.as_str()).to_owned();
                        self.turns.push(first);
                        proof {
                            assert(turn_views(self.turns@) =~= v0.turns.update(
                                0,
                                TurnView { label: turn_label_of(e0.name@), ..v0.turns[0] },
                            ));
                            lemma_same_sizes(v0.turns, turn_views(self.turns@));
                        }
                    } else {
                        self.open_new_turn(&entry);
                    }
                    proof {
                        assert(self@.turns == opened.turns);
                        assert(self@.markers == opened.markers);
                    }
                }
            },
            None => {},
        }
        proof {
            assert(self@ == opened);
            assert(self@.turns.len() <= self@.next_entry + 1);
            assert(total_entries(self@.turns) == self@.next_entry);
            assert(self@.next_turn == self@.turns.len());
        }
        if self.turns.len() == 0 {
            self.next_turn = 1;
            self.turns.push(
                TurnTrace {
                    id: "turn-1".to_owned(),
                    ordinal: 1,
                    label: "Session flow".to_owned(),
                    started_ms: entry.elapsed_ms,
                    entries: Vec::new(),
                },
            );
            proof {
                assert(turn_views(self.turns@) =~= ensure_turn(opened, e0).turns);
                assert(entries_in(self@.turns, 1) == entries_in(self@.turns, 0) + self@.turns[0].entries.len());
            }
        }
        let ghost v2 = self@;
        proof {
            assert(v2 == ensure_turn(opened, e0));
            assert(v2.turns.len() > 0);
        }
        self.next_entry = self.next_entry + 1;
        entry.ordinal = self.next_entry;
        self.payload_bytes = self.payload_bytes.saturating_add(entry.payload.as_str().as_bytes().len());
        let mut current = self.turns.pop().unwrap();
        current.entries.push(entry);
        self.turns.push(current);
        proof {
            let expected = record_entry(v2, e0);
            assert(turn_views(self.turns@) =~= expected.turns);
            lemma_push_adds_one(v2.turns, self@.turns);
        }
    }
}

/// A boundary marker seen before opens no turn: appending with it is
/// appending without a marker.
pub proof fn law_seen_marker_opens_no_turn(v: TraceSessionView, e: TraceEntry, marker: Seq<char>)
    requires
        v.markers.contains(marker),
    ensures
        appended(v, e, Some(marker)) == appended(v, e, None),
{
}

/// A full session records nothing more: its turns and entry count stay, and
/// only the drop count and the truncation flag change.
pub proof fn law_full_session_keeps_its_turns(v: TraceSessionView, e: TraceEntry, marker: Option<Seq<char>>)
    requires
        !accepts(v),
    ensures
        appended(v, e, marker).turns == v.turns,
        appended(v, e, marker).next_entry == v.next_entry,
        appended(v, e, marker).truncated,
{
}

/// An accepted entry is numbered after every earlier one and becomes the
/// last entry of the last turn.
pub proof fn law_accepted_entry_is_last(v: TraceSessionView, e: TraceEntry, marker: Option<Seq<char>>)
    requires
        session_wf(v),
        accepts(v),
    ensures
        appended(v, e, marker).next_entry == v.next_entry + 1,
        appended(v, e, marker).turns.last().entries.last() == (TraceEntry {
            ordinal: (v.next_entry + 1) as u64,
            ..e
        }),
{
}

proof fn lemma_entries_grow(turns: Seq<TurnView>, m: int, n: int)
    requires
        0 <= m <= n <= turns.len(),
    ensures
        entries_in(turns, m) <= entries_in(turns, n),
    decreases n - m,
{
    if m < n {
        lemma_entries_grow(turns, m, n - 1);
    }
}

/// Finds where the entries split when `entry` opens a new turn (see
/// `split_point`).
fn split_at(entries: &[TraceEntry], entry: &TraceEntry) -> (r: usize)
    ensures
        r == split_point(entries@, *entry, entries@.len() as int),
{
    let mut n: usize = entries.len();
    while n > 0
        invariant
            0 <= n <= entries@.len(),
            split_point(entries@, *entry, entries@.len() as int) == split_point(entries@, *entry, n as int),
        decreases n,
    {
        let candidate = &entries[n - 1];
        if candidate.sequence != entry.sequence && !str_equal(
            candidate.trace_id.as_str(),
            entry.trace_id.as_str(),
        ) {
            return n;
        }
        n = n - 1;
    }
    0
}

/// The marker a signal or event leaves when it opens a turn: only an output
/// whose name starts a turn leaves one, written
/// `name|sequence|trace|node`.
pub fn turn_marker(name: &str, sequence: u64, trace_id: &str, node_id: &str, output: bool) -> (r: Option<String>)
    ensures
        !(output && turn_start_name(name@)) ==> r is None,
        output && turn_start_name(name@) ==> (r matches Some(m) && m@ == name@ + "|"@ + decimal_digits(
            sequence as nat,
        ) + "|"@ + trace_id@ + "|"@ + node_id@),
{
    if !(output && is_turn_start(name)) {
        return None;
    }
    let mut marker = name.to_owned();
    marker.append("|");
    let digits = u64_decimal(sequence);
    marker.append(digits.as_str());
    marker.append("|");
    marker.append(trace_id);
    marker.append("|");
    marker.append(node_id);
    Some(marker)
}

/// The lowercase hexadecimal digit of a nibble.
pub open spec fn hex_digit(n: u8) -> char {
    if n < 10 {
        ((n + 48) as u8) as char
    } else {
        ((n + 87) as u8) as char
    }
}

/// The hexadecimal text of some bytes, two lowercase digits each.
pub open spec fn hex_text(bs: Seq<u8>) -> Seq<char>
    decreases bs.len(),
{
    if bs.len() == 0 {
        Seq::empty()
    } else {
        hex_text(bs.drop_last()) + seq![hex_digit(bs.last() / 16), hex_digit(bs.last() % 16)]
    }
}

fn nibble_char(n: u8) -> (r: char)
    requires
        n < 16,
    ensures
        r == hex_digit(n),
{
    if n < 10 {
        ((n + 48) as u8) as char
    } else {
        ((n + 87) as u8) as char
    }
}

/// The preview of a binary payload: the first 32 bytes as lowercase
/// hexadecimal.
pub fn preview_hex(bytes: &[u8]) -> (r: String)
    ensures
        r@ == hex_text(bytes@.take(if bytes@.len() < PREVIEW_BYTES { bytes@.len() as int } else { PREVIEW_BYTES as int })),
{
    let count = if bytes.len() < PREVIEW_BYTES {
        bytes.len()
    } else {
        PREVIEW_BYTES
    };
    let mut out = String::new();
    let mut i: usize = 0;
    while i < count
        invariant
            count <= bytes@.len(),
            0 <= i <= count,
            out@ == hex_text(bytes@.take(i as int)),
        decreases count - i,
    {
        let b = bytes[i];
        proof {
            assert(bytes@.take(i + 1).drop_last() =~= bytes@.take(i as int));
        }
        push_char(&mut out, nibble_char(b / 16));
        push_char(&mut out, nibble_char(b % 16));
        i = i + 1;
    }
    out
}

/// The preview that replaces a payload whose JSON text is longer than
/// `MAX_PAYLOAD_BYTES`: the text cut to that many bytes at a character
/// boundary and marked with an ellipsis, with the text's length in bytes.
/// A payload that fits keeps its text (`None`).
pub fn payload_preview(serialized: &str) -> (r: Option<(String, usize)>)
    ensures
        vstd::utf8::encode_utf8(serialized@).len() <= MAX_PAYLOAD_BYTES ==> r is None,
        vstd::utf8::encode_utf8(serialized@).len() > MAX_PAYLOAD_BYTES ==> (r matches Some((p, n)) && n
            == vstd::utf8::encode_utf8(serialized@).len() && exists|kept: Seq<char>|
            vstd::utf8::encode_utf8(kept) == bounded_bytes(vstd::utf8::encode_utf8(serialized@), MAX_PAYLOAD_BYTES as int)
                && p@ == kept.push('\u{2026}')),
{
    let n = serialized.as_bytes().len();
    if n > MAX_PAYLOAD_BYTES {
        Some((truncate(serialized, MAX_PAYLOAD_BYTES), n))
    } else {
        None
    }
}

/// The split point is the one place that separates the entries: every entry
/// after it shares the opening entry's sequence number or trace, and the
/// entry just before it (if any) shares neither.
pub proof fn law_split_point_separates_the_boundary(es: Seq<TraceEntry>, e: TraceEntry, n: int)
    requires
        0 <= n <= es.len(),
    ensures
        0 <= split_point(es, e, n) <= n,
        forall|i: int|
            split_point(es, e, n) <= i < n ==> (#[trigger] es[i]).sequence == e.sequence || es[i].trace_id@
                == e.trace_id@,
        split_point(es, e, n) > 0 ==> es[split_point(es, e, n) - 1].sequence != e.sequence && es[split_point(
            es,
            e,
            n,
        ) - 1].trace_id@ != e.trace_id@,
    decreases n,
{
    if n > 0 {
        law_split_point_separates_the_boundary(es, e, n - 1);
    }
}

/// A marker that opens a new turn after labelled turns moves the trailing
/// boundary entries of the last turn into the new one: the two together are
/// the old last turn's entries in order, every moved entry shares the
/// opening entry's sequence number or trace, and the entry left last in the
/// previous turn shares neither.
pub proof fn law_new_turn_takes_the_boundary_entries(v: TraceSessionView, e: TraceEntry, marker: Seq<char>)
    requires
        v.turns.len() > 0,
        !(v.turns.len() == 1 && v.turns[0].label == "Session flow"@),
    ensures
        ({
            let w = open_turn(v, e, marker);
            let before = v.turns.last().entries;
            let prev = w.turns[w.turns.len() - 2].entries;
            let moved = w.turns.last().entries;
            &&& w.turns.len() == v.turns.len() + 1
            &&& w.turns.last().id == turn_id((v.next_turn + 1) as nat)
            &&& prev + moved == before
            &&& forall|i: int|
                0 <= i < moved.len() ==> (#[trigger] moved[i]).sequence == e.sequence || moved[i].trace_id@
                    == e.trace_id@
            &&& prev.len() > 0 ==> prev.last().sequence != e.sequence && prev.last().trace_id@ != e.trace_id@
        }),
{
    let w = open_turn(v, e, marker);
    let before = v.turns.last().entries;
    let k = split_point(before, e, before.len() as int);
    law_split_point_separates_the_boundary(before, e, before.len() as int);
    let prev = w.turns[w.turns.len() - 2].entries;
    let moved = w.turns.last().entries;
    assert(prev == before.take(k));
    assert(moved == before.skip(k));
    assert(prev + moved =~= before);
    assert forall|i: int| 0 <= i < moved.len() implies (#[trigger] moved[i]).sequence == e.sequence
        || moved[i].trace_id@ == e.trace_id@ by {
        assert(moved[i] == before[i + k]);
    }
    if prev.len() > 0 {
        assert(prev.last() == before[k - 1]);
    }
}

} // verus!
