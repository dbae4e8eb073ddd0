//! Panel snapshots: documents of panel records, and the fresh states that are
//! rebuilt from them.

use crate::panel::PanelId;
use crate::panel_record;
use crate::panel_record::{PanelRecord, RehydrateError, MAX_SNAPSHOT_PANELS};
use crate::panel_record_laws;
use crate::panel_state::{Axes, PanelFocusState, PanelLifecycle, SevenPanelState};
use crate::seqs;
use crate::text;
use crate::uitree::UiNodeId;
use vstd::prelude::*;
use vstd::string::*;

verus! {

/// The state that is rebuilt from recorded axes. Every axis keeps its recorded
/// value but lifecycle and focus, which are made to agree: a mounted panel with
/// recorded focus owns the focus again, and a panel that is not mounted is
/// unfocused.
pub open spec fn rebuilt(a: Axes) -> Axes {
    match a.lifecycle {
        PanelLifecycle::Mounted | PanelLifecycle::Focused => if a.focus is Focused {
            Axes { lifecycle: PanelLifecycle::Focused, ..a }
        } else {
            Axes { lifecycle: PanelLifecycle::Mounted, ..a }
        },
        _ => Axes { focus: PanelFocusState::Unfocused, ..a },
    }
}

/// The axes agree: lifecycle and focus say the same.
pub open spec fn is_settled(a: Axes) -> bool {
    a.lifecycle is Focused <==> a.focus is Focused
}

/// Rebuilding gives back exactly the states whose axes agree, and every
/// rebuilt state is one of them. It changes no axis but lifecycle and focus.
pub proof fn rebuilding_keeps_settled_states(a: Axes)
    ensures
        is_settled(rebuilt(a)),
        rebuilt(a) == a <==> is_settled(a),
        rebuilt(rebuilt(a)) == rebuilt(a),
        rebuilt(a) == (Axes { lifecycle: rebuilt(a).lifecycle, focus: rebuilt(a).focus, ..a }),
        !(a.lifecycle is Mounted || a.lifecycle is Focused) ==> rebuilt(a).lifecycle == a.lifecycle,
{
}

fn step(fresh: &mut SevenPanelState, to: PanelLifecycle) -> (r: Result<(), RehydrateError>)
    ensures
        match old(fresh)@.step_fault(to) {
            Some(fault) => r == Err::<(), RehydrateError>(RehydrateError::State(fault))
                && final(fresh)@ == old(fresh)@,
            None => r is Ok && final(fresh)@ == (Axes { lifecycle: to, ..old(fresh)@ }),
        },
{
    match fresh.set_lifecycle(to) {
        Ok(_) => Ok(()),
        Err(e) => Err(RehydrateError::from(e)),
    }
}

/// Takes a declared panel to a recorded lifecycle step by step; a focused one
/// only up to mounted.
fn replay_lifecycle(fresh: &mut SevenPanelState, lifecycle: PanelLifecycle) -> (r: Result<
    (),
    RehydrateError,
>)
    requires
        old(fresh)@.lifecycle is Declared,
    ensures
        r is Ok,
        final(fresh)@ == match lifecycle {
            PanelLifecycle::Focused => Axes { lifecycle: PanelLifecycle::Mounted, ..old(fresh)@ },
            PanelLifecycle::Closed => old(fresh)@.closed(),
            _ => Axes { lifecycle, ..old(fresh)@ },
        },
{
    if lifecycle == PanelLifecycle::Declared {
        return Ok(());
    }
    if let Err(e) = step(fresh, PanelLifecycle::Created) {
        return Err(e);
    }
    if lifecycle == PanelLifecycle::Created {
        return Ok(());
    }
    if let Err(e) = step(fresh, PanelLifecycle::Mounted) {
        return Err(e);
    }
    match lifecycle {
        PanelLifecycle::Suspended => step(fresh, PanelLifecycle::Suspended),
        PanelLifecycle::Closed => match fresh.close() {
            Ok(_) => Ok(()),
            Err(e) => Err(RehydrateError::from(e)),
        },
        PanelLifecycle::Disposed => step(fresh, PanelLifecycle::Disposed),
        _ => Ok(()),
    }
}

impl PanelRecord {
    /// Builds a fresh state and applies the recorded values to it. This never
    /// fails.
    pub fn apply_fresh(&self) -> (r: Result<SevenPanelState, RehydrateError>)
        ensures
            r matches Ok(s) && s@ == rebuilt(self@),
    {
        let mut fresh = SevenPanelState::new(PanelId::new(self.panel), UiNodeId::new(self.node));
        if let Err(e) = replay_lifecycle(&mut fresh, self.lifecycle) {
            return Err(e);
        }
        fresh.set_presentation(self.presentation);
        fresh.set_visibility(self.visibility);
        fresh.set_attention(self.attention.clone());
        fresh.set_interaction(self.interaction);
        fresh.set_activity(self.activity);
        if self.focus == PanelFocusState::Focused && fresh.lifecycle() == PanelLifecycle::Mounted {
            match fresh.focus_panel() {
                Ok(_) => {},
                Err(e) => return Err(RehydrateError::from(e)),
            }
        }
        Ok(fresh)
    }
}

/// The axes of a list of states.
pub open spec fn axes_of(states: Seq<SevenPanelState>) -> Seq<Axes> {
    states.map_values(|s: SevenPanelState| s@)
}

/// Outcome of a rehydration.
#[derive(Debug, PartialEq, Eq)]
pub struct RehydrateReport {
    /// Fresh states in order of their panels.
    pub states: Vec<SevenPanelState>,
    /// Raw panel ids in ascending order.
    pub applied: Vec<u64>,
}

impl RehydrateReport {
    /// The first rebuilt state of a panel.
    #[must_use]
    pub fn get(&self, panel: PanelId) -> (s: Option<&SevenPanelState>)
        ensures
            match s {
                Some(s) => exists|i: int|
                    0 <= i < self.states@.len() && *s == #[trigger] self.states@[i] && s@.panel
                        == panel && forall|j: int|
                        0 <= j < i ==> (#[trigger] self.states@[j])@.panel != panel,
                None => forall|j: int|
                    0 <= j < self.states@.len() ==> (#[trigger] self.states@[j])@.panel != panel,
            },
    {
        let mut i: usize = 0;
        while i < self.states.len()
            invariant
                0 <= i <= self.states.len(),
                forall|j: int| 0 <= j < i ==> (#[trigger] self.states@[j])@.panel != panel,
            decreases self.states.len() - i,
        {
            if self.states[i].panel() == panel {
                return Some(&self.states[i]);
            }
            i = i + 1;
        }
        None
    }
}

impl Clone for RehydrateReport {
    fn clone(&self) -> (report: Self)
        ensures
            axes_of(report.states@) == axes_of(self.states@),
            report.applied@ == self.applied@,
    {
        let mut states: Vec<SevenPanelState> = Vec::new();
        while states.len() < self.states.len()
            invariant
                states@.len() <= self.states@.len(),
                forall|i: int| 0 <= i < states@.len() ==> (#[trigger] states@[i])@ == self.states@[i]@,
            decreases self.states.len() - states.len(),
        {
            let i: usize = states.len();
            states.push(self.states[i].clone());
        }
        let applied = self.applied.clone();
        assert(applied@ =~= self.applied@);
        assert(axes_of(states@) =~= axes_of(self.states@));
        Self { states, applied }
    }
}

/// A record line and the panel it belongs to.
pub struct Ticket {
    /// The panel.
    pub panel: u64,
    /// The record line.
    pub line: Seq<char>,
}

/// The ticket of a panel.
pub open spec fn ticket_of(a: Axes) -> Ticket {
    Ticket { panel: a.panel.0, line: panel_record::record_line(a) }
}

/// Tickets are ordered by panel, then by line.
pub open spec fn precedes(a: Ticket, b: Ticket) -> bool {
    a.panel < b.panel || (a.panel == b.panel && text::text_le(a.line, b.line))
}

/// Every ticket precedes the ones behind it.
pub open spec fn in_order(tickets: Seq<Ticket>) -> bool {
    forall|i: int, j: int|
        0 <= i < j < tickets.len() ==> precedes(#[trigger] tickets[i], #[trigger] tickets[j])
}

/// The document of tickets: their lines with line feeds between.
pub open spec fn document_of(tickets: Seq<Ticket>) -> Seq<char> {
    text::joined_lines(tickets.map_values(|t: Ticket| t.line))
}

/// The document holds the records of the panels in order.
pub open spec fn is_snapshot(doc: Seq<char>, panels: Seq<Axes>) -> bool {
    exists|tickets: Seq<Ticket>| #[trigger]
        in_order(tickets) && tickets.to_multiset() == panels.map_values(
            |a: Axes| ticket_of(a),
        ).to_multiset() && doc == document_of(tickets)
}

proof fn lemma_precedes_total(a: Ticket, b: Ticket, c: Ticket)
    ensures
        precedes(a, a),
        precedes(a, b) || precedes(b, a),
        precedes(a, b) && precedes(b, a) ==> a == b,
        precedes(a, b) && precedes(b, c) ==> precedes(a, c),
{
    text::text_le_is_an_order(a.line, b.line, c.line);
}

/// A snapshot is determined by the panels in it, whatever order they are
/// given in.
pub proof fn snapshots_are_unique(a: Seq<Ticket>, b: Seq<Ticket>)
    requires
        in_order(a),
        in_order(b),
        a.to_multiset() == b.to_multiset(),
    ensures
        a == b,
    decreases a.len(),
{
    broadcast use vstd::seq_lib::group_to_multiset_ensures;

    assert(a.len() == a.to_multiset().len());
    assert(b.len() == b.to_multiset().len());
    if a.len() == 0 {
        assert(a =~= b);
    } else {
        let x = a.last();
        let y = b.last();
        assert(a[a.len() - 1] == x);
        assert(b[b.len() - 1] == y);
        assert(a.contains(x));
        assert(b.contains(y));
        assert(a.to_multiset().count(y) > 0);
        assert(b.to_multiset().count(x) > 0);
        assert(a.contains(y));
        assert(b.contains(x));
        let i = choose|i: int| 0 <= i < a.len() && a[i] == y;
        let j = choose|j: int| 0 <= j < b.len() && b[j] == x;
        lemma_precedes_total(x, y, x);
        lemma_precedes_total(y, x, y);
        assert(precedes(y, x)) by {
            if i < a.len() - 1 {
                assert(precedes(a[i], a[a.len() - 1]));
            }
        }
        assert(precedes(x, y)) by {
            if j < b.len() - 1 {
                assert(precedes(b[j], b[b.len() - 1]));
            }
        }
        let p = a.drop_last();
        let q = b.drop_last();
        assert(a =~= p.push(x));
        assert(b =~= q.push(y));
        assert(p.push(x).to_multiset() == p.to_multiset().insert(x));
        assert(q.push(y).to_multiset() == q.to_multiset().insert(y));
        assert(p.to_multiset() =~= q.to_multiset()) by {
            assert(p.to_multiset().insert(x).remove(x) =~= p.to_multiset());
            assert(q.to_multiset().insert(x).remove(x) =~= q.to_multiset());
        }
        snapshots_are_unique(p, q);
    }
}

struct Line {
    panel: u64,
    line: String,
}

spec fn tickets_of(lines: Seq<Line>) -> Seq<Ticket> {
    lines.map_values(|l: Line| Ticket { panel: l.panel, line: l.line@ })
}

fn line_precedes(a: &Line, b: &Line) -> (yes: bool)
    ensures
        yes == precedes(
            Ticket { panel: a.panel, line: a.line@ },
            Ticket { panel: b.panel, line: b.line@ },
        ),
{
    a.panel < b.panel || (a.panel == b.panel && text::at_most(a.line.as_str(), b.line.as_str()))
}

/// Encodes panel states as a document with one record per line, ordered by
/// panel.
#[must_use]
pub fn encode_snapshot(states: &[SevenPanelState]) -> (doc: String)
    ensures
        is_snapshot(doc@, axes_of(states@)),
{
    let ghost all = axes_of(states@).map_values(|a: Axes| ticket_of(a));
    let mut lines: Vec<Line> = Vec::new();
    let mut i: usize = 0;
    assert(tickets_of(lines@) =~= all.take(0));
    while i < states.len()
        invariant
            0 <= i <= states.len(),
            all == axes_of(states@).map_values(|a: Axes| ticket_of(a)),
            in_order(tickets_of(lines@)),
            tickets_of(lines@).to_multiset() == all.take(i as int).to_multiset(),
        decreases states.len() - i,
    {
        let ghost before = tickets_of(lines@);
        let ghost x = all[i as int];
        let next = Line {
            panel: states[i].panel().get(),
            line: PanelRecord::capture(&states[i]).encode(),
        };
        assert(x == ticket_of(axes_of(states@)[i as int]));
        let mut k: usize = lines.len();
        while k > 0 && !line_precedes(&lines[k - 1], &next)
            invariant
                0 <= k <= lines.len(),
                before == tickets_of(lines@),
                x == (Ticket { panel: next.panel, line: next.line@ }),
                forall|m: int| k <= m < lines.len() ==> precedes(x, #[trigger] before[m]),
            decreases k,
        {
            proof {
                lemma_precedes_total(before[k - 1], x, x);
            }
            k = k - 1;
        }
        assert forall|m: int| 0 <= m < k implies precedes(#[trigger] before[m], x) by {
            if m < k - 1 {
                assert(precedes(before[m], before[k - 1]));
                lemma_precedes_total(before[m], before[k - 1], x);
            }
        }
        lines.insert(k, next);
        proof {
            broadcast use vstd::seq_lib::group_to_multiset_ensures;

            let after = tickets_of(lines@);
            assert(after =~= before.insert(k as int, x));
            assert forall|a: int, b: int| 0 <= a < b < after.len() implies precedes(
                #[trigger] after[a],
                #[trigger] after[b],
            ) by {
                let p = if a > k {
                    a - 1
                } else {
                    a
                };
                let q = if b > k {
                    b - 1
                } else {
                    b
                };
                if a != k {
                    assert(after[a] == before[p]);
                }
                if b != k {
                    assert(after[b] == before[q]);
                }
            }
            let part = all.take(i + 1);
            assert(part =~= all.take(i as int).push(x));
            assert(part.to_multiset() == all.take(i as int).to_multiset().insert(x));
            assert(after.to_multiset() == before.to_multiset().insert(x));
        }
        i = i + 1;
    }
    assert(all.take(i as int) =~= all);
    let ghost tickets = tickets_of(lines@);
    let doc = join_lines(&lines);
    assert(in_order(tickets));
    doc
}

fn join_lines(lines: &Vec<Line>) -> (doc: String)
    ensures
        doc@ == document_of(tickets_of(lines@)),
{
    let ghost all = tickets_of(lines@).map_values(|t: Ticket| t.line);
    let mut doc = String::new();
    let mut i: usize = lines.len();
    assert(all.skip(i as int) =~= Seq::<Seq<char>>::empty());
    while i > 0
        invariant
            0 <= i <= lines.len(),
            all == tickets_of(lines@).map_values(|t: Ticket| t.line),
            doc@ == text::joined_lines(all.skip(i as int)),
        decreases i,
    {
        assert(all.skip(i - 1).drop_first() =~= all.skip(i as int));
        assert(all.skip(i - 1)[0] == lines@[i - 1].line@);
        if i == lines.len() {
            doc = lines[i - 1].line.clone();
        } else {
            doc = text::joined3(lines[i - 1].line.as_str(), "\n", doc.as_str());
            proof {
                reveal_strlit("\n");
                assert("\n"@ =~= seq!['\n']);
            }
        }
        i = i - 1;
    }
    assert(all.skip(0) =~= all);
    doc
}

/// Why a document is refused.
pub enum SnapshotFault {
    /// The record in this line is refused.
    Record(panel_record::RecordFault, usize),
    /// The panel has two records.
    Duplicate(u64),
    /// There are this many records.
    TooMany(nat),
}

/// The error reports exactly this fault.
pub open spec fn reports_document(e: RehydrateError, fault: SnapshotFault) -> bool {
    match fault {
        SnapshotFault::Record(f, line) => panel_record::reports(e, f, line),
        SnapshotFault::Duplicate(panel) => e == (RehydrateError::DuplicatePanel { panel }),
        SnapshotFault::TooMany(found) => e == (RehydrateError::TooManyPanels {
            found: found as usize,
            cap: MAX_SNAPSHOT_PANELS,
        }),
    }
}

/// Some record names the panel.
pub open spec fn names_panel(records: Seq<Axes>, panel: PanelId) -> bool {
    exists|i: int| 0 <= i < records.len() && (#[trigger] records[i]).panel == panel
}

/// The records of the first `n` lines, or the first fault among them. Blank
/// lines and comment lines are skipped.
pub open spec fn lines_read(lines: Seq<Seq<char>>, n: nat) -> Result<Seq<Axes>, SnapshotFault>
    decreases n,
{
    if n == 0 {
        Ok(Seq::empty())
    } else {
        match lines_read(lines, (n - 1) as nat) {
            Err(fault) => Err(fault),
            Ok(records) => {
                let line = text::trimmed(lines[n - 1]);
                if line.len() == 0 || line[0] == '#' {
                    Ok(records)
                } else {
                    match panel_record::record_read(line) {
                        Err(fault) => Err(SnapshotFault::Record(fault, n as usize)),
                        Ok(a) => if names_panel(records, a.panel) {
                            Err(SnapshotFault::Duplicate(a.panel.0))
                        } else {
                            Ok(records.push(a))
                        },
                    }
                }
            },
        }
    }
}

/// The records of a document, or why it is refused.
pub open spec fn document_read(doc: Seq<char>) -> Result<Seq<Axes>, SnapshotFault> {
    match lines_read(text::lines_of(doc), text::lines_of(doc).len()) {
        Err(fault) => Err(fault),
        Ok(records) => if records.len() > MAX_SNAPSHOT_PANELS {
            Err(SnapshotFault::TooMany(records.len()))
        } else {
            Ok(records)
        },
    }
}

/// The panels stand in strictly ascending order.
pub open spec fn ascending(order: Seq<Axes>) -> bool {
    forall|i: int, j: int|
        0 <= i < j < order.len() ==> (#[trigger] order[i]).panel.0 < (
        #[trigger] order[j]).panel.0
}

/// The report holds the states rebuilt from the records, ordered by panel.
pub open spec fn reports_records(report: RehydrateReport, records: Seq<Axes>) -> bool {
    exists|order: Seq<Axes>| #[trigger]
        ascending(order) && order.to_multiset() == records.to_multiset() && axes_of(
            report.states@,
        ) == order.map_values(|a: Axes| rebuilt(a)) && report.applied@ == order.map_values(
            |a: Axes| a.panel.0,
        )
}

proof fn lemma_first_fault(lines: Seq<Seq<char>>, k: nat, n: nat)
    requires
        k <= n,
        lines_read(lines, k) is Err,
    ensures
        lines_read(lines, n) == lines_read(lines, k),
    decreases n,
{
    if k < n {
        lemma_first_fault(lines, k, (n - 1) as nat);
    }
}

spec fn record_axes(records: Seq<PanelRecord>) -> Seq<Axes> {
    records.map_values(|r: PanelRecord| r@)
}

/// The place of a panel in ascending records: `true` when it is taken.
fn place_of(records: &Vec<PanelRecord>, panel: u64) -> (r: (usize, bool))
    requires
        ascending(record_axes(records@)),
    ensures
        r.0 <= records@.len(),
        r.1 == names_panel(record_axes(records@), PanelId(panel)),
        !r.1 ==> (forall|i: int|
            0 <= i < r.0 ==> (#[trigger] record_axes(records@)[i]).panel.0 < panel) && (forall|
            i: int,
        |
            r.0 <= i < records@.len() ==> (#[trigger] record_axes(records@)[i]).panel.0 > panel),
{
    let ghost axes = record_axes(records@);
    let mut i: usize = 0;
    while i < records.len() && records[i].panel < panel
        invariant
            0 <= i <= records.len(),
            axes == record_axes(records@),
            forall|j: int| 0 <= j < i ==> (#[trigger] axes[j]).panel.0 < panel,
        decreases records.len() - i,
    {
        assert(axes[i as int] == records@[i as int]@);
        i = i + 1;
    }
    if i < records.len() {
        assert(axes[i as int] == records@[i as int]@);
        assert forall|j: int| i < j < axes.len() implies (#[trigger] axes[j]).panel.0
            > axes[i as int].panel.0 by {}
    }
    if i < records.len() && records[i].panel == panel {
        return (i, true);
    }
    (i, false)
}

/// Rebuilds fresh states from a document. Any defect rejects the whole
/// document.
pub fn rehydrate_snapshot(doc: &str) -> (r: Result<RehydrateReport, RehydrateError>)
    ensures
        match document_read(doc@) {
            Ok(records) => r matches Ok(report) && reports_records(report, records),
            Err(fault) => r matches Err(e) && reports_document(e, fault),
        },
{
    let chars = text::chars_of(doc);
    let lines = text::split_lines(chars.as_slice());
    let ghost all = text::texts(lines@);
    let ghost mut read: Seq<Axes> = Seq::empty();
    let mut records: Vec<PanelRecord> = Vec::new();
    let mut i: usize = 0;
    assert(record_axes(records@) =~= read);
    while i < lines.len()
        invariant
            0 <= i <= lines.len(),
            all == text::texts(lines@),
            all == text::lines_of(doc@),
            lines_read(all, i as nat) == Ok::<Seq<Axes>, SnapshotFault>(read),
            ascending(record_axes(records@)),
            record_axes(records@).to_multiset() == read.to_multiset(),
            records@.len() == read.len(),
        decreases lines.len() - i,
    {
        assert(all[i as int] == lines@[i as int]@);
        let line = text::trim(lines[i].as_slice());
        let line_no: usize = i + 1;
        if line.len() > 0 && line[0] != '#' {
            let record = match panel_record::decode_record(&line, line_no) {
                Ok(r) => r,
                Err(e) => {
                    proof {
                        lemma_first_fault(all, (i + 1) as nat, all.len());
                    }
                    return Err(e);
                },
            };
            let ghost a = record@;
            let ghost before = record_axes(records@);
            let (k, taken) = place_of(&records, record.panel);
            proof {
                lemma_same_panels(before, read, a.panel);
            }
            if taken {
                proof {
                    lemma_first_fault(all, (i + 1) as nat, all.len());
                }
                return Err(RehydrateError::DuplicatePanel { panel: record.panel });
            }
            records.insert(k, record);
            proof {
                broadcast use vstd::seq_lib::group_to_multiset_ensures;

                let after = record_axes(records@);
                assert(after =~= before.insert(k as int, a));
                assert forall|p: int, q: int| 0 <= p < q < after.len() implies (
                #[trigger] after[p]).panel.0 < (#[trigger] after[q]).panel.0 by {
                    let x = if p > k {
                        p - 1
                    } else {
                        p
                    };
                    let y = if q > k {
                        q - 1
                    } else {
                        q
                    };
                    if p != k {
                        assert(after[p] == before[x]);
                    }
                    if q != k {
                        assert(after[q] == before[y]);
                    }
                }
                assert(after.to_multiset() == before.to_multiset().insert(a));
                assert(read.push(a).to_multiset() == read.to_multiset().insert(a));
                read = read.push(a);
            }
        }
        i = i + 1;
    }
    if records.len() > MAX_SNAPSHOT_PANELS {
        return Err(
            RehydrateError::TooManyPanels { found: records.len(), cap: MAX_SNAPSHOT_PANELS },
        );
    }
    let ghost order = record_axes(records@);
    let mut states: Vec<SevenPanelState> = Vec::new();
    let mut applied: Vec<u64> = Vec::new();
    let mut k: usize = 0;
    while k < records.len()
        invariant
            0 <= k <= records.len(),
            order == record_axes(records@),
            states@.len() == k,
            applied@.len() == k,
            forall|j: int| 0 <= j < k ==> (#[trigger] states@[j])@ == rebuilt(order[j]),
            forall|j: int| 0 <= j < k ==> #[trigger] applied@[j] == order[j].panel.0,
        decreases records.len() - k,
    {
        assert(order[k as int] == records@[k as int]@);
        if let Ok(s) = records[k].apply_fresh() {
            states.push(s);
            applied.push(records[k].panel);
        }
        k = k + 1;
    }
    assert(axes_of(states@) =~= order.map_values(|a: Axes| rebuilt(a)));
    assert(applied@ =~= order.map_values(|a: Axes| a.panel.0));
    let report = RehydrateReport { states, applied };
    assert(ascending(order));
    Ok(report)
}

proof fn lemma_same_panels(a: Seq<Axes>, b: Seq<Axes>, panel: PanelId)
    requires
        a.to_multiset() == b.to_multiset(),
    ensures
        names_panel(a, panel) == names_panel(b, panel),
{
    broadcast use vstd::seq_lib::group_to_multiset_ensures;

    if names_panel(a, panel) {
        let i = choose|i: int| 0 <= i < a.len() && (#[trigger] a[i]).panel == panel;
        assert(a.contains(a[i]));
        assert(b.to_multiset().count(a[i]) > 0);
        assert(b.contains(a[i]));
    }
    if names_panel(b, panel) {
        let i = choose|i: int| 0 <= i < b.len() && (#[trigger] b[i]).panel == panel;
        assert(b.contains(b[i]));
        assert(a.to_multiset().count(b[i]) > 0);
        assert(a.contains(b[i]));
    }
}

/// A snapshot of panels with distinct ids and bounded badge labels reads back
/// as the records of these panels.
pub proof fn snapshots_read_back(order: Seq<Axes>)
    requires
        ascending(order),
        order.len() <= MAX_SNAPSHOT_PANELS,
        forall|i: int| 0 <= i < order.len() ==> (#[trigger] order[i]).attention.bounded(),
    ensures
        in_order(order.map_values(|a: Axes| ticket_of(a))),
        document_read(document_of(order.map_values(|a: Axes| ticket_of(a)))) == Ok::<
            Seq<Axes>,
            SnapshotFault,
        >(order),
{
    let tickets = order.map_values(|a: Axes| ticket_of(a));
    assert forall|i: int, j: int| 0 <= i < j < tickets.len() implies precedes(
        #[trigger] tickets[i],
        #[trigger] tickets[j],
    ) by {
        assert(order[i].panel.0 < order[j].panel.0);
    }
    let lines = tickets.map_values(|t: Ticket| t.line);
    assert forall|i: int| 0 <= i < lines.len() implies !(#[trigger] lines[i]).contains('\n')
        && lines[i].len() > 0 && !text::is_space(lines[i].last()) by {
        panel_record_laws::records_read_back(order[i]);
    }
    assert forall|i: int| 0 <= i < lines.len() - 1 implies ((#[trigger] lines[i]).len() == 0
        || lines[i].last() != '\r') by {
        assert(!text::is_space(lines[i].last()));
    }
    text::joined_lines_split_again(lines);
    lemma_reads(order, lines, lines.len());
    assert(order.take(order.len() as int) =~= order);
}

proof fn lemma_reads(order: Seq<Axes>, lines: Seq<Seq<char>>, n: nat)
    requires
        n <= lines.len(),
        lines.len() == order.len(),
        forall|i: int|
            0 <= i < lines.len() ==> #[trigger] lines[i] == panel_record::record_line(order[i]),
        ascending(order),
        forall|i: int| 0 <= i < order.len() ==> (#[trigger] order[i]).attention.bounded(),
    ensures
        lines_read(lines, n) == Ok::<Seq<Axes>, SnapshotFault>(order.take(n as int)),
    decreases n,
{
    if n > 0 {
        lemma_reads(order, lines, (n - 1) as nat);
        let a = order[n - 1];
        assert(lines[n - 1] == panel_record::record_line(a));
        panel_record_laws::records_read_back(a);
        text::trimmed_text_stays(lines[n - 1]);
        let before = order.take(n - 1);
        assert(!names_panel(before, a.panel)) by {
            if names_panel(before, a.panel) {
                let i = choose|i: int|
                    0 <= i < before.len() && (#[trigger] before[i]).panel == a.panel;
                assert(before[i] == order[i]);
                assert(order[i].panel.0 < order[n - 1].panel.0);
            }
        }
        assert(order.take(n as int) =~= before.push(a));
    } else {
        assert(order.take(0) =~= Seq::<Axes>::empty());
    }
}

/// No two panels share an id.
pub open spec fn distinct_panels(panels: Seq<Axes>) -> bool {
    forall|i: int, j: int|
        0 <= i < j < panels.len() ==> (#[trigger] panels[i]).panel != (
        #[trigger] panels[j]).panel
}

/// The number of leading panels below `id`.
spec fn leading_below(order: Seq<Axes>, id: u64) -> int
    decreases order.len(),
{
    if order.len() == 0 {
        0
    } else if order.last().panel.0 < id {
        order.len() as int
    } else {
        leading_below(order.drop_last(), id)
    }
}

proof fn lemma_leading_below(order: Seq<Axes>, id: u64)
    requires
        ascending(order),
    ensures
        0 <= leading_below(order, id) <= order.len(),
        forall|i: int|
            0 <= i < leading_below(order, id) ==> (#[trigger] order[i]).panel.0 < id,
        forall|i: int|
            leading_below(order, id) <= i < order.len() ==> (#[trigger] order[i]).panel.0 >= id,
    decreases order.len(),
{
    if order.len() > 0 {
        let front = order.drop_last();
        assert(forall|i: int| 0 <= i < front.len() ==> front[i] == order[i]);
        lemma_leading_below(front, id);
        if order.last().panel.0 < id {
            assert forall|i: int| 0 <= i < order.len() implies (#[trigger] order[i]).panel.0
                < id by {
                if i < order.len() - 1 {
                    assert(order[i].panel.0 < order[order.len() - 1].panel.0);
                }
            }
        } else {
            assert forall|i: int|
                leading_below(order, id) <= i < order.len() implies (#[trigger] order[i]).panel.0
                >= id by {
                if i < front.len() {
                    assert(front[i].panel.0 >= id);
                }
            }
        }
    }
}

proof fn lemma_sorted(panels: Seq<Axes>) -> (order: Seq<Axes>)
    requires
        distinct_panels(panels),
    ensures
        ascending(order),
        order.len() == panels.len(),
        order.to_multiset() == panels.to_multiset(),
        order.map_values(|a: Axes| ticket_of(a)).to_multiset() == panels.map_values(
            |a: Axes| ticket_of(a),
        ).to_multiset(),
    decreases panels.len(),
{
    broadcast use vstd::seq_lib::group_to_multiset_ensures;

    if panels.len() == 0 {
        panels
    } else {
        let front = panels.drop_last();
        let x = panels.last();
        let sorted = lemma_sorted(front);
        let k = leading_below(sorted, x.panel.0);
        lemma_leading_below(sorted, x.panel.0);
        let order = sorted.insert(k, x);
        assert forall|i: int| 0 <= i < sorted.len() implies (#[trigger] sorted[i]).panel
            != x.panel by {
            assert(sorted.contains(sorted[i]));
            assert(front.to_multiset().count(sorted[i]) > 0);
            assert(front.contains(sorted[i]));
            let j = choose|j: int| 0 <= j < front.len() && front[j] == sorted[i];
            assert(panels[j].panel != panels[panels.len() - 1].panel);
        }
        assert forall|p: int, q: int| 0 <= p < q < order.len() implies (#[trigger] order[p]).panel.0
            < (#[trigger] order[q]).panel.0 by {
            let a = if p > k {
                p - 1
            } else {
                p
            };
            let b = if q > k {
                q - 1
            } else {
                q
            };
            if p != k {
                assert(order[p] == sorted[a]);
            }
            if q != k {
                assert(order[q] == sorted[b]);
            }
        }
        assert(panels =~= front.push(x));
        assert(panels.to_multiset() == front.to_multiset().insert(x));
        assert(order.to_multiset() == sorted.to_multiset().insert(x));
        let many = sorted.map_values(|a: Axes| ticket_of(a));
        let few = front.map_values(|a: Axes| ticket_of(a));
        assert(order.map_values(|a: Axes| ticket_of(a)) =~= many.insert(k, ticket_of(x)));
        assert(panels.map_values(|a: Axes| ticket_of(a)) =~= few.push(ticket_of(x)));
        assert(many.insert(k, ticket_of(x)).to_multiset() == many.to_multiset().insert(
            ticket_of(x),
        ));
        assert(few.push(ticket_of(x)).to_multiset() == few.to_multiset().insert(ticket_of(x)));
        order
    }
}

/// Writing a snapshot of at most 256 panels with distinct ids and bounded
/// badge labels and reading it gives back the records of exactly these panels.
pub proof fn snapshots_keep_every_panel(panels: Seq<Axes>, doc: Seq<char>)
    requires
        is_snapshot(doc, panels),
        distinct_panels(panels),
        panels.len() <= MAX_SNAPSHOT_PANELS,
        forall|i: int| 0 <= i < panels.len() ==> (#[trigger] panels[i]).attention.bounded(),
    ensures
        document_read(doc) matches Ok(records) && records.to_multiset() == panels.to_multiset(),
{
    broadcast use vstd::seq_lib::group_to_multiset_ensures;

    let order = lemma_sorted(panels);
    assert forall|i: int| 0 <= i < order.len() implies (#[trigger] order[i]).attention.bounded() by {
        assert(order.contains(order[i]));
        assert(panels.to_multiset().count(order[i]) > 0);
        assert(panels.contains(order[i]));
    }
    snapshots_read_back(order);
    let tickets = choose|tickets: Seq<Ticket>| #[trigger]
        in_order(tickets) && tickets.to_multiset() == panels.map_values(
            |a: Axes| ticket_of(a),
        ).to_multiset() && doc == document_of(tickets);
    snapshots_are_unique(tickets, order.map_values(|a: Axes| ticket_of(a)));
}

/// A panel that comes back mounted or focused is focused exactly if its focus
/// says so, and any other panel comes back without focus; nothing else changes.
pub proof fn focus_settles_the_lifecycle(a: Axes)
    ensures
        ({
            let b = rebuilt(a);
            let placed = a.lifecycle is Mounted || a.lifecycle is Focused;
            &&& placed ==> b.focus == a.focus
            &&& placed && a.focus is Focused ==> b.lifecycle is Focused
            &&& placed && a.focus is Unfocused ==> b.lifecycle is Mounted
            &&& !placed ==> b.lifecycle == a.lifecycle && b.focus is Unfocused
            &&& b.panel == a.panel && b.node == a.node && b.presentation == a.presentation
            &&& b.visibility == a.visibility && b.attention == a.attention
            &&& b.interaction == a.interaction && b.activity == a.activity
        }),
{
}

/// Lines are read one after the other. A line of spaces and a line that starts
/// with `#` add nothing; any other adds its record, unless it is faulty or names a
/// panel that an earlier line named.
pub proof fn snapshot_lines_add_up(lines: Seq<Seq<char>>, line: Seq<char>)
    requires
        lines.len() < usize::MAX,
    ensures
        ({
            let n = lines.len();
            let all = lines.push(line);
            let bare = text::trimmed(line);
            match lines_read(lines, n) {
                Err(fault) => lines_read(all, n + 1) == Err::<Seq<Axes>, SnapshotFault>(fault),
                Ok(records) => {
                    &&& bare.len() == 0 || bare[0] == '#' ==> lines_read(all, n + 1) == Ok::<
                        Seq<Axes>,
                        SnapshotFault,
                    >(records)
                    &&& bare.len() > 0 && bare[0] != '#' ==> match panel_record::record_read(bare) {
                        Err(fault) => lines_read(all, n + 1) == Err::<Seq<Axes>, SnapshotFault>(
                            SnapshotFault::Record(fault, (n + 1) as usize),
                        ),
                        Ok(a) => if exists|i: int|
                            0 <= i < records.len() && (#[trigger] records[i]).panel == a.panel {
                            lines_read(all, n + 1) == Err::<Seq<Axes>, SnapshotFault>(
                                SnapshotFault::Duplicate(a.panel.0),
                            )
                        } else {
                            lines_read(all, n + 1) == Ok::<Seq<Axes>, SnapshotFault>(
                                records.push(a),
                            )
                        },
                    }
                },
            }
        }),
{
    lines_read_prefix(lines, line, lines.len());
}

proof fn lines_read_prefix(lines: Seq<Seq<char>>, line: Seq<char>, n: nat)
    requires
        n <= lines.len(),
    ensures
        lines_read(lines.push(line), n) == lines_read(lines, n),
    decreases n,
{
    if n > 0 {
        lines_read_prefix(lines, line, (n - 1) as nat);
        assert(lines.push(line)[n - 1] == lines[n - 1]);
    }
}

/// A snapshot is what its lines say, unless they name more than 256 panels.
pub proof fn snapshots_hold_256_panels(doc: Seq<char>)
    ensures
        match lines_read(text::lines_of(doc), text::lines_of(doc).len()) {
            Err(fault) => document_read(doc) == Err::<Seq<Axes>, SnapshotFault>(fault),
            Ok(records) => if records.len() <= 256 {
                document_read(doc) == Ok::<Seq<Axes>, SnapshotFault>(records)
            } else {
                document_read(doc) == Err::<Seq<Axes>, SnapshotFault>(
                    SnapshotFault::TooMany(records.len()),
                )
            },
        },
{
}

/// A report holds one state for every record, by rising panel id, each with its
/// focus settled and all else as it was recorded.
pub proof fn reports_list_every_panel(report: RehydrateReport, records: Seq<Axes>, i: int)
    requires
        reports_records(report, records),
        0 <= i < report.states@.len(),
    ensures
        report.states@.len() == records.len(),
        report.applied@.len() == records.len(),
        report.applied@[i] == report.states@[i]@.panel.0,
        i + 1 < report.applied@.len() ==> report.applied@[i] < report.applied@[i + 1],
        exists|a: Axes|
            #[trigger] records.contains(a) && report.states@[i]@.panel == a.panel
                && report.states@[i]@.node == a.node && report.states@[i]@.presentation
                == a.presentation && report.states@[i]@.visibility == a.visibility
                && report.states@[i]@.attention == a.attention,
        report.states@[i]@.lifecycle is Focused <==> report.states@[i]@.focus is Focused,
{
    let order = choose|order: Seq<Axes>| #[trigger]
        ascending(order) && order.to_multiset() == records.to_multiset() && axes_of(
            report.states@,
        ) == order.map_values(|a: Axes| rebuilt(a)) && report.applied@ == order.map_values(
            |a: Axes| a.panel.0,
        );
    assert(axes_of(report.states@).len() == order.len());
    assert(axes_of(report.states@)[i] == report.states@[i]@);
    assert(axes_of(report.states@)[i] == rebuilt(order[i]));
    seqs::reordered_holds_the_same(order, records, order[i]);
    assert(order.contains(order[i]));
    assert(records.contains(order[i]));
    focus_settles_the_lifecycle(order[i]);
}

} // verus!
