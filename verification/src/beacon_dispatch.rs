//! Dispatch of hint labels: each label of a session is bound to a command, and
//! selecting it names that command as long as the target is current. Nothing is
//! executed here.

use crate::beacon_label;
use crate::beacon_label::LabelPolicy;
use crate::beacon_layer;
use crate::beacon_layer::{BeaconAnnotationLayer, Hint};
use crate::beacon_target::{TargetError, TargetRef, TargetRegistry};
use crate::geometry::Point;
use crate::panel_command::QualifiedCommand;
use crate::text;
use vstd::prelude::*;

verus! {

/// Most labels of one dispatcher.
pub const MAX_BEACON_BINDINGS: usize = 1024;

/// Refusal of the dispatcher; the hint session ends.
#[derive(Debug, Clone, PartialEq, Eq)]
pub enum DispatchError {
    /// No binding carries the label.
    UnknownLabel(String),
    /// The target is not current any more.
    StaleTarget(String),
    /// The dispatcher has no room.
    TooManyBindings {
        /// The bound.
        max: usize,
        /// Labels bound.
        current: usize,
    },
}

impl DispatchError {
    /// The message of the error.
    pub open spec fn spelled(self) -> Seq<char> {
        match self {
            DispatchError::UnknownLabel(label) => "unknown beacon label: '"@ + label@ + "'"@,
            DispatchError::StaleTarget(detail) => "stale beacon target: "@ + detail@,
            DispatchError::TooManyBindings { max, current } => "too many beacon bindings: max "@
                + text::decimal(max as nat) + ", current "@ + text::decimal(current as nat),
        }
    }

    /// Spells the error.
    #[must_use]
    pub fn text(&self) -> (out: String)
        ensures
            out@ == self.spelled(),
    {
        match self {
            Self::UnknownLabel(label) => text::joined3(
                "unknown beacon label: '",
                label.as_str(),
                "'",
            ),
            Self::StaleTarget(detail) => text::joined("stale beacon target: ", detail.as_str()),
            Self::TooManyBindings { max, current } => text::ending_numbers(
                "too many beacon bindings: max ",
                *max as u64,
                ", current ",
                *current as u64,
            ),
        }
    }
}

/// The detail of a target error, as a dispatch reports it.
pub open spec fn detail_of(err: TargetError) -> Seq<char> {
    match err {
        TargetError::UnknownTarget(detail) => detail@,
        TargetError::StaleTarget(detail) => detail@,
        TargetError::TooManyTargets { .. } => err.spelled(),
    }
}

impl From<TargetError> for DispatchError {
    fn from(err: TargetError) -> (e: Self)
        ensures
            e matches DispatchError::StaleTarget(detail) && detail@ == detail_of(err),
    {
        match err {
            TargetError::UnknownTarget(detail) => Self::StaleTarget(detail),
            TargetError::StaleTarget(detail) => Self::StaleTarget(detail),
            TargetError::TooManyTargets { .. } => Self::StaleTarget(err.text()),
        }
    }
}

impl vstd::std_specs::convert::FromSpecImpl<TargetError> for DispatchError {
    open spec fn obeys_from_spec() -> bool {
        false
    }

    open spec fn from_spec(err: TargetError) -> DispatchError {
        arbitrary()
    }
}

/// What a label is bound to.
pub struct Binding {
    /// The target.
    pub target: TargetRef,
    /// The spelling of the command.
    pub command: Seq<char>,
}

/// The bindings after the first `n` hints of a layer are bound to the commands
/// at the same positions; a label bound before is bound anew.
pub open spec fn bound(
    bindings: Map<Seq<char>, Binding>,
    hints: Seq<Hint>,
    commands: Seq<QualifiedCommand>,
    n: int,
) -> Map<Seq<char>, Binding>
    decreases n,
{
    if n <= 0 {
        bindings
    } else {
        bound(bindings, hints, commands, n - 1).insert(
            hints[n - 1].label,
            Binding { target: hints[n - 1].target, command: commands[n - 1]@ },
        )
    }
}

#[derive(Debug)]
struct Entry {
    label: String,
    target: TargetRef,
    command: QualifiedCommand,
}

impl Entry {
    spec fn binding(self) -> Binding {
        Binding { target: self.target, command: self.command@ }
    }
}

spec fn table(entries: Seq<Entry>) -> Map<Seq<char>, Binding>
    decreases entries.len(),
{
    if entries.len() == 0 {
        Map::empty()
    } else {
        table(entries.drop_last()).insert(entries.last().label@, entries.last().binding())
    }
}

spec fn distinct(entries: Seq<Entry>) -> bool {
    forall|i: int, j: int|
        0 <= i < j < entries.len() ==> (#[trigger] entries[i]).label@ != (
        #[trigger] entries[j]).label@
}

proof fn lemma_table(entries: Seq<Entry>)
    requires
        distinct(entries),
    ensures
        table(entries).dom().finite(),
        table(entries).len() == entries.len(),
        forall|i: int|
            0 <= i < entries.len() ==> table(entries).contains_key((#[trigger] entries[i]).label@)
                && table(entries)[entries[i].label@] == entries[i].binding(),
        forall|label: Seq<char>|
            #[trigger] table(entries).contains_key(label) ==> exists|i: int|
                0 <= i < entries.len() && (#[trigger] entries[i]).label@ == label,
    decreases entries.len(),
{
    if entries.len() > 0 {
        let rest = entries.drop_last();
        lemma_table(rest);
        let last = entries.last();
        assert(!table(rest).contains_key(last.label@)) by {
            if table(rest).contains_key(last.label@) {
                let i = choose|i: int|
                    0 <= i < rest.len() && (#[trigger] rest[i]).label@ == last.label@;
                assert(entries[i].label@ != entries[entries.len() - 1].label@);
            }
        }
        assert(table(entries).dom() =~= table(rest).dom().insert(last.label@));
        assert forall|i: int| 0 <= i < entries.len() implies table(entries).contains_key(
            (#[trigger] entries[i]).label@,
        ) && table(entries)[entries[i].label@] == entries[i].binding() by {
            if i < rest.len() {
                assert(rest[i] == entries[i]);
            }
        }
        assert forall|label: Seq<char>| #[trigger]
            table(entries).contains_key(label) implies exists|i: int|
            0 <= i < entries.len() && (#[trigger] entries[i]).label@ == label by {
            if label == last.label@ {
                assert(entries[entries.len() - 1].label@ == label);
            } else {
                let i = choose|i: int| 0 <= i < rest.len() && (#[trigger] rest[i]).label@ == label;
                assert(entries[i].label@ == label);
            }
        }
    }
}

proof fn lemma_replace(entries: Seq<Entry>, k: int, e: Entry)
    requires
        distinct(entries),
        0 <= k < entries.len(),
        e.label@ == entries[k].label@,
    ensures
        distinct(entries.update(k, e)),
        table(entries.update(k, e)) == table(entries).insert(e.label@, e.binding()),
{
    let after = entries.update(k, e);
    assert forall|i: int, j: int| 0 <= i < j < after.len() implies (#[trigger] after[i]).label@ != (
    #[trigger] after[j]).label@ by {
        assert(entries[i].label@ != entries[j].label@);
    }
    lemma_table(entries);
    lemma_table(after);
    let (a, b) = (table(after), table(entries).insert(e.label@, e.binding()));
    assert forall|label: Seq<char>| a.contains_key(label) <==> b.contains_key(label) by {
        if a.contains_key(label) {
            let i = choose|i: int| 0 <= i < after.len() && (#[trigger] after[i]).label@ == label;
            assert(entries[i].label@ == label);
        }
        if b.contains_key(label) && label != e.label@ {
            let i = choose|i: int|
                0 <= i < entries.len() && (#[trigger] entries[i]).label@ == label;
            assert(after[i].label@ == label);
        }
        assert(after[k].label@ == e.label@);
    }
    assert forall|label: Seq<char>| a.contains_key(label) implies a[label] == b[label] by {
        let i = choose|i: int| 0 <= i < after.len() && (#[trigger] after[i]).label@ == label;
        if i != k {
            assert(entries[i] == after[i]);
            if i < k {
                assert(entries[i].label@ != entries[k].label@);
            } else {
                assert(entries[k].label@ != entries[i].label@);
            }
        }
    }
    assert(a =~= b);
}

/// The commands of the labels of a hint session.
#[derive(Debug)]
pub struct BeaconDispatcher {
    entries: Vec<Entry>,
}

impl BeaconDispatcher {
    /// What each label is bound to.
    pub closed spec fn bindings(self) -> Map<Seq<char>, Binding> {
        table(self.entries@)
    }

    /// Each label is bound once, and there are no more labels than the bound.
    pub closed spec fn wf(self) -> bool {
        distinct(self.entries@) && self.entries@.len() <= MAX_BEACON_BINDINGS
    }

    /// Creates a dispatcher without bindings.
    #[must_use]
    pub fn new() -> (dispatcher: Self)
        ensures
            dispatcher.wf(),
            dispatcher.bindings() == Map::<Seq<char>, Binding>::empty(),
    {
        Self { entries: Vec::new() }
    }

    fn position(&self, label: &str) -> (k: usize)
        ensures
            k <= self.entries@.len(),
            k < self.entries@.len() ==> self.entries@[k as int].label@ == label@,
            forall|j: int| 0 <= j < k ==> (#[trigger] self.entries@[j]).label@ != label@,
    {
        let mut i: usize = 0;
        while i < self.entries.len()
            invariant
                0 <= i <= self.entries.len(),
                forall|j: int| 0 <= j < i ==> (#[trigger] self.entries@[j]).label@ != label@,
            decreases self.entries.len() - i,
        {
            if text::same_text(self.entries[i].label.as_str(), label) {
                return i;
            }
            i = i + 1;
        }
        i
    }

    fn insert(&mut self, label: &str, target: TargetRef, command: &QualifiedCommand)
        requires
            distinct(old(self).entries@),
        ensures
            distinct(final(self).entries@),
            final(self).entries@.len() <= old(self).entries@.len() + 1,
            final(self).bindings() == old(self).bindings().insert(
                label@,
                Binding { target, command: command@ },
            ),
    {
        let k: usize = self.position(label);
        let entry = Entry { label: text::joined(label, ""), target, command: command.clone() };
        proof {
            reveal_strlit("");
            assert(entry.label@ =~= label@);
        }
        if k < self.entries.len() {
            proof {
                lemma_replace(self.entries@, k as int, entry);
            }
            self.entries.set(k, entry);
        } else {
            self.entries.push(entry);
            assert(self.entries@.drop_last() =~= old(self).entries@);
        }
    }

    /// Binds each annotation of the layer to the command at its position. The
    /// two must agree in number and fit beside the labels bound already.
    pub fn bind_layer(&mut self, layer: &BeaconAnnotationLayer, commands: &[QualifiedCommand]) -> (r:
        Result<(), DispatchError>)
        requires
            old(self).wf(),
        ensures
            final(self).wf(),
            match r {
                Ok(_) => layer.hints().len() == commands@.len() && old(self).bindings().len()
                    + commands@.len() <= MAX_BEACON_BINDINGS && final(self).bindings() == bound(
                    old(self).bindings(),
                    layer.hints(),
                    commands@,
                    commands@.len() as int,
                ),
                Err(e) => final(self).bindings() == old(self).bindings() && (if layer.hints().len()
                    != commands@.len() {
                    e matches DispatchError::UnknownLabel(detail) && detail@ == "layer holds "@
                        + text::decimal(layer.hints().len()) + " annotations but "@ + text::decimal(
                        commands@.len(),
                    ) + " commands were supplied"@
                } else {
                    old(self).bindings().len() + commands@.len() > MAX_BEACON_BINDINGS && e == (
                    DispatchError::TooManyBindings {
                        max: MAX_BEACON_BINDINGS,
                        current: old(self).bindings().len() as usize,
                    })
                }),
            },
    {
        proof {
            lemma_table(self.entries@);
        }
        if layer.len() != commands.len() {
            let detail = text::tagged_numbers(
                "layer holds ",
                layer.len() as u64,
                " annotations but ",
                commands.len() as u64,
                " commands were supplied",
            );
            return Err(DispatchError::UnknownLabel(detail));
        }
        if commands.len() > MAX_BEACON_BINDINGS - self.entries.len() {
            return Err(
                DispatchError::TooManyBindings {
                    max: MAX_BEACON_BINDINGS,
                    current: self.entries.len(),
                },
            );
        }
        let annotations = layer.annotations();
        let ghost hints = layer.hints();
        let mut i: usize = 0;
        while i < commands.len()
            invariant
                0 <= i <= commands.len(),
                annotations@.len() == commands@.len(),
                hints == beacon_layer::hints_in(annotations@),
                distinct(self.entries@),
                self.entries@.len() <= old(self).entries@.len() + i,
                self.bindings() == bound(old(self).bindings(), hints, commands@, i as int),
            decreases commands.len() - i,
        {
            let annotation = &annotations[i];
            assert(hints[i as int] == annotation@);
            self.insert(annotation.label.as_str(), annotation.target, &commands[i]);
            i = i + 1;
        }
        Ok(())
    }

    /// Number of labels bound.
    #[must_use]
    pub fn len(&self) -> (n: usize)
        requires
            self.wf(),
        ensures
            n == self.bindings().len(),
    {
        proof {
            lemma_table(self.entries@);
        }
        self.entries.len()
    }

    /// Whether no label is bound.
    #[must_use]
    pub fn is_empty(&self) -> (empty: bool)
        requires
            self.wf(),
        ensures
            empty == (self.bindings().len() == 0),
    {
        proof {
            lemma_table(self.entries@);
        }
        self.entries.len() == 0
    }

    /// The command bound to the label, if its target is current.
    pub fn dispatch(&self, label: &str, registry: &TargetRegistry) -> (r: Result<
        QualifiedCommand,
        DispatchError,
    >)
        requires
            self.wf(),
        ensures
            if !self.bindings().contains_key(label@) {
                r matches Err(DispatchError::UnknownLabel(detail)) && detail@ == label@
            } else if !registry.is_current(self.bindings()[label@].target) {
                r matches Err(DispatchError::StaleTarget(detail)) && detail@
                    == self.bindings()[label@].target.spelled()
            } else {
                r matches Ok(command) && command@ == self.bindings()[label@].command
            },
    {
        proof {
            lemma_table(self.entries@);
        }
        let k: usize = self.position(label);
        if k >= self.entries.len() {
            let detail = text::joined(label, "");
            proof {
                reveal_strlit("");
                assert(detail@ =~= label@);
            }
            return Err(DispatchError::UnknownLabel(detail));
        }
        let entry = &self.entries[k];
        match registry.resolve(&entry.target) {
            Ok(_) => Ok(entry.command.clone()),
            Err(e) => Err(DispatchError::from(e)),
        }
    }
}

impl Default for BeaconDispatcher {
    fn default() -> (dispatcher: Self)
        ensures
            dispatcher.wf(),
            dispatcher.bindings() == Map::<Seq<char>, Binding>::empty(),
    {
        Self::new()
    }
}

impl Clone for BeaconDispatcher {
    fn clone(&self) -> (dispatcher: Self)
        ensures
            dispatcher.bindings() == self.bindings(),
            self.wf() ==> dispatcher.wf(),
    {
        let mut entries: Vec<Entry> = Vec::new();
        while entries.len() < self.entries.len()
            invariant
                entries@.len() <= self.entries@.len(),
                forall|i: int|
                    0 <= i < entries@.len() ==> (#[trigger] entries@[i]).label@
                        == self.entries@[i].label@ && entries@[i].binding()
                        == self.entries@[i].binding(),
                table(entries@) == table(self.entries@.take(entries@.len() as int)),
            decreases self.entries.len() - entries.len(),
        {
            let i: usize = entries.len();
            let entry = &self.entries[i];
            let ghost before = entries@;
            entries.push(
                Entry {
                    label: entry.label.clone(),
                    target: entry.target,
                    command: entry.command.clone(),
                },
            );
            assert(entries@.drop_last() =~= before);
            assert(self.entries@.take(i + 1).drop_last() =~= self.entries@.take(i as int));
        }
        assert(self.entries@.take(self.entries@.len() as int) =~= self.entries@);
        proof {
            if self.wf() {
                assert forall|i: int, j: int| 0 <= i < j < entries@.len() implies (
                #[trigger] entries@[i]).label@ != (#[trigger] entries@[j]).label@ by {
                    assert(self.entries@[i].label@ != self.entries@[j].label@);
                }
            }
        }
        Self { entries }
    }
}

/// When the labels of a layer are all different, binding it binds every label
/// to its own target and command, and leaves every other label alone.
pub proof fn binding_binds_each_label(
    bindings: Map<Seq<char>, Binding>,
    hints: Seq<Hint>,
    commands: Seq<QualifiedCommand>,
    n: int,
    label: Seq<char>,
)
    requires
        0 <= n <= hints.len(),
        hints.len() == commands.len(),
        forall|a: int, b: int|
            0 <= a < b < hints.len() ==> (#[trigger] hints[a]).label != (#[trigger] hints[b]).label,
    ensures
        forall|i: int|
            0 <= i < n ==> bound(bindings, hints, commands, n).contains_key(
                (#[trigger] hints[i]).label,
            ) && bound(bindings, hints, commands, n)[hints[i].label] == (Binding {
                target: hints[i].target,
                command: commands[i]@,
            }),
        (forall|i: int| 0 <= i < n ==> (#[trigger] hints[i]).label != label) ==> bound(
            bindings,
            hints,
            commands,
            n,
        ).contains_key(label) == bindings.contains_key(label) && (bindings.contains_key(label)
            ==> bound(bindings, hints, commands, n)[label] == bindings[label]),
    decreases n,
{
    if n > 0 {
        binding_binds_each_label(bindings, hints, commands, n - 1, label);
        assert forall|i: int| 0 <= i < n implies bound(
            bindings,
            hints,
            commands,
            n,
        ).contains_key((#[trigger] hints[i]).label) && bound(bindings, hints, commands, n)[hints[i].label]
            == (Binding { target: hints[i].target, command: commands[i]@ }) by {
            if i < n - 1 {
                assert(hints[i].label != hints[n - 1].label);
            }
        }
        assert(hints[n - 1].label == hints[n - 1].label);
    }
}

/// A label stands for the last hint that carries it.
pub proof fn last_hint_of_a_label_is_bound(
    bindings: Map<Seq<char>, Binding>,
    hints: Seq<Hint>,
    commands: Seq<QualifiedCommand>,
    n: int,
    i: int,
)
    requires
        0 <= i < n <= hints.len(),
        hints.len() == commands.len(),
        forall|j: int| i < j < n ==> (#[trigger] hints[j]).label != hints[i].label,
    ensures
        bound(bindings, hints, commands, n).contains_key(hints[i].label),
        bound(bindings, hints, commands, n)[hints[i].label] == (Binding {
            target: hints[i].target,
            command: commands[i]@,
        }),
    decreases n,
{
    if i < n - 1 {
        assert(hints[n - 1].label != hints[i].label);
        last_hint_of_a_label_is_bound(bindings, hints, commands, n - 1, i);
    }
}

/// In a session labelled from a policy, selecting the label of a target finds
/// that target and its command.
pub proof fn sessions_dispatch_each_label(
    policy: LabelPolicy,
    anchors: Seq<Point>,
    viewport_width: u16,
    hints: Seq<Hint>,
    commands: Seq<QualifiedCommand>,
    i: int,
)
    requires
        policy.wf(),
        beacon_label::session_fault(policy, anchors, viewport_width) is None,
        hints.len() == anchors.len(),
        commands.len() == anchors.len(),
        forall|k: int|
            0 <= k < hints.len() ==> (#[trigger] hints[k]).label == beacon_label::label_of(
                policy,
                anchors,
                viewport_width,
                k,
            ),
        0 <= i < hints.len(),
    ensures
        ({
            let bindings = bound(Map::empty(), hints, commands, commands.len() as int);
            let label = beacon_label::label_of(policy, anchors, viewport_width, i);
            bindings.contains_key(label) && bindings[label] == (Binding {
                target: hints[i].target,
                command: commands[i]@,
            })
        }),
{
    assert forall|j: int| i < j < hints.len() implies (#[trigger] hints[j]).label != hints[i].label
    by {
        beacon_label::labels_are_unique(policy, anchors, viewport_width, i, j);
    }
    last_hint_of_a_label_is_bound(Map::empty(), hints, commands, commands.len() as int, i);
}

/// A dispatch passes on what a target error says of its target.
pub proof fn dispatches_pass_the_detail_on(err: TargetError)
    ensures
        match err {
            TargetError::UnknownTarget(s) => detail_of(err) == s@,
            TargetError::StaleTarget(s) => detail_of(err) == s@,
            _ => detail_of(err) == err.spelled(),
        },
{
}

} // verus!
