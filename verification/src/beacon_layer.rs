//! The annotation layer of a hint session: one batch that pairs each target
//! with its label and the cell the label is drawn at.

use crate::beacon_target::TargetRef;
use crate::geometry;
use crate::geometry::{Point, Rect};
use crate::seqs;
use crate::text;
use vstd::prelude::*;

verus! {

/// Most annotations of one session.
pub const MAX_BEACON_ANNOTATIONS: usize = 1024;

/// Refusal to build a layer.
#[derive(Debug, Clone, Copy, PartialEq, Eq, Structural)]
pub enum AnnotationLayerError {
    /// Targets, labels and anchors differ in number.
    LengthMismatch {
        /// Number of targets.
        targets: usize,
        /// Number of labels.
        labels: usize,
        /// Number of anchors.
        anchors: usize,
    },
    /// There are more annotations than a layer holds.
    TooManyAnnotations {
        /// Annotations asked for.
        requested: usize,
        /// The bound.
        max: usize,
    },
}

impl AnnotationLayerError {
    /// The message of the error.
    pub open spec fn spelled(self) -> Seq<char> {
        match self {
            AnnotationLayerError::LengthMismatch { targets, labels, anchors } =>
            "beacon layer length mismatch: "@ + text::decimal(targets as nat) + " targets, "@
                + text::decimal(labels as nat) + " labels, "@ + text::decimal(anchors as nat)
                + " anchors"@,
            AnnotationLayerError::TooManyAnnotations { requested, max } =>
            "too many beacon annotations: requested "@ + text::decimal(requested as nat) + ", max "@
                + text::decimal(max as nat),
        }
    }

    /// Spells the error.
    #[must_use]
    pub fn text(&self) -> (out: String)
        ensures
            out@ == self.spelled(),
    {
        match self {
            Self::LengthMismatch { targets, labels, anchors } => {
                let mut out = text::tagged_numbers(
                    "beacon layer length mismatch: ",
                    *targets as u64,
                    " targets, ",
                    *labels as u64,
                    " labels, ",
                );
                text::push_decimal(&mut out, *anchors as u64);
                text::push_text(&mut out, " anchors");
                out
            },
            Self::TooManyAnnotations { requested, max } => text::ending_numbers(
                "too many beacon annotations: requested ",
                *requested as u64,
                ", max ",
                *max as u64,
            ),
        }
    }
}

/// A target, the label drawn for it, and the cell it is drawn at.
#[derive(Debug, PartialEq, Eq)]
pub struct BeaconAnnotation {
    /// The target.
    pub target: TargetRef,
    /// The label.
    pub label: String,
    /// The cell of the label.
    pub anchor: Point,
}

/// What an annotation says.
pub struct Hint {
    /// The target.
    pub target: TargetRef,
    /// The characters of the label.
    pub label: Seq<char>,
    /// The cell of the label.
    pub anchor: Point,
}

impl View for BeaconAnnotation {
    type V = Hint;

    open spec fn view(&self) -> Hint {
        Hint { target: self.target, label: self.label@, anchor: self.anchor }
    }
}

impl Clone for BeaconAnnotation {
    fn clone(&self) -> (copy: Self)
        ensures
            copy@ == self@,
    {
        Self { target: self.target, label: self.label.clone(), anchor: self.anchor }
    }
}

/// What a run of annotations says.
pub open spec fn hints_in(annotations: Seq<BeaconAnnotation>) -> Seq<Hint> {
    Seq::new(annotations.len(), |i: int| annotations[i]@)
}

/// The condition of carrying the label.
pub open spec fn carries(label: Seq<char>) -> spec_fn(Hint) -> bool {
    |hint: Hint| hint.label == label
}

/// The annotations of one hint session.
#[derive(Debug)]
pub struct BeaconAnnotationLayer {
    annotations: Vec<BeaconAnnotation>,
    viewport: Rect,
}

impl BeaconAnnotationLayer {
    /// What the layer shows, in build order.
    pub closed spec fn hints(self) -> Seq<Hint> {
        hints_in(self.annotations@)
    }

    /// The viewport that the anchors are local to.
    pub closed spec fn area(self) -> Rect {
        self.viewport
    }

    /// The layer is within its bound.
    pub open spec fn wf(self) -> bool {
        self.hints().len() <= MAX_BEACON_ANNOTATIONS
    }

    /// Builds a layer from targets, labels and anchors, in order.
    pub fn build(
        targets: &[TargetRef],
        labels: &[String],
        anchors: &[Point],
        viewport: Rect,
    ) -> (r: Result<Self, AnnotationLayerError>)
        ensures
            if targets@.len() != labels@.len() || targets@.len() != anchors@.len() {
                r == Err::<Self, AnnotationLayerError>(
                    AnnotationLayerError::LengthMismatch {
                        targets: targets@.len() as usize,
                        labels: labels@.len() as usize,
                        anchors: anchors@.len() as usize,
                    },
                )
            } else if targets@.len() > MAX_BEACON_ANNOTATIONS {
                r == Err::<Self, AnnotationLayerError>(
                    AnnotationLayerError::TooManyAnnotations {
                        requested: targets@.len() as usize,
                        max: MAX_BEACON_ANNOTATIONS,
                    },
                )
            } else {
                &&& r is Ok
                &&& r->Ok_0.wf()
                &&& r->Ok_0.area() == viewport
                &&& r->Ok_0.hints() == Seq::new(
                    targets@.len(),
                    |i: int|
                        Hint { target: targets@[i], label: labels@[i]@, anchor: anchors@[i] },
                )
            },
    {
        if targets.len() != labels.len() || targets.len() != anchors.len() {
            return Err(
                AnnotationLayerError::LengthMismatch {
                    targets: targets.len(),
                    labels: labels.len(),
                    anchors: anchors.len(),
                },
            );
        }
        if targets.len() > MAX_BEACON_ANNOTATIONS {
            return Err(
                AnnotationLayerError::TooManyAnnotations {
                    requested: targets.len(),
                    max: MAX_BEACON_ANNOTATIONS,
                },
            );
        }
        let mut annotations: Vec<BeaconAnnotation> = Vec::new();
        while annotations.len() < targets.len()
            invariant
                annotations@.len() <= targets@.len(),
                targets@.len() == labels@.len(),
                targets@.len() == anchors@.len(),
                forall|i: int|
                    0 <= i < annotations@.len() ==> (#[trigger] annotations@[i])@ == (Hint {
                        target: targets@[i],
                        label: labels@[i]@,
                        anchor: anchors@[i],
                    }),
            decreases targets.len() - annotations.len(),
        {
            let i: usize = annotations.len();
            annotations.push(
                BeaconAnnotation {
                    target: targets[i],
                    label: labels[i].clone(),
                    anchor: anchors[i],
                },
            );
        }
        let layer = Self { annotations, viewport };
        assert(layer.hints() =~= Seq::new(
            targets@.len(),
            |i: int| Hint { target: targets@[i], label: labels@[i]@, anchor: anchors@[i] },
        ));
        Ok(layer)
    }

    /// Number of annotations.
    #[must_use]
    pub fn len(&self) -> (n: usize)
        ensures
            n == self.hints().len(),
    {
        self.annotations.len()
    }

    /// Whether there is no annotation.
    #[must_use]
    pub fn is_empty(&self) -> (empty: bool)
        ensures
            empty == (self.hints().len() == 0),
    {
        self.annotations.len() == 0
    }

    /// The viewport that the anchors are local to.
    #[must_use]
    pub fn viewport(&self) -> (area: Rect)
        ensures
            area == self.area(),
    {
        self.viewport
    }

    /// The annotations in build order.
    #[must_use]
    pub fn annotations(&self) -> (annotations: &[BeaconAnnotation])
        ensures
            hints_in(annotations@) == self.hints(),
    {
        self.annotations.as_slice()
    }

    /// The first annotation that carries the label.
    #[must_use]
    pub fn annotation_for_label(&self, label: &str) -> (found: Option<&BeaconAnnotation>)
        ensures
            match seqs::find_where(self.hints(), carries(label@)) {
                Some(hint) => found is Some && found->0@ == hint,
                None => found is None,
            },
    {
        let mut i: usize = 0;
        while i < self.annotations.len()
            invariant
                0 <= i <= self.annotations.len(),
                forall|j: int| 0 <= j < i ==> !carries(label@)(#[trigger] self.hints()[j]),
            decreases self.annotations.len() - i,
        {
            if text::same_text(self.annotations[i].label.as_str(), label) {
                proof {
                    seqs::first_where_unique(self.hints(), carries(label@), i as int);
                }
                return Some(&self.annotations[i]);
            }
            i = i + 1;
        }
        proof {
            seqs::first_where_unique(self.hints(), carries(label@), i as int);
        }
        None
    }

    /// Drops every annotation.
    pub fn clear(&mut self)
        ensures
            final(self).hints() == Seq::<Hint>::empty(),
            final(self).area() == old(self).area(),
    {
        self.annotations.clear();
        assert(self.hints() =~= Seq::<Hint>::empty());
    }
}

impl Default for BeaconAnnotationLayer {
    fn default() -> (layer: Self)
        ensures
            layer.hints() == Seq::<Hint>::empty(),
            layer.area() == geometry::zero_rect(),
    {
        let layer = Self { annotations: Vec::new(), viewport: Rect::zero() };
        assert(layer.hints() =~= Seq::<Hint>::empty());
        layer
    }
}

impl Clone for BeaconAnnotationLayer {
    fn clone(&self) -> (layer: Self)
        ensures
            layer.hints() == self.hints(),
            layer.area() == self.area(),
    {
        let mut annotations: Vec<BeaconAnnotation> = Vec::new();
        while annotations.len() < self.annotations.len()
            invariant
                annotations@.len() <= self.annotations@.len(),
                forall|i: int|
                    0 <= i < annotations@.len() ==> (#[trigger] annotations@[i])@
                        == self.annotations@[i]@,
            decreases self.annotations.len() - annotations.len(),
        {
            let i: usize = annotations.len();
            annotations.push(self.annotations[i].clone());
        }
        let layer = Self { annotations, viewport: self.viewport };
        assert(layer.hints() =~= self.hints());
        layer
    }
}

/// When the labels of a session are all different, each label finds its own
/// annotation.
pub proof fn unique_labels_find_their_hint(hints: Seq<Hint>, i: int)
    requires
        0 <= i < hints.len(),
        forall|a: int, b: int|
            0 <= a < b < hints.len() ==> (#[trigger] hints[a]).label != (#[trigger] hints[b]).label,
    ensures
        seqs::find_where(hints, carries(hints[i].label)) == Some(hints[i]),
{
    assert forall|j: int| 0 <= j < i implies !carries(hints[i].label)(#[trigger] hints[j]) by {
        assert(hints[j].label != hints[i].label);
    }
    seqs::first_where_unique(hints, carries(hints[i].label), i);
}

} // verus!
