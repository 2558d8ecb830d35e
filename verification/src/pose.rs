//! What a clip asks of the hierarchy at one instant.

use vstd::prelude::*;
use crate::clip::TrackView;
use crate::curve::{CurveKind, Sample, Slerp, VariableCurve};
use crate::value::Vec3;
use crate::hierarchy::{Hierarchy, ObjectId, Resolution};

verus! {

/// What one track asks for at one instant: the object that its path leads
/// to and the value of each of its curves, in the order of the curves. The
/// caller writes each value to the property of its kind on that object and
/// leaves the object's other properties alone. Where the path leads
/// nowhere there is nothing to write and `samples` is empty.
#[derive(Clone, Debug, PartialEq, Eq)]
pub struct TrackPose {
    pub target: Resolution,
    pub samples: Vec<Sample>,
}

/// A track's pose as contracts see it.
pub struct TrackPoseView {
    pub target: Resolution,
    pub samples: Seq<Sample>,
}

impl View for TrackPose {
    type V = TrackPoseView;

    open spec fn view(&self) -> TrackPoseView {
        TrackPoseView { target: self.target, samples: self.samples@ }
    }
}

/// The poses of a list of tracks as contracts see them.
pub open spec fn pose_view(pose: Seq<TrackPose>) -> Seq<TrackPoseView> {
    pose.map_values(|p: TrackPose| p@)
}

/// The values of `curves` at the instant `t`, each curve sampled on its own.
pub open spec fn samples_at(curves: Seq<VariableCurve>, t: int) -> Seq<Sample> {
    curves.map_values(|c: VariableCurve| c.sample_spec(t))
}

/// What `track` asks for at the instant `t`, with its path followed from
/// `root` through `hierarchy`.
pub open spec fn track_pose(track: TrackView, hierarchy: &Hierarchy, root: ObjectId, t: int) -> TrackPoseView {
    let target = hierarchy.locate_spec(root, track.path);
    TrackPoseView {
        target: target,
        samples: if target is Missing {
            Seq::empty()
        } else {
            samples_at(track.curves, t)
        },
    }
}

/// What the tracks ask for at the instant `t`, track by track.
pub open spec fn pose_spec(tracks: Seq<TrackView>, hierarchy: &Hierarchy, root: ObjectId, t: int) -> Seq<
    TrackPoseView,
> {
    tracks.map_values(|track: TrackView| track_pose(track, hierarchy, root, t))
}

/// The animated properties of one object, each as it was last written.
#[derive(Clone, Copy, Debug, PartialEq, Eq, Structural)]
pub struct Transform {
    pub translation: Vec3,
    pub rotation: Slerp,
    pub scale: Vec3,
}

impl Transform {
    /// The transform after `sample` is written: the property of the
    /// sample's kind has the sample's value, the other two are as before.
    pub open spec fn with(self, sample: Sample) -> Transform {
        match sample {
            Sample::Translation(v) => Transform { translation: v, ..self },
            Sample::Rotation(arc) => Transform { rotation: arc, ..self },
            Sample::Scale(v) => Transform { scale: v, ..self },
        }
    }

    /// The transform after each of `samples` is written, in order.
    pub open spec fn with_all(self, samples: Seq<Sample>) -> Transform
        decreases samples.len(),
    {
        if samples.len() == 0 {
            self
        } else {
            self.with_all(samples.drop_last()).with(samples.last())
        }
    }

    /// The property `kind` as a sample.
    pub open spec fn property(self, kind: CurveKind) -> Sample {
        match kind {
            CurveKind::Translation => Sample::Translation(self.translation),
            CurveKind::Rotation => Sample::Rotation(self.rotation),
            CurveKind::Scale => Sample::Scale(self.scale),
        }
    }

    /// Writes `sample` to the property of its kind.
    pub fn write(&mut self, sample: Sample)
        ensures
            *final(self) == old(self).with(sample),
    {
        match sample {
            Sample::Translation(v) => {
                self.translation = v;
            },
            Sample::Rotation(arc) => {
                self.rotation = arc;
            },
            Sample::Scale(v) => {
                self.scale = v;
            },
        }
    }

    /// Writes each of `samples` to the property of its kind, in order.
    pub fn write_all(&mut self, samples: &Vec<Sample>)
        ensures
            *final(self) == old(self).with_all(samples@),
    {
        let n: usize = samples.len();
        let mut i: usize = 0;
        while i < n
            invariant
                n == samples@.len(),
                i <= n,
                *self == old(self).with_all(samples@.take(i as int)),
            decreases n - i,
        {
            proof {
                assert(samples@.take(i + 1).drop_last() =~= samples@.take(i as int));
            }
            self.write(samples[i]);
            i += 1;
        }
        assert(samples@.take(n as int) =~= samples@);
    }
}

/// Writing samples leaves alone every property that none of them is for.
pub proof fn lemma_untouched_property(transform: Transform, samples: Seq<Sample>, kind: CurveKind)
    requires
        forall|i: int| 0 <= i < samples.len() ==> (#[trigger] samples[i]).spec_kind() != kind,
    ensures
        transform.with_all(samples).property(kind) == transform.property(kind),
    decreases samples.len(),
{
    if samples.len() > 0 {
        let init = samples.drop_last();
        lemma_untouched_property(transform, init, kind);
    }
}

/// Writing samples gives a property the value of the last sample for it.
pub proof fn lemma_last_write_wins(transform: Transform, samples: Seq<Sample>, i: int)
    requires
        0 <= i < samples.len(),
        forall|j: int| i < j < samples.len() ==> (#[trigger] samples[j]).spec_kind() != samples[i].spec_kind(),
    ensures
        transform.with_all(samples).property(samples[i].spec_kind()) == samples[i],
    decreases samples.len(),
{
    let init = samples.drop_last();
    let last = samples.len() - 1;
    if i < last {
        lemma_last_write_wins(transform, init, i);
    }
}

} // verus!
