//! Clips: the curves of one animation, grouped by the object they drive.

use vstd::prelude::*;
use crate::curve::{AuthoringError, CurveKind, Sample, VariableCurve};
use crate::hierarchy::{ObjectId, Resolution};
use crate::path::TargetPath;
use crate::pose::{pose_spec, pose_view, samples_at, track_pose, TrackPose};
use crate::resolver::{remembered_all, PathResolver};

verus! {

/// The curves that drive one object.
struct Track {
    path: TargetPath,
    curves: Vec<VariableCurve>,
}

/// A track as contracts see it: the names of its path and its curves in the
/// order in which they were added.
pub struct TrackView {
    pub path: Seq<Seq<char>>,
    pub curves: Seq<VariableCurve>,
}

impl View for Track {
    type V = TrackView;

    closed spec fn view(&self) -> TrackView {
        TrackView { path: self.path@, curves: self.curves@ }
    }
}

/// The curves of one animation. Curves are added while the clip is authored;
/// players only read it.
pub struct Clip {
    tracks: Vec<Track>,
    duration: i64,
}

/// Track `i` is the one for `path`.
pub open spec fn is_track_of(tracks: Seq<TrackView>, path: Seq<Seq<char>>, i: int) -> bool {
    0 <= i < tracks.len() && tracks[i].path == path
}

/// The index of the track for `path`, where there is one.
pub open spec fn track_of(tracks: Seq<TrackView>, path: Seq<Seq<char>>) -> int {
    choose|i: int| is_track_of(tracks, path, i)
}

/// Some track is for `path`.
pub open spec fn has_track(tracks: Seq<TrackView>, path: Seq<Seq<char>>) -> bool {
    exists|i: int| is_track_of(tracks, path, i)
}

/// Some curve on `path` drives the property `kind`.
pub open spec fn has_kind_on(tracks: Seq<TrackView>, path: Seq<Seq<char>>, kind: CurveKind) -> bool {
    exists|i: int, j: int|
        is_track_of(tracks, path, i) && 0 <= j < tracks[i].curves.len()
            && #[trigger] tracks[i].curves[j].keyframes.spec_kind() == kind
}

/// Whether `curve` may be added on `path`, and if not, why: a malformed curve
/// is turned away for what is wrong with it, a sound one for a curve of its
/// kind that the path already has.
pub open spec fn admits(tracks: Seq<TrackView>, path: Seq<Seq<char>>, curve: VariableCurve) -> Result<
    (),
    AuthoringError,
> {
    match curve.validate_spec() {
        Err(e) => Err(e),
        Ok(_) => if has_kind_on(tracks, path, curve.keyframes.spec_kind()) {
            Err(AuthoringError::DuplicateKind)
        } else {
            Ok(())
        },
    }
}

/// The tracks after `curve` is added on `path`: it joins the track for that
/// path as its last curve, or opens a new last track where the path had none.
pub open spec fn with_curve(tracks: Seq<TrackView>, path: Seq<Seq<char>>, curve: VariableCurve) -> Seq<
    TrackView,
> {
    if has_track(tracks, path) {
        let i = track_of(tracks, path);
        tracks.update(i, TrackView { path: path, curves: tracks[i].curves.push(curve) })
    } else {
        tracks.push(TrackView { path: path, curves: seq![curve] })
    }
}

/// The paths of the tracks, in the order of the tracks.
pub open spec fn paths_of(tracks: Seq<TrackView>) -> Seq<Seq<Seq<char>>> {
    tracks.map_values(|track: TrackView| track.path)
}

/// What holds of the tracks of every clip: each has a curve, every curve is
/// well formed, no track has two curves for one property, and no two tracks
/// share a path.
pub open spec fn tracks_ok(tracks: Seq<TrackView>) -> bool {
    &&& forall|i: int| 0 <= i < tracks.len() ==> (#[trigger] tracks[i]).curves.len() >= 1
    &&& forall|i: int, j: int|
        0 <= i < tracks.len() && 0 <= j < tracks[i].curves.len()
            ==> (#[trigger] tracks[i].curves[j]).well_formed()
    &&& forall|i: int, a: int, b: int|
        0 <= i < tracks.len() && 0 <= a < b < tracks[i].curves.len()
            ==> (#[trigger] tracks[i].curves[a]).keyframes.spec_kind()
            != (#[trigger] tracks[i].curves[b]).keyframes.spec_kind()
    &&& forall|i: int, j: int|
        0 <= i < j < tracks.len() ==> (#[trigger] tracks[i]).path != (#[trigger] tracks[j]).path
}

/// `d` is the tick of the latest keyframe of any curve, or zero where there
/// is no curve.
pub open spec fn is_duration_of(d: int, tracks: Seq<TrackView>) -> bool {
    &&& 0 <= d
    &&& forall|i: int, j: int|
        0 <= i < tracks.len() && 0 <= j < tracks[i].curves.len()
            ==> (#[trigger] tracks[i].curves[j]).end() <= d
    &&& d == 0 || exists|i: int, j: int|
        0 <= i < tracks.len() && 0 <= j < tracks[i].curves.len()
            && (#[trigger] tracks[i].curves[j]).end() == d
}

impl Track {
    /// Whether one of the track's curves drives the property `kind`.
    fn has_kind(&self, kind: CurveKind) -> (has: bool)
        ensures
            has == exists|j: int|
                0 <= j < self@.curves.len() && #[trigger] self@.curves[j].keyframes.spec_kind()
                    == kind,
    {
        let n: usize = self.curves.len();
        let mut j: usize = 0;
        while j < n
            invariant
                n == self.curves@.len(),
                j <= n,
                forall|k: int| 0 <= k < j ==> #[trigger] self@.curves[k].keyframes.spec_kind() != kind,
            decreases n - j,
        {
            if self.curves[j].keyframes.kind() == kind {
                return true;
            }
            j += 1;
        }
        false
    }
}

/// Adding an admitted curve keeps the tracks sound.
pub proof fn lemma_with_curve_ok(tracks: Seq<TrackView>, path: Seq<Seq<char>>, curve: VariableCurve)
    requires
        tracks_ok(tracks),
        admits(tracks, path, curve) is Ok,
    ensures
        tracks_ok(with_curve(tracks, path, curve)),
{
    let after = with_curve(tracks, path, curve);
    if has_track(tracks, path) {
        assert(is_track_of(tracks, path, track_of(tracks, path)));
    } else {
        let n = tracks.len() as int;
        assert forall|t: int, u: int| 0 <= t < u < after.len() implies (#[trigger] after[t]).path != (
        #[trigger] after[u]).path by {
            if u == n {
                assert(!is_track_of(tracks, path, t));
            }
        }
    }
}

/// Adding a curve lengthens the clip to the curve's end where that is later.
pub proof fn lemma_with_curve_duration(
    d: int,
    tracks: Seq<TrackView>,
    path: Seq<Seq<char>>,
    curve: VariableCurve,
)
    requires
        is_duration_of(d, tracks),
        curve.well_formed(),
    ensures
        is_duration_of(
            if curve.end() > d {
                curve.end()
            } else {
                d
            },
            with_curve(tracks, path, curve),
        ),
{
    let after = with_curve(tracks, path, curve);
    let longer = if curve.end() > d {
        curve.end()
    } else {
        d
    };
    let n = tracks.len() as int;
    let at = if has_track(tracks, path) {
        track_of(tracks, path)
    } else {
        n
    };
    let slot = after[at].curves.len() - 1;
    if longer != 0 {
        if curve.end() > d {
            assert(after[at].curves[slot].end() == longer);
        } else {
            let (i, j) = choose|i: int, j: int|
                0 <= i < tracks.len() && 0 <= j < tracks[i].curves.len() && (
                #[trigger] tracks[i].curves[j]).end() == d;
            assert(after[i].curves[j].end() == longer);
        }
    }
}

impl View for Clip {
    type V = Seq<TrackView>;

    closed spec fn view(&self) -> Seq<TrackView> {
        self.tracks@.map_values(|t: Track| t@)
    }
}

impl Clip {
    /// The length of the clip in ticks, as the clip keeps it.
    pub closed spec fn spec_duration(&self) -> int {
        self.duration as int
    }

    /// The tracks are sound and the duration kept is theirs.
    #[verifier::type_invariant]
    pub open spec fn well_formed(&self) -> bool {
        &&& tracks_ok(self@)
        &&& is_duration_of(self.spec_duration(), self@)
    }

    /// A clip without curves.
    pub fn new() -> (clip: Clip)
        ensures
            clip@ == Seq::<TrackView>::empty(),
            clip.spec_duration() == 0,
    {
        let clip = Clip { tracks: Vec::new(), duration: 0 };
        clip
    }

    /// The length of the clip in ticks: the tick of the latest keyframe of
    /// any of its curves, and zero for a clip without curves.
    pub fn duration(&self) -> (d: i64)
        ensures
            d == self.spec_duration(),
            is_duration_of(d as int, self@),
    {
        proof {
            use_type_invariant(self);
        }
        self.duration
    }

    /// Adds `curve` to the curves that drive the object at `path`.
    ///
    /// A curve that is not well formed is turned away, and so is one for a
    /// property that the path already has a curve for; the clip then stays
    /// as it was.
    pub fn add_curve_to_path(&mut self, path: TargetPath, curve: VariableCurve) -> (r: Result<
        (),
        AuthoringError,
    >)
        ensures
            r == admits(old(self)@, path@, curve),
            r is Ok ==> final(self)@ == with_curve(old(self)@, path@, curve),
            r is Ok ==> final(self).spec_duration() == if curve.end() > old(self).spec_duration() {
                curve.end()
            } else {
                old(self).spec_duration()
            },
            r is Err ==> final(self)@ == old(self)@ && final(self).spec_duration() == old(
                self,
            ).spec_duration(),
    {
        proof {
            use_type_invariant(&*self);
        }
        match curve.validate() {
            Err(e) => {
                return Err(e);
            },
            Ok(_) => {},
        }
        let kind: CurveKind = curve.keyframes.kind();
        let end: i64 = curve.keyframe_timestamps[curve.keyframe_timestamps.len() - 1];
        let found: Option<usize> = self.find_track(&path);
        if let Some(i) = found {
            if self.tracks[i].has_kind(kind) {
                return Err(AuthoringError::DuplicateKind);
            }
        }
        proof {
            lemma_with_curve_ok(self@, path@, curve);
            lemma_with_curve_duration(self.spec_duration(), self@, path@, curve);
        }
        let ghost before = self@;
        let mut taken = Clip::new();
        std::mem::swap(self, &mut taken);
        let Clip { tracks: mut tracks, duration: duration } = taken;
        match found {
            Some(i) => {
                let mut track: Track = tracks.remove(i);
                track.curves.push(curve);
                tracks.insert(i, track);
                assert(tracks@.map_values(|t: Track| t@) =~= with_curve(before, path@, curve));
            },
            None => {
                let mut curves: Vec<VariableCurve> = Vec::new();
                curves.push(curve);
                tracks.push(Track { path, curves });
                assert(tracks@.map_values(|t: Track| t@) =~= with_curve(before, path@, curve));
            },
        }
        let duration: i64 = if end > duration {
            end
        } else {
            duration
        };
        *self = Clip { tracks, duration };
        Ok(())
    }

    /// The index of the track for `path`, if the clip has one.
    fn find_track(&self, path: &TargetPath) -> (found: Option<usize>)
        ensures
            found matches Some(i) ==> is_track_of(self@, path@, i as int) && track_of(self@, path@)
                == i,
            found is None ==> !has_track(self@, path@),
    {
        proof {
            use_type_invariant(self);
        }
        let n: usize = self.tracks.len();
        let mut i: usize = 0;
        while i < n
            invariant
                n == self.tracks@.len(),
                i <= n,
                tracks_ok(self@),
                forall|j: int| 0 <= j < i ==> !is_track_of(self@, path@, j),
            decreases n - i,
        {
            if self.tracks[i].path.same_as(path) {
                assert(is_track_of(self@, path@, i as int));
                assert(track_of(self@, path@) == i);
                return Some(i);
            }
            i += 1;
        }
        None
    }

    /// What the clip asks for at `time`.
    ///
    /// Each track's path is resolved from `root`, through the resolver's
    /// cache where it has the walk. A track whose path leads nowhere is
    /// passed over for this instant; every curve of the others is sampled at
    /// `time`. A curve that has ended holds its last value while longer ones
    /// go on.
    pub fn pose(&self, time: i64, root: ObjectId, resolver: &mut PathResolver) -> (pose: Vec<TrackPose>)
        ensures
            pose_view(pose@) == pose_spec(self@, &old(resolver).spec_hierarchy(), root, time as int),
            final(resolver)@ == remembered_all(
                old(resolver)@,
                &old(resolver).spec_hierarchy(),
                root,
                paths_of(self@),
            ),
            final(resolver).spec_hierarchy() == old(resolver).spec_hierarchy(),
    {
        let ghost hierarchy = &old(resolver).spec_hierarchy();
        proof {
            use_type_invariant(self);
        }
        let n: usize = self.tracks.len();
        let mut pose: Vec<TrackPose> = Vec::new();
        let mut i: usize = 0;
        while i < n
            invariant
                n == self.tracks@.len(),
                i <= n,
                tracks_ok(self@),
                resolver.spec_hierarchy() == old(resolver).spec_hierarchy(),
                *hierarchy == old(resolver).spec_hierarchy(),
                resolver@ == remembered_all(
                    old(resolver)@,
                    hierarchy,
                    root,
                    paths_of(self@).take(i as int),
                ),
                pose@.len() == i,
                forall|j: int| 0 <= j < i ==> (#[trigger] pose@[j])@ == track_pose(
                    self@[j],
                    hierarchy,
                    root,
                    time as int,
                ),
            decreases n - i,
        {
            let track: &Track = &self.tracks[i];
            proof {
                let paths = paths_of(self@);
                assert(paths.take(i + 1).drop_last() =~= paths.take(i as int));
                assert(paths.take(i + 1).last() == track.path@);
            }
            let target: Resolution = resolver.locate(root, &track.path);
            let mut samples: Vec<Sample> = Vec::new();
            match target {
                Resolution::Missing => {},
                _ => {
                    let m: usize = track.curves.len();
                    let mut j: usize = 0;
                    while j < m
                        invariant
                            m == track.curves@.len(),
                            j <= m,
                            forall|c: int| 0 <= c < m ==> (#[trigger] track.curves@[c]).well_formed(),
                            samples@.len() == j,
                            forall|c: int| 0 <= c < j ==> #[trigger] samples@[c] == track.curves@[c].sample_spec(
                                time as int,
                            ),
                        decreases m - j,
                    {
                        samples.push(track.curves[j].sample(time));
                        j += 1;
                    }
                    assert(samples@ =~= samples_at(track.curves@, time as int));
                },
            }
            pose.push(TrackPose { target, samples });
            i += 1;
        }
        proof {
            assert(paths_of(self@).take(n as int) =~= paths_of(self@));
        }
        pose
    }

    /// The number of objects that the clip drives.
    pub fn track_count(&self) -> (n: usize)
        ensures
            n == self@.len(),
    {
        self.tracks.len()
    }
}

impl Default for Clip {
    fn default() -> (clip: Clip)
        ensures
            clip@ == Seq::<TrackView>::empty(),
            clip.spec_duration() == 0,
    {
        Clip::new()
    }
}

} // verus!
