//! Curves: keyframes over time for one property, and how they are sampled.

use vstd::prelude::*;
use crate::value::{lerp, lerp_scalar, Quat, Vec3};

verus! {

/// The property that a curve drives.
#[derive(Clone, Copy, Debug, PartialEq, Eq, Structural)]
pub enum CurveKind {
    Translation,
    Rotation,
    Scale,
}

/// The values of a curve's keyframes, all of one kind.
#[derive(Clone, Debug, PartialEq, Eq)]
pub enum Keyframes {
    Translation(Vec<Vec3>),
    Rotation(Vec<Quat>),
    Scale(Vec<Vec3>),
}

/// Keyframes for one property of one object: `keyframes` holds the value that
/// the property has at the tick of the same index in `keyframe_timestamps`.
#[derive(Clone, Debug, PartialEq, Eq)]
pub struct VariableCurve {
    pub keyframe_timestamps: Vec<i64>,
    pub keyframes: Keyframes,
}

/// A point on the arc between two orientations, `num / den` of the way from
/// `from` to `to`. Where `flip` is set, `to` is taken with the opposite sign,
/// which is the same orientation on the nearer side of `from`.
///
/// Evaluating the arc takes trigonometry and is left to the caller.
#[derive(Clone, Copy, Debug, PartialEq, Eq, Structural)]
pub struct Slerp {
    pub from: Quat,
    pub to: Quat,
    pub flip: bool,
    pub num: i64,
    pub den: i64,
}

/// What a curve yields at one instant.
#[derive(Clone, Copy, Debug, PartialEq, Eq, Structural)]
pub enum Sample {
    Translation(Vec3),
    Rotation(Slerp),
    Scale(Vec3),
}

/// Why a curve is turned away at authoring time.
#[derive(Clone, Copy, Debug, PartialEq, Eq, Structural)]
pub enum AuthoringError {
    /// The curve has not as many values as timestamps.
    LengthMismatch,
    /// The curve has no keyframe.
    Empty,
    /// The first keyframe lies before tick zero.
    NegativeTimestamp,
    /// Some keyframe lies before the one listed ahead of it.
    Unordered,
    /// The path already has a curve for the same property.
    DuplicateKind,
}

/// No timestamp is earlier than one before it.
pub open spec fn ordered(ts: Seq<i64>) -> bool {
    forall|i: int, j: int| 0 <= i <= j < ts.len() ==> ts[i] <= ts[j]
}

/// Keyframes `i` and `i + 1` bracket the instant `t`, and `t` is before the
/// later one.
pub open spec fn in_segment(ts: Seq<i64>, t: int, i: int) -> bool {
    0 <= i < ts.len() - 1 && ts[i] <= t < ts[i + 1]
}

/// The index of the keyframe that opens the segment `t` falls in.
pub open spec fn segment(ts: Seq<i64>, t: int) -> int {
    choose|i: int| in_segment(ts, t, i)
}

/// The four-dimensional dot product; its sign tells whether two quaternions
/// lie in the same half of the sphere.
pub open spec fn quat_dot(a: Quat, b: Quat) -> int {
    a.x * b.x + a.y * b.y + a.z * b.z + a.w * b.w
}

/// Componentwise blend of two vectors.
pub open spec fn lerp_vec3(a: Vec3, b: Vec3, num: int, den: int) -> Vec3 {
    Vec3 {
        x: lerp(a.x as int, b.x as int, num, den) as i64,
        y: lerp(a.y as int, b.y as int, num, den) as i64,
        z: lerp(a.z as int, b.z as int, num, den) as i64,
    }
}

impl Slerp {
    /// The arc that stays at `q`.
    pub open spec fn hold(q: Quat) -> Slerp {
        Slerp { from: q, to: q, flip: false, num: 0, den: 1 }
    }

    /// The arc from `a` towards `b` on the shorter side; at fraction zero it
    /// is `hold(a)`.
    pub open spec fn towards(a: Quat, b: Quat, num: int, den: int) -> Slerp {
        if num == 0 {
            Slerp::hold(a)
        } else {
            Slerp { from: a, to: b, flip: quat_dot(a, b) < 0, num: num as i64, den: den as i64 }
        }
    }

    /// The dot product of the two ends as the arc uses them.
    pub open spec fn facing(self) -> int {
        if self.flip {
            -quat_dot(self.from, self.to)
        } else {
            quat_dot(self.from, self.to)
        }
    }
}

impl Keyframes {
    pub open spec fn spec_len(&self) -> nat {
        match self {
            Keyframes::Translation(v) => v@.len(),
            Keyframes::Rotation(v) => v@.len(),
            Keyframes::Scale(v) => v@.len(),
        }
    }

    pub open spec fn spec_kind(&self) -> CurveKind {
        match self {
            Keyframes::Translation(_) => CurveKind::Translation,
            Keyframes::Rotation(_) => CurveKind::Rotation,
            Keyframes::Scale(_) => CurveKind::Scale,
        }
    }

    /// Keyframe `i` as a sample.
    pub open spec fn at(&self, i: int) -> Sample {
        match self {
            Keyframes::Translation(v) => Sample::Translation(v@[i]),
            Keyframes::Rotation(v) => Sample::Rotation(Slerp::hold(v@[i])),
            Keyframes::Scale(v) => Sample::Scale(v@[i]),
        }
    }

    /// The blend of keyframes `i` and `i + 1` at the fraction `num / den`:
    /// linear in each component for translation and scale, an arc on the
    /// shorter side for rotation.
    pub open spec fn between(&self, i: int, num: int, den: int) -> Sample {
        match self {
            Keyframes::Translation(v) => Sample::Translation(lerp_vec3(v@[i], v@[i + 1], num, den)),
            Keyframes::Rotation(v) => Sample::Rotation(Slerp::towards(v@[i], v@[i + 1], num, den)),
            Keyframes::Scale(v) => Sample::Scale(lerp_vec3(v@[i], v@[i + 1], num, den)),
        }
    }

    /// The number of keyframes.
    pub fn len(&self) -> (n: usize)
        ensures
            n == self.spec_len(),
    {
        match self {
            Keyframes::Translation(v) => v.len(),
            Keyframes::Rotation(v) => v.len(),
            Keyframes::Scale(v) => v.len(),
        }
    }

    /// The property these keyframes drive.
    pub fn kind(&self) -> (k: CurveKind)
        ensures
            k == self.spec_kind(),
    {
        match self {
            Keyframes::Translation(_) => CurveKind::Translation,
            Keyframes::Rotation(_) => CurveKind::Rotation,
            Keyframes::Scale(_) => CurveKind::Scale,
        }
    }
}

/// Whether `b` lies in the half of the sphere away from `a`.
fn opposes(a: Quat, b: Quat) -> (r: bool)
    ensures
        r == (quat_dot(a, b) < 0),
{
    proof {
        lemma_product_bound(a.x as int, b.x as int);
        lemma_product_bound(a.y as int, b.y as int);
        lemma_product_bound(a.z as int, b.z as int);
        lemma_product_bound(a.w as int, b.w as int);
    }
    let xx: i128 = (a.x as i128) * (b.x as i128);
    let yy: i128 = (a.y as i128) * (b.y as i128);
    let zz: i128 = (a.z as i128) * (b.z as i128);
    let ww: i128 = (a.w as i128) * (b.w as i128);
    xx + yy + zz + ww < 0
}

proof fn lemma_product_bound(x: int, y: int)
    requires
        -0x8000_0000 <= x <= 0x8000_0000,
        -0x8000_0000 <= y <= 0x8000_0000,
    ensures
        -0x4000_0000_0000_0000 <= x * y <= 0x4000_0000_0000_0000,
{
    assert(-0x4000_0000_0000_0000 <= x * y <= 0x4000_0000_0000_0000) by (nonlinear_arith)
        requires
            -0x8000_0000 <= x <= 0x8000_0000,
            -0x8000_0000 <= y <= 0x8000_0000,
    ;
}

fn blend_vec3(a: Vec3, b: Vec3, num: i64, den: i64) -> (r: Vec3)
    requires
        0 <= num <= den,
        0 < den,
    ensures
        r == lerp_vec3(a, b, num as int, den as int),
{
    Vec3 {
        x: lerp_scalar(a.x, b.x, num, den),
        y: lerp_scalar(a.y, b.y, num, den),
        z: lerp_scalar(a.z, b.z, num, den),
    }
}

fn blend_quat(a: Quat, b: Quat, num: i64, den: i64) -> (r: Slerp)
    ensures
        r == Slerp::towards(a, b, num as int, den as int),
{
    if num == 0 {
        Slerp { from: a, to: a, flip: false, num: 0, den: 1 }
    } else {
        Slerp { from: a, to: b, flip: opposes(a, b), num, den }
    }
}

impl VariableCurve {
    /// What every curve in a clip satisfies: at least one keyframe, as many
    /// values as timestamps, and timestamps that start at or after tick zero
    /// and never step back.
    pub open spec fn well_formed(&self) -> bool {
        &&& self.keyframe_timestamps@.len() >= 1
        &&& self.keyframes.spec_len() == self.keyframe_timestamps@.len()
        &&& self.keyframe_timestamps@[0] >= 0
        &&& ordered(self.keyframe_timestamps@)
    }

    /// What is wrong with the curve, if anything; the first that applies of a
    /// length mismatch, no keyframe, a start before tick zero, and a step
    /// back in time.
    pub open spec fn validate_spec(&self) -> Result<(), AuthoringError> {
        let ts = self.keyframe_timestamps@;
        if self.keyframes.spec_len() != ts.len() {
            Err(AuthoringError::LengthMismatch)
        } else if ts.len() == 0 {
            Err(AuthoringError::Empty)
        } else if ts[0] < 0 {
            Err(AuthoringError::NegativeTimestamp)
        } else if !ordered(ts) {
            Err(AuthoringError::Unordered)
        } else {
            Ok(())
        }
    }

    /// Checks the curve against what `well_formed` asks.
    pub fn validate(&self) -> (r: Result<(), AuthoringError>)
        ensures
            r == self.validate_spec(),
            r is Ok <==> self.well_formed(),
    {
        let n: usize = self.keyframe_timestamps.len();
        if self.keyframes.len() != n {
            return Err(AuthoringError::LengthMismatch);
        }
        if n == 0 {
            return Err(AuthoringError::Empty);
        }
        if self.keyframe_timestamps[0] < 0 {
            return Err(AuthoringError::NegativeTimestamp);
        }
        let mut k: usize = 1;
        while k < n
            invariant
                n == self.keyframe_timestamps@.len(),
                n == self.keyframes.spec_len(),
                self.keyframe_timestamps@[0] >= 0,
                1 <= k <= n,
                forall|i: int, j: int| 0 <= i <= j < k ==> self.keyframe_timestamps@[i]
                    <= self.keyframe_timestamps@[j],
            decreases n - k,
        {
            if self.keyframe_timestamps[k] < self.keyframe_timestamps[k - 1] {
                return Err(AuthoringError::Unordered);
            }
            k += 1;
        }
        Ok(())
    }

    /// The tick of the last keyframe.
    pub open spec fn end(&self) -> int {
        self.keyframe_timestamps@.last() as int
    }

    /// The curve's value at the instant `t`.
    ///
    /// Before the first keyframe it is the first value, from the last
    /// keyframe on it is the last value. In between, `t` falls in exactly one
    /// segment, which opens at the last keyframe at or before `t`, and the
    /// value is the blend of that segment's two ends. Where several keyframes
    /// share a tick the curve steps, and the last of them holds at that tick.
    pub open spec fn sample_spec(&self, t: int) -> Sample {
        let ts = self.keyframe_timestamps@;
        if t < ts[0] {
            self.keyframes.at(0)
        } else if t >= ts.last() {
            self.keyframes.at(ts.len() - 1)
        } else {
            let i = segment(ts, t);
            self.keyframes.between(i, t - ts[i], ts[i + 1] - ts[i])
        }
    }

    /// The value of the curve at `time`.
    pub fn sample(&self, time: i64) -> (s: Sample)
        requires
            self.well_formed(),
        ensures
            s == self.sample_spec(time as int),
    {
        let n: usize = self.keyframe_timestamps.len();
        if time < self.keyframe_timestamps[0] {
            return self.keyframe(0);
        }
        if time >= self.keyframe_timestamps[n - 1] {
            return self.keyframe(n - 1);
        }
        // Bisect for the number of keyframes at or before `time`.
        let mut lo: usize = 1;
        let mut hi: usize = n - 1;
        while lo < hi
            invariant
                self.well_formed(),
                n == self.keyframe_timestamps@.len(),
                1 <= lo <= hi <= n - 1,
                self.keyframe_timestamps@[lo - 1] <= time,
                time < self.keyframe_timestamps@[hi as int],
            decreases hi - lo,
        {
            let mid: usize = lo + (hi - lo) / 2;
            if self.keyframe_timestamps[mid] <= time {
                lo = mid + 1;
            } else {
                hi = mid;
            }
        }
        let i: usize = lo - 1;
        let t0: i64 = self.keyframe_timestamps[i];
        let t1: i64 = self.keyframe_timestamps[i + 1];
        proof {
            let ts = self.keyframe_timestamps@;
            lemma_segment_unique(ts, time as int, i as int);
        }
        let num: i64 = time - t0;
        let den: i64 = t1 - t0;
        match &self.keyframes {
            Keyframes::Translation(v) => Sample::Translation(blend_vec3(v[i], v[i + 1], num, den)),
            Keyframes::Rotation(v) => Sample::Rotation(blend_quat(v[i], v[i + 1], num, den)),
            Keyframes::Scale(v) => Sample::Scale(blend_vec3(v[i], v[i + 1], num, den)),
        }
    }

    fn keyframe(&self, i: usize) -> (s: Sample)
        requires
            i < self.keyframes.spec_len(),
        ensures
            s == self.keyframes.at(i as int),
    {
        match &self.keyframes {
            Keyframes::Translation(v) => Sample::Translation(v[i]),
            Keyframes::Rotation(v) => {
                let q: Quat = v[i];
                Sample::Rotation(Slerp { from: q, to: q, flip: false, num: 0, den: 1 })
            },
            Keyframes::Scale(v) => Sample::Scale(v[i]),
        }
    }
}

/// In ordered timestamps an instant falls in at most one segment.
pub proof fn lemma_segment_unique(ts: Seq<i64>, t: int, i: int)
    requires
        ordered(ts),
        in_segment(ts, t, i),
    ensures
        segment(ts, t) == i,
{
    assert(in_segment(ts, t, segment(ts, t)));
}

/// Where a keyframe is the last at its tick, the curve has exactly that
/// keyframe's value at that tick.
pub proof fn lemma_sample_at_timestamp(curve: VariableCurve, j: int)
    requires
        curve.well_formed(),
        0 <= j < curve.keyframe_timestamps@.len(),
        j + 1 == curve.keyframe_timestamps@.len() || curve.keyframe_timestamps@[j]
            < curve.keyframe_timestamps@[j + 1],
    ensures
        curve.sample_spec(curve.keyframe_timestamps@[j] as int) == curve.keyframes.at(j),
{
    let ts = curve.keyframe_timestamps@;
    let t = ts[j] as int;
    if j + 1 < ts.len() {
        lemma_segment_unique(ts, t, j);
    }
}

/// A curve with a single keyframe has that keyframe's value at every
/// instant, before tick zero and arbitrarily late alike.
pub proof fn lemma_single_keyframe_is_constant(curve: VariableCurve, t: int)
    requires
        curve.well_formed(),
        curve.keyframe_timestamps@.len() == 1,
    ensures
        curve.sample_spec(t) == curve.keyframes.at(0),
{
}

/// Between two consecutive keyframes at different ticks the curve is exact at
/// both ends: at the earlier tick it has the earlier value, and at the later
/// tick the later value, unless the keyframe after it shares that tick and so
/// takes its place.
pub proof fn lemma_exact_at_segment_ends(curve: VariableCurve, i: int)
    requires
        curve.well_formed(),
        0 <= i < curve.keyframe_timestamps@.len() - 1,
        curve.keyframe_timestamps@[i] < curve.keyframe_timestamps@[i + 1],
    ensures
        curve.sample_spec(curve.keyframe_timestamps@[i] as int) == curve.keyframes.at(i),
        i + 2 == curve.keyframe_timestamps@.len() || curve.keyframe_timestamps@[i + 1]
            < curve.keyframe_timestamps@[i + 2] ==> curve.sample_spec(
            curve.keyframe_timestamps@[i + 1] as int,
        ) == curve.keyframes.at(i + 1),
{
    lemma_sample_at_timestamp(curve, i);
    let ts = curve.keyframe_timestamps@;
    if i + 2 == ts.len() || ts[i + 1] < ts[i + 2] {
        lemma_sample_at_timestamp(curve, i + 1);
    }
}

/// `x` lies between `a` and `b` and is neither of them.
pub open spec fn strictly_between(x: int, a: int, b: int) -> bool {
    a < x < b || b < x < a
}

/// The distance between two integers.
pub open spec fn distance(a: int, b: int) -> int {
    if a <= b {
        b - a
    } else {
        a - b
    }
}

/// Whether two scalars are far enough apart for the blend halfway through a
/// segment of `span` ticks to differ from both. With whole ticks and rounding
/// towards the first value that asks for a span of two ticks or more and a
/// distance of two or more, three where the span is odd.
pub open spec fn separable(a: int, b: int, span: int) -> bool {
    distance(a, b) * (span / 2) >= span
}

/// Halfway through a segment, a blended scalar is strictly between the two
/// ends exactly when they are separable.
pub proof fn lemma_midpoint_scalar(a: int, b: int, span: int)
    requires
        1 <= span,
    ensures
        strictly_between(lerp(a, b, span / 2, span), a, b) <==> separable(a, b, span),
{
    let m = distance(a, b);
    let h = span / 2;
    let q = (m * h) / span;
    assert(lerp(a, b, h, span) == if b >= a {
        a + q
    } else {
        a - q
    });
    assert(q >= 1 <==> m * h >= span) by (nonlinear_arith)
        requires
            q == (m * h) / span,
            0 <= m,
            0 <= h,
            1 <= span,
    ;
    if m * h >= span {
        assert(m >= 1) by (nonlinear_arith)
            requires
                m * h >= span,
                span >= 1,
                0 <= m,
                0 <= h,
        ;
        assert(q < m) by (nonlinear_arith)
            requires
                q == (m * h) / span,
                1 <= m,
                0 <= h < span,
        ;
    }
}

impl Keyframes {
    /// Keyframe `i` of a translation or scale curve.
    pub open spec fn vector_at(&self, i: int) -> Vec3 {
        match self {
            Keyframes::Translation(v) => v@[i],
            Keyframes::Rotation(_) => Vec3 { x: 0, y: 0, z: 0 },
            Keyframes::Scale(v) => v@[i],
        }
    }
}

impl Sample {
    /// The vector of a translation or scale sample.
    pub open spec fn vector(self) -> Vec3 {
        match self {
            Sample::Translation(v) => v,
            Sample::Rotation(_) => Vec3 { x: 0, y: 0, z: 0 },
            Sample::Scale(v) => v,
        }
    }

    /// The property this sample is a value of.
    pub open spec fn spec_kind(self) -> CurveKind {
        match self {
            Sample::Translation(_) => CurveKind::Translation,
            Sample::Rotation(_) => CurveKind::Rotation,
            Sample::Scale(_) => CurveKind::Scale,
        }
    }
}

/// For a translation or scale curve, halfway between two consecutive
/// keyframes at different ticks the value lies strictly between the two
/// keyframes in every component, provided that the two are separable in every
/// component over the ticks between them.
pub proof fn lemma_midpoint_strictly_between(curve: VariableCurve, i: int)
    requires
        curve.well_formed(),
        0 <= i < curve.keyframe_timestamps@.len() - 1,
        curve.keyframe_timestamps@[i] < curve.keyframe_timestamps@[i + 1],
        curve.keyframes.spec_kind() != CurveKind::Rotation,
        ({
            let span = curve.keyframe_timestamps@[i + 1] - curve.keyframe_timestamps@[i];
            let a = curve.keyframes.vector_at(i);
            let b = curve.keyframes.vector_at(i + 1);
            &&& separable(a.x as int, b.x as int, span)
            &&& separable(a.y as int, b.y as int, span)
            &&& separable(a.z as int, b.z as int, span)
        }),
    ensures
        ({
            let mid = (curve.keyframe_timestamps@[i] + curve.keyframe_timestamps@[i + 1]) / 2;
            let s = curve.sample_spec(mid).vector();
            let a = curve.keyframes.vector_at(i);
            let b = curve.keyframes.vector_at(i + 1);
            &&& curve.sample_spec(mid).spec_kind() == curve.keyframes.spec_kind()
            &&& strictly_between(s.x as int, a.x as int, b.x as int)
            &&& strictly_between(s.y as int, a.y as int, b.y as int)
            &&& strictly_between(s.z as int, a.z as int, b.z as int)
        }),
{
    let ts = curve.keyframe_timestamps@;
    let span = ts[i + 1] - ts[i];
    let mid = (ts[i] + ts[i + 1]) / 2;
    let a = curve.keyframes.vector_at(i);
    let b = curve.keyframes.vector_at(i + 1);
    lemma_segment_unique(ts, mid, i);
    lemma_midpoint_scalar(a.x as int, b.x as int, span);
    lemma_midpoint_scalar(a.y as int, b.y as int, span);
    lemma_midpoint_scalar(a.z as int, b.z as int, span);
}

/// A rotation curve always hands out the arc on the shorter side: the two
/// ends of the arc, as it uses them, never face away from each other, and the
/// fraction stays below one.
pub proof fn lemma_rotation_takes_shorter_arc(curve: VariableCurve, t: int)
    requires
        curve.well_formed(),
        curve.keyframes.spec_kind() == CurveKind::Rotation,
    ensures
        curve.sample_spec(t) matches Sample::Rotation(arc) && arc.facing() >= 0 && 0 <= arc.num
            < arc.den,
{
    let ts = curve.keyframe_timestamps@;
    assert forall|q: Quat| quat_dot(q, q) >= 0 by {
        assert(q.x * q.x >= 0 && q.y * q.y >= 0 && q.z * q.z >= 0 && q.w * q.w >= 0)
            by (nonlinear_arith);
    }
    if ts[0] <= t < ts.last() {
        lemma_some_segment(ts, t);
    }
}

/// In ordered timestamps every instant from the first keyframe on and before
/// the last falls in a segment.
pub proof fn lemma_some_segment(ts: Seq<i64>, t: int)
    requires
        ordered(ts),
        ts.len() >= 1,
        ts[0] <= t < ts.last(),
    ensures
        in_segment(ts, t, segment(ts, t)),
    decreases ts.len(),
{
    let n = ts.len() as int;
    if ts[n - 2] <= t {
        assert(in_segment(ts, t, n - 2));
    } else {
        let head = ts.drop_last();
        lemma_some_segment(head, t);
        let i = segment(head, t);
        assert(in_segment(ts, t, i));
    }
}

} // verus!
