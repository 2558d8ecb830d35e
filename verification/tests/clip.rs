use keyframe_animation::clip::Clip;
use keyframe_animation::curve::{AuthoringError, Keyframes, Sample, VariableCurve};
use keyframe_animation::hierarchy::{Hierarchy, Link, ObjectId, Resolution};
use keyframe_animation::path::TargetPath;
use keyframe_animation::pose::TrackPose;
use keyframe_animation::resolver::PathResolver;
use keyframe_animation::value::{Quat, Vec3};

fn path(names: &[&str]) -> TargetPath {
    TargetPath::new(names.iter().map(|name| name.to_string()).collect())
}

fn translation_ending_at(end: i64) -> VariableCurve {
    VariableCurve {
        keyframe_timestamps: vec![0, end],
        keyframes: Keyframes::Translation(vec![Vec3 { x: 0, y: 0, z: 0 }, Vec3 { x: 1, y: 1, z: 1 }]),
    }
}

fn rotation_ending_at(end: i64) -> VariableCurve {
    let identity = Quat { x: 0, y: 0, z: 0, w: 1 << 30 };
    VariableCurve { keyframe_timestamps: vec![0, end], keyframes: Keyframes::Rotation(vec![identity, identity]) }
}

fn scale_ending_at(end: i64) -> VariableCurve {
    VariableCurve {
        keyframe_timestamps: vec![0, end],
        keyframes: Keyframes::Scale(vec![Vec3 { x: 1, y: 1, z: 1 }, Vec3 { x: 2, y: 2, z: 2 }]),
    }
}

#[test]
fn empty_clip_has_no_length() {
    let clip = Clip::new();
    assert_eq!(clip.duration(), 0);
    assert_eq!(clip.track_count(), 0);
    let clip = Clip::default();
    assert_eq!(clip.duration(), 0);
    assert_eq!(clip.track_count(), 0);
}

#[test]
fn duration_is_the_latest_keyframe() {
    let mut clip = Clip::new();
    assert_eq!(clip.add_curve_to_path(path(&["a"]), translation_ending_at(2000)), Ok(()));
    assert_eq!(clip.duration(), 2000);
    assert_eq!(clip.add_curve_to_path(path(&["b"]), translation_ending_at(4000)), Ok(()));
    assert_eq!(clip.duration(), 4000);
    assert_eq!(clip.add_curve_to_path(path(&["c"]), translation_ending_at(3000)), Ok(()));
    assert_eq!(clip.duration(), 4000);
    assert_eq!(clip.track_count(), 3);
}

#[test]
fn a_path_takes_one_curve_of_each_kind() {
    let mut clip = Clip::new();
    assert_eq!(clip.add_curve_to_path(path(&["a", "b"]), translation_ending_at(10)), Ok(()));
    assert_eq!(clip.add_curve_to_path(path(&["a", "b"]), rotation_ending_at(20)), Ok(()));
    assert_eq!(clip.add_curve_to_path(path(&["a", "b"]), scale_ending_at(30)), Ok(()));
    assert_eq!(clip.track_count(), 1);
    assert_eq!(clip.duration(), 30);
}

#[test]
fn a_second_curve_of_one_kind_is_a_conflict() {
    let mut clip = Clip::new();
    assert_eq!(clip.add_curve_to_path(path(&["a"]), translation_ending_at(10)), Ok(()));
    assert_eq!(clip.add_curve_to_path(path(&["a"]), rotation_ending_at(10)), Ok(()));
    assert_eq!(
        clip.add_curve_to_path(path(&["a"]), translation_ending_at(99)),
        Err(AuthoringError::DuplicateKind)
    );
    assert_eq!(
        clip.add_curve_to_path(path(&["a"]), rotation_ending_at(99)),
        Err(AuthoringError::DuplicateKind)
    );
    // The clip is as it was before the curves were turned away.
    assert_eq!(clip.duration(), 10);
    assert_eq!(clip.track_count(), 1);
    // Construction goes on.
    assert_eq!(clip.add_curve_to_path(path(&["a"]), scale_ending_at(50)), Ok(()));
    assert_eq!(clip.duration(), 50);
}

#[test]
fn the_same_kind_on_another_path_is_no_conflict() {
    let mut clip = Clip::new();
    assert_eq!(clip.add_curve_to_path(path(&["a"]), translation_ending_at(10)), Ok(()));
    assert_eq!(clip.add_curve_to_path(path(&["a", "a"]), translation_ending_at(10)), Ok(()));
    assert_eq!(clip.add_curve_to_path(path(&[]), translation_ending_at(10)), Ok(()));
    assert_eq!(clip.add_curve_to_path(path(&["A"]), translation_ending_at(10)), Ok(()));
    assert_eq!(clip.track_count(), 4);
}

#[test]
fn a_malformed_curve_is_turned_away() {
    let mut clip = Clip::new();
    let origin = Vec3 { x: 0, y: 0, z: 0 };
    let mismatched = VariableCurve {
        keyframe_timestamps: vec![0, 1, 2],
        keyframes: Keyframes::Translation(vec![origin, origin]),
    };
    assert_eq!(clip.add_curve_to_path(path(&["a"]), mismatched), Err(AuthoringError::LengthMismatch));
    let empty = VariableCurve { keyframe_timestamps: vec![], keyframes: Keyframes::Scale(vec![]) };
    assert_eq!(clip.add_curve_to_path(path(&["a"]), empty), Err(AuthoringError::Empty));
    let early = VariableCurve { keyframe_timestamps: vec![-3], keyframes: Keyframes::Scale(vec![origin]) };
    assert_eq!(clip.add_curve_to_path(path(&["a"]), early), Err(AuthoringError::NegativeTimestamp));
    let backwards = VariableCurve {
        keyframe_timestamps: vec![4, 2],
        keyframes: Keyframes::Scale(vec![origin, origin]),
    };
    assert_eq!(clip.add_curve_to_path(path(&["a"]), backwards), Err(AuthoringError::Unordered));
    assert_eq!(clip.track_count(), 0);
    assert_eq!(clip.duration(), 0);
}

#[test]
fn a_malformed_curve_is_reported_ahead_of_a_conflict() {
    let mut clip = Clip::new();
    assert_eq!(clip.add_curve_to_path(path(&["a"]), translation_ending_at(10)), Ok(()));
    let mismatched = VariableCurve { keyframe_timestamps: vec![0], keyframes: Keyframes::Translation(vec![]) };
    assert_eq!(clip.add_curve_to_path(path(&["a"]), mismatched), Err(AuthoringError::LengthMismatch));
}

#[test]
fn a_clip_of_still_curves_has_no_length() {
    let mut clip = Clip::new();
    let still = VariableCurve {
        keyframe_timestamps: vec![0],
        keyframes: Keyframes::Translation(vec![Vec3 { x: 7, y: 7, z: 7 }]),
    };
    assert_eq!(clip.add_curve_to_path(path(&["a"]), still), Ok(()));
    assert_eq!(clip.duration(), 0);
    assert_eq!(clip.track_count(), 1);
}

#[test]
fn pose_samples_every_resolved_track() {
    let mut clip = Clip::new();
    assert_eq!(clip.add_curve_to_path(path(&["a"]), translation_ending_at(4)), Ok(()));
    assert_eq!(clip.add_curve_to_path(path(&["b"]), scale_ending_at(2)), Ok(()));
    assert_eq!(clip.add_curve_to_path(path(&["a"]), scale_ending_at(8)), Ok(()));
    let hierarchy = Hierarchy {
        links: vec![Link { parent: ObjectId(7), name: "a".to_string(), child: ObjectId(8) }],
    };
    let mut resolver = PathResolver::new(hierarchy);
    let expected = |translation: i64, scale: i64| {
        vec![
            TrackPose {
                target: Resolution::Found(ObjectId(8)),
                samples: vec![
                    Sample::Translation(Vec3 { x: translation, y: translation, z: translation }),
                    Sample::Scale(Vec3 { x: scale, y: scale, z: scale }),
                ],
            },
            TrackPose { target: Resolution::Missing, samples: vec![] },
        ]
    };
    // Values run from 0 to 1 over four ticks and from 1 to 2 over eight.
    assert_eq!(clip.pose(-1, ObjectId(7), &mut resolver), expected(0, 1));
    assert_eq!(clip.pose(3, ObjectId(7), &mut resolver), expected(0, 1));
    assert_eq!(clip.pose(4, ObjectId(7), &mut resolver), expected(1, 1));
    assert_eq!(clip.pose(8, ObjectId(7), &mut resolver), expected(1, 2));
    assert_eq!(clip.pose(99, ObjectId(7), &mut resolver), expected(1, 2));
    assert_eq!(resolver.len(), 1);
}
