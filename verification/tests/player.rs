use std::sync::Arc;

use keyframe_animation::clip::Clip;
use keyframe_animation::curve::{Keyframes, Sample, Slerp, VariableCurve};
use keyframe_animation::hierarchy::{Hierarchy, Link, ObjectId, Resolution};
use keyframe_animation::path::TargetPath;
use keyframe_animation::player::{Player, PlayerStatus};
use keyframe_animation::pose::{TrackPose, Transform};
use keyframe_animation::resolver::PathResolver;
use keyframe_animation::value::{Quat, Vec3};

const ROOT: ObjectId = ObjectId(0);

fn path(names: &[&str]) -> TargetPath {
    TargetPath::new(names.iter().map(|name| name.to_string()).collect())
}

fn v(x: i64, y: i64, z: i64) -> Vec3 {
    Vec3 { x, y, z }
}

fn link(parent: u64, name: &str, child: u64) -> Link {
    Link { parent: ObjectId(parent), name: name.to_string(), child: ObjectId(child) }
}

/// An animation root with one child called `root`.
fn stage() -> Hierarchy {
    Hierarchy { links: vec![link(0, "root", 1)] }
}

/// One translation curve on `["root"]`: at 0, 1 and 2 seconds, counted in
/// milliseconds, the values 0, 1 and 0 along x, counted in thousandths.
fn there_and_back() -> Arc<Clip> {
    let mut clip = Clip::new();
    let curve = VariableCurve {
        keyframe_timestamps: vec![0, 1000, 2000],
        keyframes: Keyframes::Translation(vec![v(0, 0, 0), v(1000, 0, 0), v(0, 0, 0)]),
    };
    assert_eq!(clip.add_curve_to_path(path(&["root"]), curve), Ok(()));
    Arc::new(clip)
}

/// One translation curve on `["root"]` that runs from 0 to `length` along x
/// in `length` ticks.
fn ramp(length: i64) -> Arc<Clip> {
    let mut clip = Clip::new();
    let curve = VariableCurve {
        keyframe_timestamps: vec![0, length],
        keyframes: Keyframes::Translation(vec![v(0, 0, 0), v(length, 0, 0)]),
    };
    assert_eq!(clip.add_curve_to_path(path(&["root"]), curve), Ok(()));
    Arc::new(clip)
}

fn at_root(x: i64) -> Vec<TrackPose> {
    vec![TrackPose { target: Resolution::Found(ObjectId(1)), samples: vec![Sample::Translation(v(x, 0, 0))] }]
}

#[test]
fn translation_clip_played_once() {
    let mut resolver = PathResolver::new(stage());
    let mut player = Player::default().play(there_and_back());

    assert_eq!(player.tick(500, ROOT, &mut resolver), at_root(500));
    assert_eq!(player.elapsed(), 500);
    assert_eq!(player.tick(500, ROOT, &mut resolver), at_root(1000));
    assert_eq!(player.elapsed(), 1000);
    assert_eq!(player.tick(1000, ROOT, &mut resolver), at_root(0));
    assert_eq!(player.elapsed(), 2000);
    assert_eq!(player.tick(1000, ROOT, &mut resolver), at_root(0));
    assert_eq!(player.elapsed(), 2000);
}

#[test]
fn shorter_curve_holds_while_longer_goes_on() {
    let mut clip = Clip::new();
    let short = VariableCurve {
        keyframe_timestamps: vec![0, 2000],
        keyframes: Keyframes::Translation(vec![v(0, 0, 0), v(2000, 200, 20)]),
    };
    let long = VariableCurve {
        keyframe_timestamps: vec![0, 4000],
        keyframes: Keyframes::Scale(vec![v(1000, 1000, 1000), v(5000, 5000, 5000)]),
    };
    assert_eq!(clip.add_curve_to_path(path(&["root"]), short), Ok(()));
    assert_eq!(clip.add_curve_to_path(path(&["root"]), long), Ok(()));
    assert_eq!(clip.duration(), 4000);

    let mut resolver = PathResolver::new(stage());
    let mut player = Player::new().play(Arc::new(clip));
    let pose = player.tick(3000, ROOT, &mut resolver);
    assert_eq!(player.elapsed(), 3000);
    assert_eq!(
        pose,
        vec![TrackPose {
            target: Resolution::Found(ObjectId(1)),
            samples: vec![Sample::Translation(v(2000, 200, 20)), Sample::Scale(v(4000, 4000, 4000))],
        }]
    );
}

#[test]
fn curves_of_different_length_on_different_objects() {
    let mut clip = Clip::new();
    let short = VariableCurve {
        keyframe_timestamps: vec![0, 2000],
        keyframes: Keyframes::Translation(vec![v(0, 0, 0), v(2000, 0, 0)]),
    };
    let long = VariableCurve {
        keyframe_timestamps: vec![0, 4000],
        keyframes: Keyframes::Translation(vec![v(0, 0, 0), v(0, 4000, 0)]),
    };
    assert_eq!(clip.add_curve_to_path(path(&["near"]), short), Ok(()));
    assert_eq!(clip.add_curve_to_path(path(&["far"]), long), Ok(()));
    let hierarchy = Hierarchy { links: vec![link(0, "far", 2), link(0, "near", 1)] };
    let mut resolver = PathResolver::new(hierarchy);
    let mut player = Player::new().play(Arc::new(clip));
    assert_eq!(
        player.tick(3000, ROOT, &mut resolver),
        vec![
            TrackPose { target: Resolution::Found(ObjectId(1)), samples: vec![Sample::Translation(v(2000, 0, 0))] },
            TrackPose { target: Resolution::Found(ObjectId(2)), samples: vec![Sample::Translation(v(0, 3000, 0))] },
        ]
    );
}

#[test]
fn repeating_ticks_equal_one_wrapped_tick() {
    let clip = ramp(1000);
    let steps: [i64; 5] = [300, 900, 450, 2000, 1];
    let sum: i64 = steps.iter().sum();
    assert_eq!(sum % 1000, 651);

    let mut resolver = PathResolver::new(stage());
    let mut many = Player::new().play(clip.clone()).repeat();
    let mut last = Vec::new();
    for step in steps {
        last = many.tick(step, ROOT, &mut resolver);
    }
    let mut once = Player::new().play(clip).repeat();
    let single = once.tick(sum % 1000, ROOT, &mut resolver);
    assert_eq!(many.elapsed(), 651);
    assert_eq!(once.elapsed(), 651);
    assert_eq!(last, single);
    assert_eq!(last, at_root(651));
}

#[test]
fn repeating_clock_wraps_at_the_end() {
    let mut resolver = PathResolver::new(stage());
    let mut player = Player::new().play(ramp(1000)).repeat();
    assert_eq!(player.tick(999, ROOT, &mut resolver), at_root(999));
    assert_eq!(player.tick(1, ROOT, &mut resolver), at_root(0));
    assert_eq!(player.elapsed(), 0);
    assert_eq!(player.tick(2500, ROOT, &mut resolver), at_root(500));
    assert_eq!(player.elapsed(), 500);
}

#[test]
fn repeating_clock_wraps_backwards() {
    let mut resolver = PathResolver::new(stage());
    let mut player = Player::new().play(ramp(1000)).repeat();
    player.set_speed(-1);
    assert_eq!(player.tick(250, ROOT, &mut resolver), at_root(750));
    assert_eq!(player.elapsed(), 750);
    assert_eq!(player.tick(2750, ROOT, &mut resolver), at_root(0));
    assert_eq!(player.elapsed(), 0);
}

#[test]
fn repeating_a_clip_without_length_stays_at_zero() {
    let mut clip = Clip::new();
    let still = VariableCurve { keyframe_timestamps: vec![0], keyframes: Keyframes::Translation(vec![v(7, 0, 0)]) };
    assert_eq!(clip.add_curve_to_path(path(&["root"]), still), Ok(()));
    let mut resolver = PathResolver::new(stage());
    let mut player = Player::new().play(Arc::new(clip)).repeat();
    assert_eq!(player.tick(123, ROOT, &mut resolver), at_root(7));
    assert_eq!(player.elapsed(), 0);
    assert_eq!(player.tick(-5, ROOT, &mut resolver), at_root(7));
    assert_eq!(player.elapsed(), 0);
}

#[test]
fn clock_holds_at_the_end_when_played_once() {
    let mut resolver = PathResolver::new(stage());
    let mut player = Player::new().play(ramp(1000));
    assert_eq!(player.tick(1500, ROOT, &mut resolver), at_root(1000));
    assert_eq!(player.elapsed(), 1000);
    for step in [0, 1, 16, 1000, i64::MAX] {
        assert_eq!(player.tick(step, ROOT, &mut resolver), at_root(1000));
        assert_eq!(player.elapsed(), 1000);
        assert_eq!(player.status(), PlayerStatus::Playing);
    }
}

#[test]
fn clock_reaches_the_end_exactly() {
    let mut resolver = PathResolver::new(stage());
    let mut player = Player::new().play(ramp(1000));
    assert_eq!(player.tick(1000, ROOT, &mut resolver), at_root(1000));
    assert_eq!(player.elapsed(), 1000);
}

#[test]
fn playing_backwards_once_goes_below_zero() {
    let mut resolver = PathResolver::new(stage());
    let mut player = Player::new().play(ramp(1000));
    player.set_speed(-2);
    assert_eq!(player.tick(125, ROOT, &mut resolver), at_root(0));
    assert_eq!(player.elapsed(), -250);
    player.set_speed(1);
    assert_eq!(player.tick(350, ROOT, &mut resolver), at_root(100));
    assert_eq!(player.elapsed(), 100);
}

#[test]
fn clock_stops_at_the_least_tick() {
    let mut resolver = PathResolver::new(stage());
    let mut player = Player::new().play(ramp(1000));
    player.set_speed(i64::MAX);
    assert_eq!(player.tick(-2, ROOT, &mut resolver), at_root(0));
    assert_eq!(player.elapsed(), i64::MIN);
    assert_eq!(player.tick(i64::MIN, ROOT, &mut resolver), at_root(0));
    assert_eq!(player.elapsed(), i64::MIN);
    assert_eq!(player.tick(i64::MAX, ROOT, &mut resolver), at_root(1000));
    assert_eq!(player.elapsed(), 1000);
}

#[test]
fn speed_scales_the_step() {
    let mut resolver = PathResolver::new(stage());
    let mut player = Player::new().play(ramp(1000));
    assert_eq!(player.speed(), 1);
    player.set_speed(3);
    assert_eq!(player.speed(), 3);
    assert_eq!(player.tick(100, ROOT, &mut resolver), at_root(300));
    player.set_speed(0);
    assert_eq!(player.tick(100, ROOT, &mut resolver), at_root(300));
    assert_eq!(player.elapsed(), 300);
}

#[test]
fn new_player_is_idle() {
    let player = Player::default();
    assert_eq!(player.status(), PlayerStatus::Idle);
    assert_eq!(player.elapsed(), 0);
    assert_eq!(player.speed(), 1);
    assert!(!player.is_repeating());
    assert!(!player.is_paused());
}

#[test]
fn idle_player_asks_for_nothing() {
    let mut resolver = PathResolver::new(stage());
    let mut player = Player::new();
    assert_eq!(player.tick(500, ROOT, &mut resolver), vec![]);
    assert_eq!(player.elapsed(), 0);
    assert_eq!(player.status(), PlayerStatus::Idle);
    assert_eq!(resolver.len(), 0);
}

#[test]
fn pause_has_no_effect_on_an_idle_player() {
    let mut player = Player::new();
    player.pause();
    assert_eq!(player.status(), PlayerStatus::Idle);
    assert!(!player.is_paused());
    player.resume();
    assert_eq!(player.status(), PlayerStatus::Idle);
    let player = player.play(ramp(10));
    assert_eq!(player.status(), PlayerStatus::Playing);
}

#[test]
fn paused_player_holds_its_frame() {
    let mut resolver = PathResolver::new(stage());
    let mut player = Player::new().play(ramp(1000));
    assert_eq!(player.tick(400, ROOT, &mut resolver), at_root(400));
    player.pause();
    assert_eq!(player.status(), PlayerStatus::Paused);
    assert!(player.is_paused());
    assert_eq!(player.tick(300, ROOT, &mut resolver), at_root(400));
    assert_eq!(player.tick(300, ROOT, &mut resolver), at_root(400));
    assert_eq!(player.elapsed(), 400);
    player.resume();
    assert_eq!(player.status(), PlayerStatus::Playing);
    assert_eq!(player.tick(300, ROOT, &mut resolver), at_root(700));
}

#[test]
fn play_starts_over_and_keeps_the_speed() {
    let mut resolver = PathResolver::new(stage());
    let mut player = Player::new().play(ramp(1000)).repeat();
    player.set_speed(2);
    assert_eq!(player.tick(100, ROOT, &mut resolver), at_root(200));
    player.pause();
    let mut player = player.play(ramp(500));
    assert_eq!(player.status(), PlayerStatus::Playing);
    assert_eq!(player.elapsed(), 0);
    assert_eq!(player.speed(), 2);
    assert!(!player.is_repeating());
    assert_eq!(player.tick(400, ROOT, &mut resolver), at_root(500));
    assert_eq!(player.elapsed(), 500);
}

#[test]
fn repeat_takes_effect_from_the_next_tick() {
    let mut resolver = PathResolver::new(stage());
    let mut player = Player::new().play(ramp(1000));
    assert_eq!(player.tick(1500, ROOT, &mut resolver), at_root(1000));
    let mut player = player.repeat();
    assert!(player.is_repeating());
    assert_eq!(player.elapsed(), 1000);
    assert_eq!(player.tick(200, ROOT, &mut resolver), at_root(200));
    assert_eq!(player.elapsed(), 200);
}

#[test]
fn repeat_can_be_set_before_a_clip_is_assigned() {
    let player = Player::new().repeat();
    assert!(player.is_repeating());
    assert_eq!(player.status(), PlayerStatus::Idle);
    // Assigning a clip plays it once.
    let player = player.play(ramp(10));
    assert!(!player.is_repeating());
}

#[test]
fn advance_moves_the_clock_only() {
    let mut player = Player::new().play(ramp(1000));
    player.advance(250);
    player.advance(250);
    assert_eq!(player.elapsed(), 500);
    let mut resolver = PathResolver::new(stage());
    assert_eq!(player.pose(ROOT, &mut resolver), at_root(500));
    assert_eq!(player.elapsed(), 500);
}

#[test]
fn track_without_target_is_passed_over() {
    let mut clip = Clip::new();
    let moving = |to: i64| VariableCurve {
        keyframe_timestamps: vec![0, 10],
        keyframes: Keyframes::Translation(vec![v(0, 0, 0), v(to, 0, 0)]),
    };
    assert_eq!(clip.add_curve_to_path(path(&["gone"]), moving(10)), Ok(()));
    assert_eq!(clip.add_curve_to_path(path(&["root"]), moving(100)), Ok(()));
    assert_eq!(clip.add_curve_to_path(path(&["root", "gone"]), moving(1000)), Ok(()));
    let mut resolver = PathResolver::new(stage());
    let mut player = Player::new().play(Arc::new(clip));
    assert_eq!(
        player.tick(5, ROOT, &mut resolver),
        vec![
            TrackPose { target: Resolution::Missing, samples: vec![] },
            TrackPose { target: Resolution::Found(ObjectId(1)), samples: vec![Sample::Translation(v(50, 0, 0))] },
            TrackPose { target: Resolution::Missing, samples: vec![] },
        ]
    );
    // Only the walk that reached an object is remembered.
    assert_eq!(resolver.len(), 1);
    // The target appears; the owner of the objects tells the resolver.
    resolver.add_child(ROOT, "gone".to_string(), ObjectId(2));
    assert_eq!(resolver.len(), 0);
    assert_eq!(
        player.tick(1, ROOT, &mut resolver),
        vec![
            TrackPose { target: Resolution::Found(ObjectId(2)), samples: vec![Sample::Translation(v(6, 0, 0))] },
            TrackPose { target: Resolution::Found(ObjectId(1)), samples: vec![Sample::Translation(v(60, 0, 0))] },
            TrackPose { target: Resolution::Missing, samples: vec![] },
        ]
    );
}

#[test]
fn ambiguous_target_is_reported_with_the_first_match() {
    let mut clip = Clip::new();
    let turn = VariableCurve {
        keyframe_timestamps: vec![0, 8],
        keyframes: Keyframes::Rotation(vec![
            Quat { x: 0, y: 0, z: 0, w: 1 << 30 },
            Quat { x: 0, y: -(1 << 30), z: 0, w: 0 },
        ]),
    };
    assert_eq!(clip.add_curve_to_path(path(&["wheel"]), turn), Ok(()));
    let hierarchy = Hierarchy { links: vec![link(0, "wheel", 4), link(0, "wheel", 5)] };
    let mut resolver = PathResolver::new(hierarchy);
    let mut player = Player::new().play(Arc::new(clip));
    assert_eq!(
        player.tick(2, ROOT, &mut resolver),
        vec![TrackPose {
            target: Resolution::Ambiguous(ObjectId(4)),
            samples: vec![Sample::Rotation(Slerp {
                from: Quat { x: 0, y: 0, z: 0, w: 1 << 30 },
                to: Quat { x: 0, y: -(1 << 30), z: 0, w: 0 },
                flip: false,
                num: 2,
                den: 8,
            })],
        }]
    );
}

#[test]
fn one_clip_drives_many_players() {
    let clip = ramp(1000);
    let hierarchy = Hierarchy { links: vec![link(0, "root", 1), link(10, "root", 11)] };
    let mut resolver = PathResolver::new(hierarchy);
    let mut first = Player::new().play(clip.clone());
    let mut second = Player::new().play(clip.clone()).repeat();
    second.set_speed(2);
    assert_eq!(first.tick(700, ObjectId(0), &mut resolver), at_root(700));
    assert_eq!(
        second.tick(700, ObjectId(10), &mut resolver),
        vec![TrackPose { target: Resolution::Found(ObjectId(11)), samples: vec![Sample::Translation(v(400, 0, 0))] }]
    );
    assert_eq!(resolver.len(), 2);
    assert_eq!(clip.duration(), 1000);
}

#[test]
fn sample_is_written_to_the_property_of_its_kind() {
    let at = Quat { x: 0, y: 0, z: 0, w: 1 << 30 };
    let still = Slerp { from: at, to: at, flip: false, num: 0, den: 1 };
    let turned = Slerp { from: at, to: Quat { x: 1 << 30, y: 0, z: 0, w: 0 }, flip: false, num: 1, den: 4 };
    let start = Transform { translation: v(1, 2, 3), rotation: still, scale: v(4, 5, 6) };

    let mut transform = start;
    transform.write(Sample::Translation(v(7, 8, 9)));
    assert_eq!(transform, Transform { translation: v(7, 8, 9), rotation: still, scale: v(4, 5, 6) });
    let mut transform = start;
    transform.write(Sample::Rotation(turned));
    assert_eq!(transform, Transform { translation: v(1, 2, 3), rotation: turned, scale: v(4, 5, 6) });
    let mut transform = start;
    transform.write(Sample::Scale(v(7, 8, 9)));
    assert_eq!(transform, Transform { translation: v(1, 2, 3), rotation: still, scale: v(7, 8, 9) });
}

#[test]
fn properties_without_a_curve_stay_untouched() {
    let mut clip = Clip::new();
    let grow = VariableCurve {
        keyframe_timestamps: vec![0, 10],
        keyframes: Keyframes::Scale(vec![v(100, 100, 100), v(200, 200, 200)]),
    };
    assert_eq!(clip.add_curve_to_path(path(&["root"]), grow), Ok(()));
    let mut resolver = PathResolver::new(stage());
    let mut player = Player::new().play(Arc::new(clip));
    let pose = player.tick(5, ROOT, &mut resolver);

    let at = Quat { x: 0, y: 1 << 30, z: 0, w: 0 };
    let still = Slerp { from: at, to: at, flip: false, num: 0, den: 1 };
    let mut transform = Transform { translation: v(1, 2, 3), rotation: still, scale: v(4, 5, 6) };
    transform.write_all(&pose[0].samples);
    assert_eq!(transform, Transform { translation: v(1, 2, 3), rotation: still, scale: v(150, 150, 150) });
    transform.write_all(&vec![]);
    assert_eq!(transform, Transform { translation: v(1, 2, 3), rotation: still, scale: v(150, 150, 150) });
}

#[test]
fn later_sample_overwrites_earlier_one() {
    let at = Quat { x: 0, y: 0, z: 0, w: 1 << 30 };
    let still = Slerp { from: at, to: at, flip: false, num: 0, den: 1 };
    let mut transform = Transform { translation: v(0, 0, 0), rotation: still, scale: v(1, 1, 1) };
    transform.write_all(&vec![
        Sample::Translation(v(1, 1, 1)),
        Sample::Scale(v(2, 2, 2)),
        Sample::Translation(v(3, 3, 3)),
    ]);
    assert_eq!(transform, Transform { translation: v(3, 3, 3), rotation: still, scale: v(2, 2, 2) });
}
