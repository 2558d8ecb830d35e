//! The player: the playback clock of one animated object, and what each tick
//! asks of the hierarchy.

use std::sync::Arc;
use vstd::prelude::*;
use vstd::arithmetic::div_mod::{lemma_add_mod_noop_right, lemma_mul_mod_noop_left, lemma_small_mod};
use crate::clip::{paths_of, Clip};
use crate::hierarchy::{Hierarchy, ObjectId};
use crate::pose::{pose_spec, pose_view, TrackPose, TrackPoseView};
use crate::resolver::{remembered_all, EntryView, PathResolver};

verus! {

/// What a player is doing.
#[derive(Clone, Copy, Debug, PartialEq, Eq, Structural)]
pub enum PlayerStatus {
    /// No clip is assigned.
    Idle,
    /// A clip is assigned and the clock runs.
    Playing,
    /// A clip is assigned and the clock stands still.
    Paused,
}

/// The playback state of one animated object.
///
/// The clock counts the ticks of the clip's timestamps. A tick of the player
/// moves it by `dt * speed`, so `speed` is the number of clip ticks per unit
/// of `dt`; a negative speed plays backwards.
pub struct Player {
    clip: Option<Arc<Clip>>,
    elapsed: i64,
    speed: i64,
    repeat: bool,
    paused: bool,
}

/// A player as contracts see it.
pub struct PlayerView {
    pub clip: Option<Clip>,
    pub elapsed: int,
    pub speed: int,
    pub repeat: bool,
    pub paused: bool,
}

impl View for Player {
    type V = PlayerView;

    closed spec fn view(&self) -> PlayerView {
        PlayerView {
            clip: match self.clip {
                Some(clip) => Some(*clip),
                None => None,
            },
            elapsed: self.elapsed as int,
            speed: self.speed as int,
            repeat: self.repeat,
            paused: self.paused,
        }
    }
}

/// The clock after a tick of `dt` at `speed`, for a clip of `duration` ticks.
///
/// A repeating clock wraps into `[0, duration)`; for a clip of no length it
/// is zero. Any other clock stops at `duration` when it would pass it. Played
/// backwards it goes below zero and on, down to the least tick that the clock
/// can hold.
pub open spec fn clock_after(elapsed: int, dt: int, speed: int, repeat: bool, duration: int) -> int {
    let raw = elapsed + dt * speed;
    if repeat {
        if duration == 0 {
            0
        } else {
            raw % duration
        }
    } else if raw > duration {
        duration
    } else if raw < i64::MIN {
        i64::MIN as int
    } else {
        raw
    }
}

/// The sum of the steps.
pub open spec fn total(dts: Seq<int>) -> int
    decreases dts.len(),
{
    if dts.len() == 0 {
        0
    } else {
        total(dts.drop_last()) + dts.last()
    }
}

impl PlayerView {
    pub open spec fn status(self) -> PlayerStatus {
        if self.clip is None {
            PlayerStatus::Idle
        } else if self.paused {
            PlayerStatus::Paused
        } else {
            PlayerStatus::Playing
        }
    }

    /// The length of the assigned clip; zero without one.
    pub open spec fn duration(self) -> int {
        match self.clip {
            Some(clip) => clip.spec_duration(),
            None => 0,
        }
    }

    /// Assigning a clip starts it from tick zero, playing once; the speed
    /// stays.
    pub open spec fn after_play(self, clip: Clip) -> PlayerView {
        PlayerView { clip: Some(clip), elapsed: 0, speed: self.speed, repeat: false, paused: false }
    }

    pub open spec fn after_repeat(self) -> PlayerView {
        PlayerView { repeat: true, ..self }
    }

    /// Pausing stops the clock of a player that has a clip.
    pub open spec fn after_pause(self) -> PlayerView {
        if self.clip is Some {
            PlayerView { paused: true, ..self }
        } else {
            self
        }
    }

    /// Resuming lets the clock of a player that has a clip run again.
    pub open spec fn after_resume(self) -> PlayerView {
        if self.clip is Some {
            PlayerView { paused: false, ..self }
        } else {
            self
        }
    }

    pub open spec fn after_set_speed(self, speed: int) -> PlayerView {
        PlayerView { speed: speed, ..self }
    }

    /// A tick moves the clock of a playing player and nothing else.
    pub open spec fn after_tick(self, dt: int) -> PlayerView {
        if self.status() == PlayerStatus::Playing {
            PlayerView {
                elapsed: clock_after(self.elapsed, dt, self.speed, self.repeat, self.duration()),
                ..self
            }
        } else {
            self
        }
    }

    /// The player after one tick for each of `dts`, in order.
    pub open spec fn after_ticks(self, dts: Seq<int>) -> PlayerView
        decreases dts.len(),
    {
        if dts.len() == 0 {
            self
        } else {
            self.after_ticks(dts.drop_last()).after_tick(dts.last())
        }
    }

    /// The resolver's cache after the player asked for its pose: every path
    /// of the clip was asked for, in the order of the tracks.
    pub open spec fn cache_after(self, entries: Seq<EntryView>, hierarchy: &Hierarchy, root: ObjectId) -> Seq<
        EntryView,
    > {
        match self.clip {
            Some(clip) => remembered_all(entries, hierarchy, root, paths_of(clip@)),
            None => entries,
        }
    }

    /// What the player asks of the hierarchy now: the pose of its clip at the
    /// clock's tick, and nothing without a clip.
    pub open spec fn pose(self, hierarchy: &Hierarchy, root: ObjectId) -> Seq<TrackPoseView> {
        match self.clip {
            Some(clip) => pose_spec(clip@, hierarchy, root, self.elapsed),
            None => Seq::empty(),
        }
    }
}

proof fn lemma_step_bound(dt: int, speed: int)
    requires
        -0x8000_0000_0000_0000 <= dt < 0x8000_0000_0000_0000,
        -0x8000_0000_0000_0000 <= speed < 0x8000_0000_0000_0000,
    ensures
        -0x4000_0000_0000_0000_0000_0000_0000_0000 <= dt * speed
            <= 0x4000_0000_0000_0000_0000_0000_0000_0000,
{
    assert(-0x4000_0000_0000_0000_0000_0000_0000_0000 <= dt * speed
        <= 0x4000_0000_0000_0000_0000_0000_0000_0000) by (nonlinear_arith)
        requires
            -0x8000_0000_0000_0000 <= dt < 0x8000_0000_0000_0000,
            -0x8000_0000_0000_0000 <= speed < 0x8000_0000_0000_0000,
    ;
}

/// Moves a clock by one tick.
fn next_elapsed(elapsed: i64, dt: i64, speed: i64, repeat: bool, duration: i64) -> (next: i64)
    requires
        0 <= duration,
    ensures
        next == clock_after(elapsed as int, dt as int, speed as int, repeat, duration as int),
{
    proof {
        lemma_step_bound(dt as int, speed as int);
    }
    let raw: i128 = elapsed as i128 + (dt as i128) * (speed as i128);
    if repeat {
        if duration == 0 {
            0
        } else {
            match raw.checked_rem_euclid(duration as i128) {
                Some(wrapped) => wrapped as i64,
                None => 0,
            }
        }
    } else if raw > duration as i128 {
        duration
    } else if raw < i64::MIN as i128 {
        i64::MIN
    } else {
        raw as i64
    }
}

impl Player {
    /// A player without a clip, at speed one.
    pub fn new() -> (player: Player)
        ensures
            player@ == (PlayerView { clip: None, elapsed: 0, speed: 1, repeat: false, paused: false }),
    {
        Player { clip: None, elapsed: 0, speed: 1, repeat: false, paused: false }
    }

    /// Assigns `clip` and plays it once from its start, at the speed the
    /// player had.
    pub fn play(self, clip: Arc<Clip>) -> (player: Player)
        ensures
            player@ == self@.after_play(*clip),
    {
        Player { clip: Some(clip), elapsed: 0, speed: self.speed, repeat: false, paused: false }
    }

    /// Makes playback wrap around at the end of the clip, from the next tick
    /// on.
    pub fn repeat(self) -> (player: Player)
        ensures
            player@ == self@.after_repeat(),
    {
        Player { clip: self.clip, elapsed: self.elapsed, speed: self.speed, repeat: true, paused: self.paused }
    }

    /// Stops the clock. A player without a clip stays as it is.
    pub fn pause(&mut self)
        ensures
            final(self)@ == old(self)@.after_pause(),
    {
        if self.clip.is_some() {
            self.paused = true;
        }
    }

    /// Lets the clock run again. A player without a clip stays as it is.
    pub fn resume(&mut self)
        ensures
            final(self)@ == old(self)@.after_resume(),
    {
        if self.clip.is_some() {
            self.paused = false;
        }
    }

    /// Sets the number of clip ticks per unit of `dt`.
    pub fn set_speed(&mut self, speed: i64)
        ensures
            final(self)@ == old(self)@.after_set_speed(speed as int),
    {
        self.speed = speed;
    }

    pub fn status(&self) -> (status: PlayerStatus)
        ensures
            status == self@.status(),
    {
        if self.clip.is_none() {
            PlayerStatus::Idle
        } else if self.paused {
            PlayerStatus::Paused
        } else {
            PlayerStatus::Playing
        }
    }

    /// The clock's tick.
    pub fn elapsed(&self) -> (elapsed: i64)
        ensures
            elapsed == self@.elapsed,
    {
        self.elapsed
    }

    pub fn speed(&self) -> (speed: i64)
        ensures
            speed == self@.speed,
    {
        self.speed
    }

    pub fn is_repeating(&self) -> (repeat: bool)
        ensures
            repeat == self@.repeat,
    {
        self.repeat
    }

    pub fn is_paused(&self) -> (paused: bool)
        ensures
            paused == (self@.status() == PlayerStatus::Paused),
    {
        self.clip.is_some() && self.paused
    }

    /// Moves the clock by `dt` at the player's speed. Only a playing
    /// player's clock moves.
    pub fn advance(&mut self, dt: i64)
        ensures
            final(self)@ == old(self)@.after_tick(dt as int),
    {
        if self.paused {
            return ;
        }
        match &self.clip {
            None => {},
            Some(clip) => {
                let duration: i64 = clip.duration();
                self.elapsed = next_elapsed(self.elapsed, dt, self.speed, self.repeat, duration);
            },
        }
    }

    /// What the player asks of the hierarchy at the clock's tick, with its
    /// clip's paths followed from `root`. A paused player asks for the pose
    /// it stands at; a player without a clip asks for nothing.
    pub fn pose(&self, root: ObjectId, resolver: &mut PathResolver) -> (pose: Vec<TrackPose>)
        ensures
            pose_view(pose@) == self@.pose(&old(resolver).spec_hierarchy(), root),
            final(resolver)@ == self@.cache_after(old(resolver)@, &old(resolver).spec_hierarchy(), root),
            final(resolver).spec_hierarchy() == old(resolver).spec_hierarchy(),
    {
        match &self.clip {
            None => {
                let pose: Vec<TrackPose> = Vec::new();
                pose
            },
            Some(clip) => clip.pose(self.elapsed, root, resolver),
        }
    }

    /// One frame: moves the clock by `dt` and returns what the clip asks of
    /// the hierarchy at the new tick. `root` is the object that the player
    /// animates below.
    pub fn tick(&mut self, dt: i64, root: ObjectId, resolver: &mut PathResolver) -> (pose: Vec<TrackPose>)
        ensures
            final(self)@ == old(self)@.after_tick(dt as int),
            pose_view(pose@) == final(self)@.pose(&old(resolver).spec_hierarchy(), root),
            final(resolver)@ == old(self)@.cache_after(
                old(resolver)@,
                &old(resolver).spec_hierarchy(),
                root,
            ),
            final(resolver).spec_hierarchy() == old(resolver).spec_hierarchy(),
    {
        self.advance(dt);
        self.pose(root, resolver)
    }
}

impl Default for Player {
    fn default() -> (player: Player)
        ensures
            player@ == (PlayerView { clip: None, elapsed: 0, speed: 1, repeat: false, paused: false }),
    {
        Player::new()
    }
}

/// The clip that a player holds is sound.
pub open spec fn holds_sound_clip(player: PlayerView) -> bool {
    player.clip matches Some(clip) ==> clip.well_formed()
}

/// Where a repeating player stands after a run of ticks from tick zero: at
/// the total distance, wrapped into the clip.
proof fn lemma_repeating_clock(player: PlayerView, dts: Seq<int>)
    requires
        holds_sound_clip(player),
        player.repeat,
        player.elapsed == 0,
    ensures
        player.after_ticks(dts) == (PlayerView {
            elapsed: if player.status() == PlayerStatus::Playing && player.duration() != 0 {
                (total(dts) * player.speed) % player.duration()
            } else {
                0
            },
            ..player
        }),
    decreases dts.len(),
{
    let d = player.duration();
    let s = player.speed;
    if dts.len() == 0 {
        if d != 0 {
            assert(0int * s == 0);
            lemma_small_mod(0, d as nat);
        }
    } else {
        let init = dts.drop_last();
        lemma_repeating_clock(player, init);
        if player.status() == PlayerStatus::Playing && d != 0 {
            let t = total(init);
            lemma_add_mod_noop_right(dts.last() * s, t * s, d);
            assert(t * s + dts.last() * s == (t + dts.last()) * s) by (nonlinear_arith);
        }
    }
}

/// Wrap equivalence. For a repeating player at tick zero, any run of ticks
/// leaves the player where a single tick does whose step is the sum of the
/// run's steps wrapped into the clip's length, and so asks for the same
/// pose.
pub proof fn lemma_wrap_equivalence(
    player: PlayerView,
    dts: Seq<int>,
    hierarchy: &Hierarchy,
    root: ObjectId,
)
    requires
        holds_sound_clip(player),
        player.repeat,
        player.elapsed == 0,
    ensures
        player.after_ticks(dts) == player.after_tick(total(dts) % player.duration()),
        player.after_ticks(dts).pose(hierarchy, root) == player.after_tick(
            total(dts) % player.duration(),
        ).pose(hierarchy, root),
{
    let d = player.duration();
    lemma_repeating_clock(player, dts);
    if player.status() == PlayerStatus::Playing && d != 0 {
        lemma_mul_mod_noop_left(total(dts), player.speed, d);
    }
}

/// A repeating player's clock stays inside the clip: after any tick it is at
/// or after tick zero and before the clip's end.
pub proof fn lemma_repeating_clock_in_range(player: PlayerView, dt: int)
    requires
        holds_sound_clip(player),
        player.repeat,
        player.status() == PlayerStatus::Playing,
        player.duration() != 0,
    ensures
        0 <= player.after_tick(dt).elapsed < player.duration(),
{
}

/// End hold. When a tick takes a player that plays once past the end of its
/// clip, the clock stops at the end; every later tick that does not step
/// backwards leaves the player as it is, so that it keeps asking for the
/// pose at the clip's end.
pub proof fn lemma_end_hold(
    player: PlayerView,
    first: int,
    rest: Seq<int>,
    hierarchy: &Hierarchy,
    root: ObjectId,
)
    requires
        holds_sound_clip(player),
        player.status() == PlayerStatus::Playing,
        !player.repeat,
        player.elapsed + first * player.speed > player.duration(),
        forall|i: int| 0 <= i < rest.len() ==> #[trigger] rest[i] * player.speed >= 0,
    ensures
        player.after_tick(first).elapsed == player.duration(),
        player.after_tick(first).after_ticks(rest) == player.after_tick(first),
        player.after_tick(first).after_ticks(rest).pose(hierarchy, root) == pose_spec(
            player.clip->0@,
            hierarchy,
            root,
            player.duration(),
        ),
    decreases rest.len(),
{
    if rest.len() > 0 {
        let init = rest.drop_last();
        lemma_end_hold(player, first, init, hierarchy, root);
    }
}

} // verus!
