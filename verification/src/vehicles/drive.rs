//! A test drive: a car taken through a fixed course, frame by frame.

use crate::vehicles::cars::{lemma_animate_keeps_wf, Car, Kinematics, State};
use crate::vehicles::vector::{Vec2, SCALE};
use vstd::prelude::*;

verus! {

/// The time between two frames, in milliseconds.
pub const FRAME_TIME: u32 = 230;

/// What a car shows as a frame begins.
#[derive(Clone, Copy, Debug, PartialEq, Eq, Structural)]
pub struct Frame {
    pub number: u32,
    pub velocity: Vec2,
    pub heading: Vec2,
}

/// One leg of a drive: what it tests, and its frames.
#[derive(Debug)]
pub struct Leg {
    pub label: &'static str,
    pub frames: Vec<Frame>,
}

/// The car after `n` frames in its state.
pub open spec fn after_frames(k: Kinematics, n: nat) -> Kinematics
    decreases n,
{
    if n == 0 {
        k
    } else {
        after_frames(k, (n - 1) as nat).animate(FRAME_TIME as int)
    }
}

/// The car after it was put in `state` and spent the frames from `start`
/// up to `end` in it.
pub open spec fn after_leg(k: Kinematics, state: State, start: u32, end: u32) -> Kinematics {
    after_frames(k.set_state(state), frame_count(start, end))
}

/// How many frames there are from `start` up to, not including, `end`.
pub open spec fn frame_count(start: u32, end: u32) -> nat {
    if end > start {
        (end - start) as nat
    } else {
        0
    }
}

/// `frames` are what the car `k` shows from frame `start` on.
pub open spec fn frames_show(frames: Seq<Frame>, k: Kinematics, start: u32) -> bool {
    forall|i: int|
        0 <= i < frames.len() ==> {
            &&& (#[trigger] frames[i]).number == start + i
            &&& frames[i].velocity@ == after_frames(k, i as nat).velocity()
            &&& frames[i].heading@ == after_frames(k, i as nat).heading
        }
}

/// A car stays a car within its speed ceiling over any number of frames.
pub proof fn lemma_after_frames_keeps_wf(k: Kinematics, n: nat)
    requires
        k.wf(),
    ensures
        after_frames(k, n).wf(),
        after_frames(k, n).within_ceiling(),
    decreases n,
{
    if n > 0 {
        lemma_after_frames_keeps_wf(k, (n - 1) as nat);
        lemma_animate_keeps_wf(after_frames(k, (n - 1) as nat), FRAME_TIME as int);
    }
}

/// Takes the car through the frames from `start` up to `end` and hands
/// back what it showed as each began.
pub fn animate_drive(car: &mut Car, start: u32, end: u32) -> (frames: Vec<Frame>)
    requires
        old(car).wf(),
    ensures
        final(car).wf(),
        final(car)@ == after_frames(old(car)@, frame_count(start, end)),
        frames@.len() == frame_count(start, end),
        frames_show(frames@, old(car)@, start),
{
    let mut frames: Vec<Frame> = Vec::new();
    let mut n: u32 = start;
    while n < end
        invariant
            car.wf(),
            start <= n,
            start <= end ==> n <= end,
            end < start ==> n == start,
            frames@.len() == n - start,
            car@ == after_frames(old(car)@, (n - start) as nat),
            frames_show(frames@, old(car)@, start),
        decreases end - n,
    {
        frames.push(Frame { number: n, velocity: car.velocity(), heading: *car.heading() });
        car.animate(FRAME_TIME);
        n = n + 1;
    }
    frames
}

/// The heading of the test drive's turn: along the second axis.
pub open spec fn turn_target() -> Vec2 {
    Vec2 { x: 0, y: SCALE }
}

/// The state that the car spends leg `i` of the test drive in.
pub open spec fn leg_state(i: int) -> State {
    if i == 0 {
        State::Driving
    } else if i == 1 {
        State::Idle
    } else if i == 2 {
        State::Driving
    } else if i == 3 {
        State::Turning(turn_target())
    } else {
        State::Parked
    }
}

/// What leg `i` of the test drive tests.
pub open spec fn leg_label(i: int) -> Seq<char> {
    if i == 0 {
        "acceleration"@
    } else if i == 1 {
        "braking"@
    } else if i == 2 {
        "handling"@
    } else if i == 3 {
        "steering"@
    } else {
        "final braking"@
    }
}

/// The first frame of leg `i` of the test drive; the leg ends where the
/// next begins.
pub open spec fn leg_start(i: int) -> u32 {
    if i <= 0 {
        1
    } else if i == 1 {
        100
    } else if i == 2 {
        200
    } else if i == 3 {
        220
    } else if i == 4 {
        300
    } else {
        330
    }
}

/// The car after the first `n` legs of the test drive.
pub open spec fn after_legs(k: Kinematics, n: nat) -> Kinematics
    decreases n,
{
    if n == 0 {
        k
    } else {
        after_leg(
            after_legs(k, (n - 1) as nat),
            leg_state(n - 1),
            leg_start(n - 1),
            leg_start(n as int),
        )
    }
}

/// Takes the car on a test drive of five legs: it accelerates, brakes,
/// drives on, steers toward the second axis and parks. Hands back the
/// legs, each with its label and the frames that the car showed in it,
/// numbered from 1 through 329.
pub fn test_drive(car: &mut Car) -> (legs: Vec<Leg>)
    requires
        old(car).wf(),
    ensures
        final(car).wf(),
        final(car)@ == after_legs(old(car)@, 5),
        legs@.len() == 5,
        forall|i: int|
            0 <= i < 5 ==> {
                &&& (#[trigger] legs@[i]).label@ == leg_label(i)
                &&& legs@[i].frames@.len() == leg_start(i + 1) - leg_start(i)
                &&& frames_show(
                    legs@[i].frames@,
                    after_legs(old(car)@, i as nat).set_state(leg_state(i)),
                    leg_start(i),
                )
            },
{
    proof {
        reveal_with_fuel(after_legs, 6);
    }
    let mut legs: Vec<Leg> = Vec::new();
    car.set_state(State::Driving);
    let frames = animate_drive(car, 1, 100);
    legs.push(Leg { label: "acceleration", frames });
    car.set_state(State::Idle);
    let frames = animate_drive(car, 100, 200);
    legs.push(Leg { label: "braking", frames });
    car.set_state(State::Driving);
    let frames = animate_drive(car, 200, 220);
    legs.push(Leg { label: "handling", frames });
    let target = Vec2::new(0, SCALE);
    proof {
        assert(target@.norm_sq() == 1_000_000) by (nonlinear_arith)
            requires
                target@.x == 0,
                target@.y == 1000,
                target@.norm_sq() == target@.x * target@.x + target@.y * target@.y,
        ;
    }
    car.set_state(State::Turning(target));
    let frames = animate_drive(car, 220, 300);
    legs.push(Leg { label: "steering", frames });
    car.set_state(State::Parked);
    let frames = animate_drive(car, 300, 330);
    legs.push(Leg { label: "final braking", frames });
    legs
}

} // verus!
