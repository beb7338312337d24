//! Cars: a motion mode, a momentum and a heading, advanced tick by tick.
//!
//! Every quantity is a whole number: constants and speeds in thousandths,
//! times in milliseconds, headings in thousandths of a unit length. What
//! a car keeps of its motion is its momentum, the velocity times the mass
//! times `SCALE`: a force acting for a time changes it by heading times
//! force times time, with no quotient and so with nothing rounded, and no
//! tick, however short, is lost. The velocity is the momentum over the
//! mass, rounded toward zero where it is read.

use crate::vehicles::vector::{
    lemma_axis_is_unit, lemma_blend_no_longer, lemma_direction_is_unit, lemma_floor_sqrt,
    lemma_long_coordinate, lemma_nonzero_norm, lemma_scaled_no_longer, lemma_scaled_norm,
    lemma_times_norm, lemma_times_over, lemma_trunc_div_bounds, trunc_div, Vec2, Vector, LIMIT,
    REACH, SCALE,
};
use vstd::prelude::*;

verus! {

/// How long a full turn takes, in milliseconds.
pub const STEER_TIME: u32 = 15_000;

/// What a car is doing.
#[derive(Clone, Copy, Debug, PartialEq, Eq, Structural)]
pub enum State {
    Idle,
    Parked,
    Driving,
    /// Turning toward the heading held here.
    Turning(Vec2),
}

impl State {
    /// A target heading is no longer than one.
    pub open spec fn wf(self) -> bool {
        match self {
            State::Turning(target) => target@.at_most_unit(),
            _ => true,
        }
    }

    /// Whether a car may be put in this state.
    pub fn is_valid(&self) -> (r: bool)
        ensures
            r == self.wf(),
    {
        match self {
            State::Turning(target) => target.is_at_most_unit(),
            _ => true,
        }
    }
}

/// The mathematical model of a car.
pub struct Kinematics {
    pub name: Seq<char>,
    pub power: int,
    pub braking: int,
    pub mass: int,
    pub max_speed: int,
    pub state: State,
    pub momentum: Vector,
    pub heading: Vector,
    pub interpolation: int,
}

impl Kinematics {
    /// The constants of a car are in range, with a mass above zero.
    pub open spec fn constants_ok(power: int, braking: int, mass: int, max_speed: int) -> bool {
        &&& 0 <= power <= LIMIT
        &&& 0 <= braking <= LIMIT
        &&& 0 < mass <= LIMIT
        &&& 0 <= max_speed <= LIMIT
    }

    /// What the momentum is over to give the velocity: the mass times
    /// `SCALE`.
    pub open spec fn weight(self) -> int {
        self.mass * 1000
    }

    /// The momentum of the car at its speed ceiling.
    pub open spec fn top_momentum(self) -> int {
        self.max_speed * (self.mass * 1000)
    }

    /// The velocity: the momentum over the weight, each coordinate rounded
    /// toward zero.
    pub open spec fn velocity(self) -> Vector {
        self.momentum.scaled(1, self.weight())
    }

    /// The car is no faster than its speed ceiling: its momentum is no
    /// longer than that at the ceiling.
    pub open spec fn within_ceiling(self) -> bool {
        self.momentum.norm_sq() <= self.top_momentum() * self.top_momentum()
    }

    /// What holds of every car: constants in range, a speed within the
    /// ceiling, a heading of unit length, a turn between not begun and
    /// done, and a target heading no longer than one.
    pub open spec fn wf(self) -> bool {
        &&& Self::constants_ok(self.power, self.braking, self.mass, self.max_speed)
        &&& self.within_ceiling()
        &&& self.heading.is_unit()
        &&& 0 <= self.interpolation <= STEER_TIME
        &&& self.state.wf()
    }

    /// A car as it leaves the factory: idle, at rest, heading along the
    /// first axis.
    pub open spec fn fresh(
        name: Seq<char>,
        power: int,
        braking: int,
        mass: int,
        max_speed: int,
    ) -> Kinematics {
        Kinematics {
            name,
            power,
            braking,
            mass,
            max_speed,
            state: State::Idle,
            momentum: Vector::zero(),
            heading: Vector { x: SCALE as int, y: 0 },
            interpolation: 0,
        }
    }

    /// A Ferrari as it leaves the factory.
    pub open spec fn ferrari() -> Kinematics {
        Self::fresh("Ferrari"@, 5000, 5000, 1000, 100_000)
    }

    /// A Mustang as it leaves the factory.
    pub open spec fn mustang() -> Kinematics {
        Self::fresh("Mustang"@, 3000, 4000, 1350, 80_000)
    }

    /// A sedan as it leaves the factory.
    pub open spec fn sedan() -> Kinematics {
        Self::fresh("Sedan"@, 2000, 3000, 1500, 75_000)
    }

    /// A pickup truck as it leaves the factory.
    pub open spec fn pickup_truck() -> Kinematics {
        Self::fresh("Pickup Truck"@, 2500, 3000, 3000, 70_000)
    }

    /// A go-kart as it leaves the factory.
    pub open spec fn go_kart() -> Kinematics {
        Self::fresh("Go Kart"@, 500, 1000, 200, 40_000)
    }

    /// A Mercedes as it leaves the factory.
    pub open spec fn mercedes() -> Kinematics {
        Self::fresh("Mercedes"@, 3000, 3000, 2000, 90_000)
    }

    /// The car in another state, its turn not begun.
    pub open spec fn set_state(self, s: State) -> Kinematics {
        Kinematics { state: s, interpolation: 0, ..self }
    }

    /// The car with its heading along `v`; unchanged where `v` is zero.
    pub open spec fn set_heading(self, v: Vector) -> Kinematics {
        if v == Vector::zero() {
            self
        } else {
            Kinematics { heading: v.direction(), ..self }
        }
    }

    /// The car at the velocity `v`.
    pub open spec fn set_velocity(self, v: Vector) -> Kinematics {
        Kinematics { momentum: v.times(self.weight()), ..self }
    }

    /// The car after `force` has acted along its heading for `t`
    /// milliseconds: the momentum changes by heading times force times
    /// time, which is to say the velocity by that over the mass; a braking
    /// force that would push the car past rest leaves it at rest; a speed
    /// above the ceiling is cut to the ceiling along the heading.
    pub open spec fn accelerate_by(self, force: int, t: int) -> Kinematics {
        let delta = self.heading.times(force * t);
        let moved = if force < 0 && delta.norm_sq() > self.momentum.norm_sq() {
            Vector::zero()
        } else {
            self.momentum.plus(delta)
        };
        let capped = if moved.norm_sq() > self.top_momentum() * self.top_momentum() {
            self.heading.times(self.max_speed * self.mass)
        } else {
            moved
        };
        Kinematics { momentum: capped, ..self }
    }

    /// The car after braking for `t` milliseconds.
    pub open spec fn stop(self, t: int) -> Kinematics {
        self.accelerate_by(-self.braking, t)
    }

    /// The car after driving for `t` milliseconds.
    pub open spec fn accelerate(self, t: int) -> Kinematics {
        self.accelerate_by(self.power, t)
    }

    /// How far a turn has come after `t` more milliseconds.
    pub open spec fn advance(interpolation: int, t: int) -> int {
        if interpolation + t > STEER_TIME {
            STEER_TIME as int
        } else {
            interpolation + t
        }
    }

    /// The car after turning toward `target` for `t` milliseconds: the
    /// turn advances, the momentum is blended, by as much as the turn has
    /// come, toward the same momentum along `target`, and the heading
    /// follows the momentum unless the car is at rest.
    pub open spec fn turn_to(self, target: Vector, t: int) -> Kinematics {
        let progress = Self::advance(self.interpolation, t);
        let aim = target.scaled(self.momentum.length(), SCALE as int);
        let turned = self.momentum.blend(aim, progress, STEER_TIME as int);
        Kinematics { interpolation: progress, momentum: turned, ..self }.set_heading(turned)
    }

    /// The car after `t` milliseconds in its state.
    pub open spec fn animate(self, t: int) -> Kinematics {
        match self.state {
            State::Idle => self.stop(t),
            State::Parked => self.stop(t),
            State::Driving => self.accelerate(t),
            State::Turning(target) => self.turn_to(target@, t),
        }
    }
}

/// The sizes of what a car holds: its weight and its momentum at the
/// ceiling are within reach, and so are the coordinates of its momentum.
proof fn lemma_car_bounds(k: Kinematics)
    requires
        k.wf(),
    ensures
        1000 <= k.weight() <= 1_000_000_000,
        0 <= k.max_speed * k.mass <= 1_000_000_000_000,
        k.top_momentum() == (k.max_speed * k.mass) * 1000,
        0 <= k.top_momentum() <= REACH,
        0 <= k.top_momentum() * k.top_momentum() <= 1_000_000_000_000_000
            * 1_000_000_000_000_000,
        k.momentum.within(k.top_momentum()),
        k.momentum.within(REACH as int),
        k.heading.within(SCALE as int),
        k.momentum.norm_sq() >= 0,
{
    let top = k.top_momentum();
    let a = k.max_speed;
    let m = k.mass;
    assert(0 <= a * m <= 1_000_000_000_000 && a * (m * 1000) == (a * m) * 1000)
        by (nonlinear_arith)
        requires
            0 <= a <= 1_000_000,
            0 < m <= 1_000_000,
    ;
    assert(0 <= top * top <= 1_000_000_000_000_000 * 1_000_000_000_000_000) by (nonlinear_arith)
        requires
            0 <= top <= 1_000_000_000_000_000,
    ;
    if !k.momentum.within(top) {
        lemma_long_coordinate(k.momentum, top);
    }
    if !k.heading.within(SCALE as int) {
        lemma_long_coordinate(k.heading, SCALE as int);
    }
    lemma_nonzero_norm(k.momentum);
}

/// The speed ceiling holds of the velocity that is read: a car within its
/// ceiling has a velocity no longer than `max_speed`.
pub proof fn lemma_speed_within_ceiling(k: Kinematics)
    requires
        Kinematics::constants_ok(k.power, k.braking, k.mass, k.max_speed),
        k.within_ceiling(),
    ensures
        k.velocity().norm_sq() <= k.max_speed * k.max_speed,
{
    let w = k.weight();
    let v = k.velocity().norm_sq();
    let p = k.momentum.norm_sq();
    let a2 = k.max_speed * k.max_speed;
    let w2 = w * w;
    lemma_scaled_norm(k.momentum, 1, w);
    assert(k.top_momentum() * k.top_momentum() == a2 * w2) by (nonlinear_arith)
        requires
            k.top_momentum() == k.max_speed * w,
            a2 == k.max_speed * k.max_speed,
            w2 == w * w,
    ;
    assert(v <= a2) by (nonlinear_arith)
        requires
            v * w2 <= p * (1 * 1),
            p <= a2 * w2,
            w2 == w * w,
            w > 0,
    ;
}

/// The momentum that a speed above the ceiling is cut to is the momentum
/// at the ceiling, or nearer rest.
proof fn lemma_cap_within_ceiling(k: Kinematics)
    requires
        k.wf(),
    ensures
        k.heading.times(k.max_speed * k.mass).norm_sq() <= k.top_momentum() * k.top_momentum(),
{
    let f = k.max_speed * k.mass;
    let f2 = f * f;
    let h = k.heading.norm_sq();
    lemma_times_norm(k.heading, f);
    lemma_car_bounds(k);
    assert(h * f2 <= 1_000_000 * f2) by (nonlinear_arith)
        requires
            h <= 1_000_000,
            f2 == f * f,
    ;
    assert((f * 1000) * (f * 1000) == 1_000_000 * f2) by (nonlinear_arith)
        requires
            f2 == f * f,
    ;
}

/// A force acting on a car for any time leaves it a car within its speed
/// ceiling.
pub proof fn lemma_accelerate_by_keeps_wf(k: Kinematics, force: int, t: int)
    requires
        k.wf(),
    ensures
        k.accelerate_by(force, t).wf(),
        k.accelerate_by(force, t).within_ceiling(),
        k.accelerate_by(force, t).velocity().norm_sq() <= k.max_speed * k.max_speed,
{
    lemma_cap_within_ceiling(k);
    lemma_car_bounds(k);
    lemma_nonzero_norm(Vector::zero());
    lemma_speed_within_ceiling(k.accelerate_by(force, t));
}

/// A quotient keeps its value where both of its terms are taken times the
/// same positive number.
proof fn lemma_trunc_div_cancel(a: int, b: int, m: int)
    requires
        b > 0,
        m > 0,
    ensures
        trunc_div((a * m) * 1, b * m) == trunc_div(a * 1, b),
{
    let n = if a >= 0 {
        a
    } else {
        -a
    };
    let q = n / b;
    let r = n - q * b;
    assert(0 <= r < b && q >= 0) by (nonlinear_arith)
        requires
            q == n / b,
            r == n - q * b,
            n >= 0,
            b > 0,
    ;
    assert(n * m == q * (b * m) + r * m && 0 <= r * m < b * m && b * m > 0) by (nonlinear_arith)
        requires
            n == q * b + r,
            0 <= r < b,
            m > 0,
    ;
    vstd::arithmetic::div_mod::lemma_fundamental_div_mod_converse(n * m, b * m, q, r * m);
    if a >= 0 {
        assert(a * m >= 0) by (nonlinear_arith)
            requires
                a >= 0,
                m > 0,
        ;
    } else {
        assert(a * m < 0 && -(a * m) == n * m) by (nonlinear_arith)
            requires
                a < 0,
                n == -a,
                m > 0,
        ;
    }
}

/// Where the speed would pass the ceiling, it is cut to the ceiling along
/// the heading, whatever the force and the time: the momentum is heading
/// times `max_speed` times mass, and the velocity is heading times
/// `max_speed`, which for a heading along an axis is `max_speed` exactly.
pub proof fn lemma_cap_is_heading_times_ceiling(k: Kinematics, force: int, t: int)
    requires
        k.wf(),
    ensures
        ({
            let delta = k.heading.times(force * t);
            let moved = if force < 0 && delta.norm_sq() > k.momentum.norm_sq() {
                Vector::zero()
            } else {
                k.momentum.plus(delta)
            };
            moved.norm_sq() > k.top_momentum() * k.top_momentum() ==> {
                &&& k.accelerate_by(force, t).momentum == k.heading.times(k.max_speed * k.mass)
                &&& k.accelerate_by(force, t).velocity() == k.heading.scaled(
                    k.max_speed,
                    SCALE as int,
                )
            }
        }),
{
    let capped = k.heading.times(k.max_speed * k.mass);
    let a = k.max_speed;
    let m = k.mass;
    lemma_trunc_div_cancel(k.heading.x * a, 1000, m);
    lemma_trunc_div_cancel(k.heading.y * a, 1000, m);
    assert(k.heading.x * (a * m) == (k.heading.x * a) * m) by (nonlinear_arith);
    assert(k.heading.y * (a * m) == (k.heading.y * a) * m) by (nonlinear_arith);
    assert(1000 * m == m * 1000);
    assert(capped.scaled(1, k.weight()) == k.heading.scaled(a, SCALE as int));
}

/// Turning toward a heading no longer than one, for any time from zero
/// on, leaves a car a car within its speed ceiling.
pub proof fn lemma_turn_to_keeps_wf(k: Kinematics, target: Vector, t: int)
    requires
        k.wf(),
        target.at_most_unit(),
        t >= 0,
    ensures
        k.turn_to(target, t).wf(),
        k.turn_to(target, t).within_ceiling(),
        k.turn_to(target, t).velocity().norm_sq() <= k.max_speed * k.max_speed,
{
    let progress = Kinematics::advance(k.interpolation, t);
    let speed = k.momentum.length();
    let aim = target.scaled(speed, SCALE as int);
    let turned = k.momentum.blend(aim, progress, STEER_TIME as int);
    lemma_nonzero_norm(k.momentum);
    lemma_floor_sqrt(k.momentum.norm_sq());
    lemma_scaled_no_longer(target, speed, SCALE as int);
    let q = k.top_momentum() * k.top_momentum();
    assert(aim.norm_sq() <= q);
    lemma_blend_no_longer(k.momentum, aim, progress, STEER_TIME as int, q);
    if turned != Vector::zero() {
        lemma_direction_is_unit(turned);
    }
    lemma_speed_within_ceiling(k.turn_to(target, t));
}

/// The speed ceiling is never passed: after any time from zero on, in any
/// state, a car is a car within its speed ceiling, and the velocity read
/// of it is no longer than `max_speed`.
pub proof fn lemma_animate_keeps_wf(k: Kinematics, t: int)
    requires
        k.wf(),
        t >= 0,
    ensures
        k.animate(t).wf(),
        k.animate(t).within_ceiling(),
        k.animate(t).velocity().norm_sq() <= k.max_speed * k.max_speed,
{
    match k.state {
        State::Idle => lemma_accelerate_by_keeps_wf(k, -k.braking, t),
        State::Parked => lemma_accelerate_by_keeps_wf(k, -k.braking, t),
        State::Driving => lemma_accelerate_by_keeps_wf(k, k.power, t),
        State::Turning(target) => lemma_turn_to_keeps_wf(k, target@, t),
    }
}

/// A car: a name, four constants, and what moves.
#[derive(Debug)]
pub struct Car {
    name: String,
    power: u32,
    braking: u32,
    mass: u32,
    state: State,
    momentum: Vec2,
    heading: Vec2,
    max_speed: u32,
    interpolation: u32,
}

impl View for Car {
    type V = Kinematics;

    closed spec fn view(&self) -> Kinematics {
        Kinematics {
            name: self.name@,
            power: self.power as int,
            braking: self.braking as int,
            mass: self.mass as int,
            max_speed: self.max_speed as int,
            state: self.state,
            momentum: self.momentum@,
            heading: self.heading@,
            interpolation: self.interpolation as int,
        }
    }
}

impl Car {
    /// What holds of every car that the engine made or moved.
    pub open spec fn wf(&self) -> bool {
        self@.wf()
    }

    /// A car with the given name and constants: idle, at rest, heading
    /// along the first axis.
    pub fn new(name: String, power: u32, braking: u32, mass: u32, max_speed: u32) -> (car: Car)
        requires
            Kinematics::constants_ok(power as int, braking as int, mass as int, max_speed as int),
        ensures
            car@ == Kinematics::fresh(
                name@,
                power as int,
                braking as int,
                mass as int,
                max_speed as int,
            ),
            car.wf(),
            car@.velocity() == Vector::zero(),
            car@.heading.is_unit(),
            car@.state == State::Idle,
    {
        proof {
            lemma_fresh_is_wf(name@, power as int, braking as int, mass as int, max_speed as int);
        }
        Car {
            name,
            power,
            braking,
            mass,
            state: State::Idle,
            momentum: Vec2::zero(),
            heading: Vec2::unit_x(),
            max_speed,
            interpolation: 0,
        }
    }

    /// A Ferrari, new from the factory.
    pub fn new_ferrari() -> (car: Car)
        ensures
            car@ == Kinematics::ferrari(),
            car.wf(),
            car@.velocity() == Vector::zero(),
            car@.heading.is_unit(),
            car@.state == State::Idle,
    {
        Car::new("Ferrari".to_owned(), 5000, 5000, 1000, 100_000)
    }

    /// A Mustang, new from the factory.
    pub fn new_mustang() -> (car: Car)
        ensures
            car@ == Kinematics::mustang(),
            car.wf(),
            car@.velocity() == Vector::zero(),
            car@.heading.is_unit(),
            car@.state == State::Idle,
    {
        Car::new("Mustang".to_owned(), 3000, 4000, 1350, 80_000)
    }

    /// A sedan, new from the factory.
    pub fn new_sedan() -> (car: Car)
        ensures
            car@ == Kinematics::sedan(),
            car.wf(),
            car@.velocity() == Vector::zero(),
            car@.heading.is_unit(),
            car@.state == State::Idle,
    {
        Car::new("Sedan".to_owned(), 2000, 3000, 1500, 75_000)
    }

    /// A pickup truck, new from the factory.
    pub fn new_pickup_truck() -> (car: Car)
        ensures
            car@ == Kinematics::pickup_truck(),
            car.wf(),
            car@.velocity() == Vector::zero(),
            car@.heading.is_unit(),
            car@.state == State::Idle,
    {
        Car::new("Pickup Truck".to_owned(), 2500, 3000, 3000, 70_000)
    }

    /// A go-kart, new from the factory.
    pub fn new_go_kart() -> (car: Car)
        ensures
            car@ == Kinematics::go_kart(),
            car.wf(),
            car@.velocity() == Vector::zero(),
            car@.heading.is_unit(),
            car@.state == State::Idle,
    {
        Car::new("Go Kart".to_owned(), 500, 1000, 200, 40_000)
    }

    /// A Mercedes, new from the factory.
    pub fn new_mercedes() -> (car: Car)
        ensures
            car@ == Kinematics::mercedes(),
            car.wf(),
            car@.velocity() == Vector::zero(),
            car@.heading.is_unit(),
            car@.state == State::Idle,
    {
        Car::new("Mercedes".to_owned(), 3000, 3000, 2000, 90_000)
    }

    /// Advances the car by `t` milliseconds in its state.
    pub fn animate(&mut self, t: u32)
        requires
            old(self).wf(),
        ensures
            final(self)@ == old(self)@.animate(t as int),
            final(self).wf(),
            final(self)@.within_ceiling(),
            final(self)@.velocity().norm_sq() <= old(self)@.max_speed * old(self)@.max_speed,
            final(self)@.interpolation >= old(self)@.interpolation,
            final(self)@.interpolation <= STEER_TIME,
    {
        proof {
            lemma_animate_keeps_wf(self@, t as int);
        }
        match self.state {
            State::Idle => self.stop(t),
            State::Parked => self.stop(t),
            State::Driving => self.accelerate(t),
            State::Turning(heading) => self.turn_to(heading, t),
        }
    }

    /// Points the car along `v`; a zero `v` leaves the heading as it is.
    pub fn set_heading(&mut self, v: &Vec2)
        requires
            old(self).wf(),
            v@.within(REACH as int),
        ensures
            final(self)@ == old(self)@.set_heading(v@),
            final(self).wf(),
    {
        if !v.is_zero() {
            self.heading = v.direction();
        }
    }

    /// Puts the car in state `s` and begins its turn anew.
    pub fn set_state(&mut self, s: State)
        requires
            old(self).wf(),
            s.wf(),
        ensures
            final(self)@ == old(self)@.set_state(s),
            final(self)@.interpolation == 0,
            final(self)@.state == s,
            final(self).wf(),
    {
        self.state = s;
        self.interpolation = 0;
    }

    /// Gives the car the velocity `v` where that is within its speed
    /// ceiling, and says whether it did.
    pub fn set_velocity(&mut self, v: &Vec2) -> (changed: bool)
        requires
            old(self).wf(),
        ensures
            changed == (v@.norm_sq() <= old(self)@.max_speed * old(self)@.max_speed),
            changed ==> final(self)@ == old(self)@.set_velocity(v@),
            changed ==> final(self)@.velocity() == v@,
            !changed ==> final(self)@ == old(self)@,
            final(self).wf(),
    {
        proof {
            lemma_car_bounds(self@);
        }
        let ceiling: i128 = self.max_speed as i128;
        assert(0 <= ceiling * ceiling <= 1_000_000 * 1_000_000) by (nonlinear_arith)
            requires
                0 <= ceiling <= 1_000_000,
        ;
        if v.x < -LIMIT || v.x > LIMIT || v.y < -LIMIT || v.y > LIMIT {
            proof {
                lemma_long_coordinate(v@, LIMIT as int);
            }
            false
        } else if v.norm_sq() <= ceiling * ceiling {
            let weight: i64 = (self.mass as i64) * SCALE;
            proof {
                let w = weight as int;
                assert(-1_000_000_000_000_000 <= v.x * w <= 1_000_000_000_000_000)
                    by (nonlinear_arith)
                    requires
                        -1_000_000 <= v.x <= 1_000_000,
                        0 < w <= 1_000_000_000,
                ;
                assert(-1_000_000_000_000_000 <= v.y * w <= 1_000_000_000_000_000)
                    by (nonlinear_arith)
                    requires
                        -1_000_000 <= v.y <= 1_000_000,
                        0 < w <= 1_000_000_000,
                ;
                lemma_times_norm(v@, w);
                lemma_times_over(v@, w);
                let a2 = self.max_speed * self.max_speed;
                let top = self@.top_momentum();
                assert(v@.norm_sq() * (w * w) <= top * top) by (nonlinear_arith)
                    requires
                        v@.norm_sq() <= a2,
                        a2 == self.max_speed * self.max_speed,
                        top == self.max_speed * w,
                ;
            }
            self.momentum = v.times(weight);
            true
        } else {
            false
        }
    }

    /// The velocity, in thousandths of a unit per second: the momentum
    /// over the mass, rounded toward zero. It is no longer than
    /// `max_speed`.
    pub fn velocity(&self) -> (v: Vec2)
        requires
            self.wf(),
        ensures
            v@ == self@.velocity(),
            v@.norm_sq() <= self@.max_speed * self@.max_speed,
    {
        proof {
            lemma_car_bounds(self@);
            lemma_speed_within_ceiling(self@);
        }
        self.momentum.over((self.mass as i64) * SCALE)
    }

    /// The heading, in thousandths of a unit length.
    pub fn heading(&self) -> (h: &Vec2)
        ensures
            h@ == self@.heading,
    {
        &self.heading
    }

    /// The name.
    pub fn name(&self) -> (n: &String)
        ensures
            n@ == self@.name,
    {
        &self.name
    }

    /// The state.
    pub fn state(&self) -> (s: State)
        ensures
            s == self@.state,
    {
        self.state
    }

    /// How far the turn has come, in milliseconds out of `STEER_TIME`.
    pub fn interpolation(&self) -> (i: u32)
        ensures
            i == self@.interpolation,
    {
        self.interpolation
    }

    /// Brakes for `t` milliseconds.
    pub fn stop(&mut self, t: u32)
        requires
            old(self).wf(),
        ensures
            final(self)@ == old(self)@.stop(t as int),
            final(self).wf(),
            final(self)@.within_ceiling(),
    {
        self.accelerate_by(-(self.braking as i64), t);
    }

    /// Drives for `t` milliseconds.
    pub fn accelerate(&mut self, t: u32)
        requires
            old(self).wf(),
        ensures
            final(self)@ == old(self)@.accelerate(t as int),
            final(self).wf(),
            final(self)@.within_ceiling(),
    {
        self.accelerate_by(self.power as i64, t);
    }

    /// Lets `force` act along the heading for `t` milliseconds.
    pub fn accelerate_by(&mut self, force: i64, t: u32)
        requires
            old(self).wf(),
            -LIMIT <= force <= LIMIT,
        ensures
            final(self)@ == old(self)@.accelerate_by(force as int, t as int),
            final(self).wf(),
            final(self)@.within_ceiling(),
    {
        proof {
            lemma_car_bounds(self@);
            lemma_accelerate_by_keeps_wf(self@, force as int, t as int);
        }
        let time: i64 = t as i64;
        assert(-0xffff_ffff * 1_000_000 <= force * time <= 0xffff_ffff * 1_000_000)
            by (nonlinear_arith)
            requires
                -1_000_000 <= force <= 1_000_000,
                0 <= time <= 0xffff_ffff,
        ;
        let push: i64 = force * time;
        proof {
            let hx = self.heading.x as int;
            let hy = self.heading.y as int;
            assert(-0xffff_ffff * 1_000_000_000 <= hx * push <= 0xffff_ffff * 1_000_000_000)
                by (nonlinear_arith)
                requires
                    -1000 <= hx <= 1000,
                    -0xffff_ffff * 1_000_000 <= push <= 0xffff_ffff * 1_000_000,
            ;
            assert(-0xffff_ffff * 1_000_000_000 <= hy * push <= 0xffff_ffff * 1_000_000_000)
                by (nonlinear_arith)
                requires
                    -1000 <= hy <= 1000,
                    -0xffff_ffff * 1_000_000 <= push <= 0xffff_ffff * 1_000_000,
            ;
        }
        let delta = self.heading.times(push);
        let moved = if force < 0 && delta.norm_sq() > self.momentum.norm_sq() {
            Vec2::zero()
        } else {
            self.momentum.plus(delta)
        };
        let full: i64 = (self.max_speed as i64) * (self.mass as i64);
        let top: i128 = (full as i128) * 1000;
        assert(0 <= top * top <= 1_000_000_000_000_000 * 1_000_000_000_000_000)
            by (nonlinear_arith)
            requires
                0 <= top <= 1_000_000_000_000_000,
        ;
        proof {
            let hx = self.heading.x as int;
            let hy = self.heading.y as int;
            assert(-1_000_000_000_000_000 <= hx * full <= 1_000_000_000_000_000)
                by (nonlinear_arith)
                requires
                    -1000 <= hx <= 1000,
                    0 <= full <= 1_000_000_000_000,
            ;
            assert(-1_000_000_000_000_000 <= hy * full <= 1_000_000_000_000_000)
                by (nonlinear_arith)
                requires
                    -1000 <= hy <= 1000,
                    0 <= full <= 1_000_000_000_000,
            ;
        }
        self.momentum = if moved.norm_sq() > top * top {
            self.heading.times(full)
        } else {
            moved
        };
    }

    /// Turns toward `heading` for `t` milliseconds.
    pub fn turn_to(&mut self, heading: Vec2, t: u32)
        requires
            old(self).wf(),
            heading@.at_most_unit(),
        ensures
            final(self)@ == old(self)@.turn_to(heading@, t as int),
            final(self).wf(),
            final(self)@.within_ceiling(),
            final(self)@.interpolation >= old(self)@.interpolation,
            final(self)@.interpolation <= STEER_TIME,
    {
        proof {
            lemma_car_bounds(self@);
            lemma_turn_to_keeps_wf(self@, heading@, t as int);
            if !heading@.within(SCALE as int) {
                lemma_long_coordinate(heading@, SCALE as int);
            }
        }
        let delta: u64 = t as u64 + self.interpolation as u64;
        self.interpolation = if delta > STEER_TIME as u64 {
            STEER_TIME
        } else {
            delta as u32
        };
        let speed: i64 = self.momentum.length();
        assert(speed <= 1_000_000_000_000_000) by (nonlinear_arith)
            requires
                0 <= speed,
                speed * speed <= self.momentum@.norm_sq(),
                self.momentum@.norm_sq() <= 1_000_000_000_000_000 * 1_000_000_000_000_000,
        ;
        let aim = heading.scaled(speed, SCALE);
        self.momentum = self.momentum.blend(aim, self.interpolation, STEER_TIME);
        if !self.momentum.is_zero() {
            self.heading = self.momentum.direction();
        }
    }
}

/// A car as it leaves the factory is a car: at rest, heading of unit
/// length, idle.
pub proof fn lemma_fresh_is_wf(name: Seq<char>, power: int, braking: int, mass: int, max_speed: int)
    requires
        Kinematics::constants_ok(power, braking, mass, max_speed),
    ensures
        Kinematics::fresh(name, power, braking, mass, max_speed).wf(),
        Kinematics::fresh(name, power, braking, mass, max_speed).momentum == Vector::zero(),
        Kinematics::fresh(name, power, braking, mass, max_speed).velocity() == Vector::zero(),
        Kinematics::fresh(name, power, braking, mass, max_speed).heading.is_unit(),
        Kinematics::fresh(name, power, braking, mass, max_speed).state == State::Idle,
{
    let k = Kinematics::fresh(name, power, braking, mass, max_speed);
    lemma_axis_is_unit();
    lemma_nonzero_norm(Vector::zero());
    assert(k.top_momentum() * k.top_momentum() >= 0) by (nonlinear_arith);
    assert(0 * 1 == 0);
    assert(trunc_div(0, k.weight()) == 0) by {
        lemma_trunc_div_bounds(0, k.weight());
    }
}

/// The momentum that braking for `t` milliseconds takes from a car that
/// moves along its heading: heading times braking times time.
pub open spec fn braking_push(k: Kinematics, t: int) -> int {
    1000 * (k.braking * t)
}

/// The momentum that driving for `t` milliseconds gives to a car: heading
/// times power times time.
pub open spec fn driving_push(k: Kinematics, t: int) -> int {
    1000 * (k.power * t)
}

/// Of two quotients by one positive number, that of the smaller number is
/// the smaller.
proof fn lemma_quotients_in_order(a: int, b: int, w: int)
    requires
        0 <= a <= b,
        w > 0,
    ensures
        0 <= trunc_div(a * 1, w) <= trunc_div(b * 1, w),
        a == 0 ==> trunc_div(a * 1, w) == 0,
{
    assert(0 <= a / w <= b / w && (a == 0 ==> a / w == 0)) by (nonlinear_arith)
        requires
            0 <= a <= b,
            w > 0,
    ;
}

/// What one tick of a force does to a car that heads along the first axis
/// and moves along it: the momentum changes by `SCALE` times force times
/// time, stops at zero under a braking force that would take more than
/// there is, and stops at the ceiling.
proof fn lemma_axis_tick(k: Kinematics, force: int, t: int)
    requires
        k.wf(),
        t >= 0,
        k.heading == (Vector { x: SCALE as int, y: 0 }),
        k.momentum.y == 0,
        k.momentum.x >= 0,
    ensures
        k.accelerate_by(force, t).momentum.y == 0,
        k.accelerate_by(force, t).momentum.x == (if force < 0 && -(1000 * (force * t))
            > k.momentum.x {
            0
        } else if k.momentum.x + 1000 * (force * t) > k.top_momentum() {
            k.top_momentum()
        } else {
            k.momentum.x + 1000 * (force * t)
        }),
        k.momentum.x <= k.top_momentum(),
{
    let p = k.momentum.x;
    let push = 1000 * (force * t);
    let top = k.top_momentum();
    let delta = k.heading.times(force * t);
    lemma_car_bounds(k);
    assert(0 * (force * t) == 0) by (nonlinear_arith);
    assert(delta.x == push && delta.y == 0);
    assert((force < 0 ==> push <= 0) && (force >= 0 ==> push >= 0)) by (nonlinear_arith)
        requires
            push == 1000 * (force * t),
            t >= 0,
    ;
    let dn = delta.norm_sq();
    let pn = k.momentum.norm_sq();
    assert(dn == push * push) by (nonlinear_arith)
        requires
            delta.x == push,
            delta.y == 0,
            dn == delta.x * delta.x + delta.y * delta.y,
    ;
    assert(pn == p * p) by (nonlinear_arith)
        requires
            k.momentum.x == p,
            k.momentum.y == 0,
            pn == k.momentum.x * k.momentum.x + k.momentum.y * k.momentum.y,
    ;
    assert(p <= top) by (nonlinear_arith)
        requires
            p * p <= top * top,
            p >= 0,
            top >= 0,
    ;
    assert(push <= 0 ==> ((push * push > p * p) == (-push > p))) by (nonlinear_arith)
        requires
            p >= 0,
    ;
    assert(top * top >= 0) by (nonlinear_arith);
    assert(1000 * (k.max_speed * k.mass) == top && 0 * (k.max_speed * k.mass) == 0)
        by (nonlinear_arith)
        requires
            top == (k.max_speed * k.mass) * 1000,
    ;
    let capped = k.heading.times(k.max_speed * k.mass);
    assert(capped.x == top && capped.y == 0);
    if force < 0 && dn > pn {
        let moved = Vector::zero();
        assert(moved.norm_sq() == 0) by (nonlinear_arith)
            requires
                moved.x == 0,
                moved.y == 0,
                moved.norm_sq() == moved.x * moved.x + moved.y * moved.y,
        ;
        assert(k.accelerate_by(force, t).momentum == moved);
    } else {
        let moved = k.momentum.plus(delta);
        let x = p + push;
        assert(moved.x == x && moved.y == 0);
        assert(x >= 0);
        assert(moved.norm_sq() == x * x) by (nonlinear_arith)
            requires
                moved.x == x,
                moved.y == 0,
                moved.norm_sq() == moved.x * moved.x + moved.y * moved.y,
        ;
        assert((x * x > top * top) == (x > top)) by (nonlinear_arith)
            requires
                x >= 0,
                top >= 0,
        ;
        if x > top {
            assert(k.accelerate_by(force, t).momentum == capped);
        } else {
            assert(k.accelerate_by(force, t).momentum == moved);
        }
    }
}

/// Braking never reverses direction. A car that heads along the first
/// axis and moves along it loses `braking_push` of its momentum in a
/// tick, or all of it where it has less: it never moves backward, never
/// gains speed, and keeps to the axis; where the brakes brake and time
/// passes, a moving car loses speed in every tick, however short. Idle
/// and parked cars brake.
pub proof fn lemma_braking_never_reverses(k: Kinematics, t: int)
    requires
        k.wf(),
        t >= 0,
        k.heading == (Vector { x: SCALE as int, y: 0 }),
        k.momentum.y == 0,
        k.momentum.x >= 0,
    ensures
        k.stop(t).wf(),
        k.stop(t).momentum.y == 0,
        k.stop(t).momentum.x == (if braking_push(k, t) > k.momentum.x {
            0
        } else {
            k.momentum.x - braking_push(k, t)
        }),
        0 <= k.stop(t).momentum.x <= k.momentum.x,
        k.braking > 0 && t > 0 && k.momentum.x > 0 ==> k.stop(t).momentum.x < k.momentum.x,
        k.stop(t).velocity().y == 0,
        0 <= k.stop(t).velocity().x <= k.velocity().x,
        k.stop(t).heading == k.heading,
        k.state == State::Idle || k.state == State::Parked ==> k.animate(t) == k.stop(t),
{
    let push = braking_push(k, t);
    assert(k.braking * t >= 0 && (k.braking > 0 && t > 0 ==> k.braking * t > 0))
        by (nonlinear_arith)
        requires
            k.braking >= 0,
            t >= 0,
    ;
    assert((-k.braking) * t == -(k.braking * t)) by (nonlinear_arith);
    lemma_axis_tick(k, -k.braking, t);
    lemma_accelerate_by_keeps_wf(k, -k.braking, t);
    lemma_car_bounds(k);
    lemma_quotients_in_order(k.stop(t).momentum.x, k.momentum.x, k.weight());
    assert(0 * 1 == 0);
    lemma_trunc_div_bounds(0, k.weight());
}

/// The car after braking `n` times over, for `t` milliseconds each time.
pub open spec fn braked(k: Kinematics, t: int, n: nat) -> Kinematics
    decreases n,
{
    if n == 0 {
        k
    } else {
        braked(k, t, (n - 1) as nat).stop(t)
    }
}

/// Braking over and over brings a car to rest and no further. A car that
/// heads along the first axis and moves along it has, after braking `n`
/// times, lost `n` times `braking_push` of its momentum, or all of it
/// where it had less; nothing is lost to rounding, however short the
/// ticks. As soon as `n` times `braking_push` reaches the momentum that
/// the car began with, the car is at rest, momentum and velocity zero,
/// and it stays at rest through every tick that follows.
pub proof fn lemma_braking_comes_to_rest(k: Kinematics, t: int, n: nat)
    requires
        k.wf(),
        t >= 0,
        k.heading == (Vector { x: SCALE as int, y: 0 }),
        k.momentum.y == 0,
        k.momentum.x >= 0,
    ensures
        braked(k, t, n).wf(),
        braked(k, t, n).heading == k.heading,
        braked(k, t, n).braking == k.braking,
        braked(k, t, n).mass == k.mass,
        braked(k, t, n).momentum.y == 0,
        braked(k, t, n).momentum.x == (if n * braking_push(k, t) > k.momentum.x {
            0
        } else {
            k.momentum.x - n * braking_push(k, t)
        }),
        n * braking_push(k, t) >= k.momentum.x ==> braked(k, t, n).momentum == Vector::zero()
            && braked(k, t, n).velocity() == Vector::zero(),
        0 <= braked(k, t, n).velocity().x <= k.velocity().x,
        braked(k, t, n).velocity().y == 0,
        n > 0 ==> braked(k, t, n).velocity().x <= braked(k, t, (n - 1) as nat).velocity().x,
    decreases n,
{
    let push = braking_push(k, t);
    assert(push >= 0) by (nonlinear_arith)
        requires
            push == 1000 * (k.braking * t),
            k.braking >= 0,
            t >= 0,
    ;
    lemma_car_bounds(k);
    assert(0 * 1 == 0);
    lemma_trunc_div_bounds(0, k.weight());
    if n == 0 {
        assert(0 * push == 0) by (nonlinear_arith);
        lemma_quotients_in_order(k.momentum.x, k.momentum.x, k.weight());
    } else {
        let before = braked(k, t, (n - 1) as nat);
        lemma_braking_comes_to_rest(k, t, (n - 1) as nat);
        lemma_braking_never_reverses(before, t);
        assert(braking_push(before, t) == push);
        assert(n * push == (n - 1) * push + push && (n - 1) * push >= 0) by (nonlinear_arith)
            requires
                n >= 1,
                push >= 0,
        ;
    }
}

/// Braking from a speed, with the quotient taken once. A car that heads
/// along the first axis at the speed `v` is at rest after `n` ticks as
/// soon as `n` times braking times time reaches `v` times mass; before
/// that its speed is `v` times mass less `n` times braking times time,
/// over the mass.
pub proof fn lemma_braking_from_speed(k: Kinematics, v: int, t: int, n: nat)
    requires
        k.wf(),
        t >= 0,
        v >= 0,
        k.heading == (Vector { x: SCALE as int, y: 0 }),
        k.momentum == (Vector { x: v, y: 0 }).times(k.weight()),
    ensures
        k.velocity() == (Vector { x: v, y: 0 }),
        n * (k.braking * t) >= v * k.mass ==> braked(k, t, n).velocity() == Vector::zero(),
        n * (k.braking * t) < v * k.mass ==> braked(k, t, n).velocity() == (Vector {
            x: (v * k.mass - n * (k.braking * t)) / k.mass,
            y: 0,
        }),
{
    let w = k.weight();
    let m = k.mass;
    let bt = k.braking * t;
    let rest = v * m - n * bt;
    lemma_times_over(Vector { x: v, y: 0 }, w);
    assert(0 * w == 0) by (nonlinear_arith);
    assert(v * w == (v * m) * 1000 && v * w >= 0) by (nonlinear_arith)
        requires
            w == m * 1000,
            v >= 0,
            m > 0,
    ;
    assert(n * (1000 * bt) == (n * bt) * 1000) by (nonlinear_arith);
    lemma_braking_comes_to_rest(k, t, n);
    if rest > 0 {
        lemma_trunc_div_cancel(rest, m, 1000);
        assert(rest * 1 == rest);
    }
}

/// The car after driving `n` times over, for `t` milliseconds each time.
pub open spec fn driven(k: Kinematics, t: int, n: nat) -> Kinematics
    decreases n,
{
    if n == 0 {
        k
    } else {
        driven(k, t, (n - 1) as nat).accelerate(t)
    }
}

/// Driving gains speed in every tick, however short, up to the ceiling.
/// A car that heads along the first axis and moves along it has, after
/// driving `n` times, gained `n` times `driving_push` of momentum, or
/// stands at the ceiling where that would take it past.
pub proof fn lemma_driving_reaches_ceiling(k: Kinematics, t: int, n: nat)
    requires
        k.wf(),
        t >= 0,
        k.heading == (Vector { x: SCALE as int, y: 0 }),
        k.momentum.y == 0,
        k.momentum.x >= 0,
    ensures
        driven(k, t, n).wf(),
        driven(k, t, n).heading == k.heading,
        driven(k, t, n).power == k.power,
        driven(k, t, n).mass == k.mass,
        driven(k, t, n).max_speed == k.max_speed,
        driven(k, t, n).momentum.y == 0,
        driven(k, t, n).momentum.x == (if k.momentum.x + n * driving_push(k, t)
            > k.top_momentum() {
            k.top_momentum()
        } else {
            k.momentum.x + n * driving_push(k, t)
        }),
    decreases n,
{
    let push = driving_push(k, t);
    assert(push >= 0) by (nonlinear_arith)
        requires
            push == 1000 * (k.power * t),
            k.power >= 0,
            t >= 0,
    ;
    lemma_car_bounds(k);
    if n == 0 {
        assert(0 * push == 0) by (nonlinear_arith);
        lemma_axis_tick(k, 0, t);
    } else {
        let before = driven(k, t, (n - 1) as nat);
        lemma_driving_reaches_ceiling(k, t, (n - 1) as nat);
        lemma_axis_tick(before, before.power, t);
        lemma_accelerate_by_keeps_wf(before, before.power, t);
        assert(n * push == (n - 1) * push + push && (n - 1) * push >= 0) by (nonlinear_arith)
            requires
                n >= 1,
                push >= 0,
        ;
    }
}

/// A turn only advances, and it ends at `STEER_TIME`: the interpolation
/// after a tick is the one before plus the time, cut at `STEER_TIME`.
pub proof fn lemma_turn_advances(k: Kinematics, target: Vector, t: int)
    requires
        k.wf(),
        t >= 0,
    ensures
        k.interpolation <= k.turn_to(target, t).interpolation <= STEER_TIME,
        k.turn_to(target, t).interpolation == Kinematics::advance(k.interpolation, t),
        k.interpolation + t >= STEER_TIME ==> k.turn_to(target, t).interpolation == STEER_TIME,
        k.turn_to(target, t).state == k.state,
{
}

/// The car after turning toward `target` `n` times over, for `t`
/// milliseconds each time.
pub open spec fn turned(k: Kinematics, target: Vector, t: int, n: nat) -> Kinematics
    decreases n,
{
    if n == 0 {
        k
    } else {
        turned(k, target, t, (n - 1) as nat).turn_to(target, t)
    }
}

/// Over a turn that nothing interrupts the interpolation never falls and
/// ends at `STEER_TIME`: after `n` ticks it is the one at the start plus
/// `n` times the time, cut at `STEER_TIME`.
pub proof fn lemma_turn_session(k: Kinematics, target: Vector, t: int, n: nat)
    requires
        k.wf(),
        target.at_most_unit(),
        t >= 0,
    ensures
        turned(k, target, t, n).wf(),
        turned(k, target, t, n).interpolation == Kinematics::advance(k.interpolation, n * t),
        k.interpolation <= turned(k, target, t, n).interpolation <= STEER_TIME,
        n > 0 ==> turned(k, target, t, (n - 1) as nat).interpolation <= turned(
            k,
            target,
            t,
            n,
        ).interpolation,
    decreases n,
{
    if n == 0 {
        assert(0 * t == 0) by (nonlinear_arith);
    } else {
        let before = turned(k, target, t, (n - 1) as nat);
        lemma_turn_session(k, target, t, (n - 1) as nat);
        lemma_turn_to_keeps_wf(before, target, t);
        assert(n * t == (n - 1) * t + t) by (nonlinear_arith);
        assert((n - 1) * t >= 0) by (nonlinear_arith)
            requires
                n >= 1,
                t >= 0,
        ;
    }
}

/// Whatever state a car was in and however far its turn had come, a new
/// state begins the turn anew.
pub proof fn lemma_set_state_resets(k: Kinematics, s: State)
    ensures
        k.set_state(s).interpolation == 0,
        k.set_state(s).state == s,
        k.set_state(s).momentum == k.momentum,
        k.set_state(s).velocity() == k.velocity(),
        k.set_state(s).heading == k.heading,
        k.wf() && s.wf() ==> k.set_state(s).wf(),
{
}

} // verus!
