use learn_more_rust::vehicles::cars::{Car, State, STEER_TIME};
use learn_more_rust::vehicles::drive::{animate_drive, test_drive};
use learn_more_rust::vehicles::vector::{div_toward_zero, isqrt, Vec2};

fn test_car() -> Car {
    let mut car = Car::new("test".to_string(), 1000, 1000, 5000, 50_000);
    car.set_state(State::Parked);
    car
}

fn moving_car(x: i64, y: i64, state: State) -> Car {
    let mut car = test_car();
    assert!(car.set_velocity(&Vec2::new(x, y)));
    car.set_state(state);
    car
}

fn units(thousandths: i64) -> f32 {
    thousandths as f32 / 1000.0
}

#[test]
fn car_stop_lowers_velocity() {
    let mut car = moving_car(2000, 0, State::Driving);
    car.stop(200);
    assert_eq!(car.velocity().y(), 0);
    assert_eq!(car.velocity().x(), 1960);
    assert!((units(car.velocity().x()) - 1.96).abs() <= 2.0 * f32::EPSILON);
}

#[test]
fn car_stop_does_not_pass_zero() {
    let mut car = moving_car(2000, 0, State::Driving);
    car.stop(2_000_000);
    assert_eq!(car.velocity().y(), 0);
    assert_eq!(car.velocity().x(), 0);
}

#[test]
fn car_accelerate_increases_velocity() {
    let mut car = test_car();
    car.accelerate(200);
    assert_eq!(car.velocity().y(), 0);
    assert_eq!(car.velocity().x(), 40);
    assert!((units(car.velocity().x()) - 0.04).abs() <= 2.0 * f32::EPSILON);
}

#[test]
fn car_accelerate_does_not_pass_max_speed() {
    let mut car = test_car();
    car.accelerate(2_000_000);
    assert_eq!(car.velocity().y(), 0);
    assert_eq!(car.velocity().x(), 50_000);
}

#[test]
fn presets_start_idle_at_rest_heading_forward() {
    let presets = [
        (Car::new_ferrari(), "Ferrari"),
        (Car::new_mustang(), "Mustang"),
        (Car::new_sedan(), "Sedan"),
        (Car::new_pickup_truck(), "Pickup Truck"),
        (Car::new_go_kart(), "Go Kart"),
        (Car::new_mercedes(), "Mercedes"),
    ];
    for (car, name) in presets.iter() {
        assert_eq!(car.name(), name);
        assert_eq!(car.velocity(), Vec2::new(0, 0));
        assert_eq!(*car.heading(), Vec2::new(1000, 0));
        assert_eq!(car.state(), State::Idle);
        assert_eq!(car.interpolation(), 0);
    }
}

#[test]
fn driving_from_rest_gains_speed() {
    let mut car = test_car();
    car.set_state(State::Driving);
    car.animate(200);
    assert_eq!(car.velocity(), Vec2::new(40, 0));
}

#[test]
fn idling_brakes() {
    let mut car = moving_car(2000, 0, State::Driving);
    car.set_state(State::Idle);
    car.animate(200);
    assert_eq!(car.velocity(), Vec2::new(1960, 0));
}

#[test]
fn parked_brakes_like_idle() {
    let mut car = moving_car(2000, 0, State::Parked);
    car.animate(200);
    assert_eq!(car.velocity(), Vec2::new(1960, 0));
}

#[test]
fn idling_long_stops_at_exactly_zero() {
    let mut car = moving_car(2000, 0, State::Driving);
    car.set_state(State::Idle);
    car.animate(2_000_000);
    assert_eq!(car.velocity(), Vec2::new(0, 0));
}

#[test]
fn driving_long_stops_at_the_ceiling() {
    let mut car = test_car();
    car.set_state(State::Driving);
    car.animate(2_000_000);
    assert_eq!(car.velocity(), Vec2::new(50_000, 0));
    car.animate(u32::MAX);
    assert_eq!(car.velocity(), Vec2::new(50_000, 0));
}

#[test]
fn a_full_turn_points_the_car_at_its_target() {
    let mut car = moving_car(10_000, 0, State::Driving);
    car.set_state(State::Turning(Vec2::new(0, 1000)));
    car.animate(15_000);
    assert_eq!(car.interpolation(), STEER_TIME);
    assert_eq!(car.velocity(), Vec2::new(0, 10_000));
    assert_eq!(*car.heading(), Vec2::new(0, 1000));
}

#[test]
fn half_a_turn_blends_halfway() {
    let mut car = moving_car(10_000, 0, State::Driving);
    car.set_state(State::Turning(Vec2::new(0, 1000)));
    car.animate(7_500);
    assert_eq!(car.interpolation(), 7_500);
    assert_eq!(car.velocity(), Vec2::new(5_000, 5_000));
    assert_eq!(*car.heading(), Vec2::new(707, 707));
}

#[test]
fn turning_at_rest_keeps_the_heading() {
    let mut car = test_car();
    car.set_state(State::Turning(Vec2::new(0, 1000)));
    car.animate(1_000);
    assert_eq!(car.velocity(), Vec2::new(0, 0));
    assert_eq!(*car.heading(), Vec2::new(1000, 0));
    assert_eq!(car.interpolation(), 1_000);
}

#[test]
fn a_tick_of_no_time_changes_nothing() {
    let mut car = moving_car(3_000, 0, State::Driving);
    car.animate(0);
    assert_eq!(car.velocity(), Vec2::new(3_000, 0));
    car.set_state(State::Idle);
    car.animate(0);
    assert_eq!(car.velocity(), Vec2::new(3_000, 0));
}

#[test]
fn speed_never_passes_the_ceiling() {
    let mut car = Car::new_go_kart();
    let states = [
        State::Driving,
        State::Turning(Vec2::new(0, 1000)),
        State::Driving,
        State::Turning(Vec2::new(-600, 800)),
        State::Idle,
        State::Driving,
        State::Parked,
    ];
    for state in states.iter() {
        car.set_state(*state);
        for _ in 0..150 {
            car.animate(230);
            let v = car.velocity();
            assert!(v.x() * v.x() + v.y() * v.y() <= 40_000 * 40_000);
            let h = car.heading();
            let n = h.x() * h.x() + h.y() * h.y();
            assert!(n <= 1_000_000);
            assert!((h.x().abs() + 1) * (h.x().abs() + 1) + (h.y().abs() + 1) * (h.y().abs() + 1) > 1_000_000);
        }
    }
}

#[test]
fn braking_never_reverses() {
    let mut car = moving_car(2000, 0, State::Idle);
    let mut last = 2000;
    for _ in 0..100 {
        car.animate(230);
        let v = car.velocity();
        assert_eq!(v.y(), 0);
        assert!(0 <= v.x() && v.x() <= last);
        assert!(v.x() < last || last == 0);
        last = v.x();
    }
    assert_eq!(last, 0);
}

#[test]
fn speeds_are_rounded_once_where_they_are_read() {
    let mut car = Car::new_mustang();
    car.set_state(State::Driving);
    car.animate(2_000);
    assert_eq!(car.velocity(), Vec2::new(4_444, 0));
    car.set_state(State::Idle);
    car.animate(1_000);
    assert_eq!(car.velocity(), Vec2::new(1_481, 0));
}

#[test]
fn set_state_resets_the_turn() {
    let mut car = moving_car(10_000, 0, State::Driving);
    car.set_state(State::Turning(Vec2::new(0, 1000)));
    car.animate(4_000);
    assert_eq!(car.interpolation(), 4_000);
    car.set_state(State::Turning(Vec2::new(0, 1000)));
    assert_eq!(car.interpolation(), 0);
    car.animate(4_000);
    car.set_state(State::Driving);
    assert_eq!(car.interpolation(), 0);
    car.set_state(State::Idle);
    assert_eq!(car.interpolation(), 0);
    car.set_state(State::Parked);
    assert_eq!(car.interpolation(), 0);
    assert_eq!(car.state(), State::Parked);
}

#[test]
fn the_turn_only_advances_and_ends_at_steer_time() {
    let mut car = moving_car(10_000, 0, State::Driving);
    car.set_state(State::Turning(Vec2::new(0, 1000)));
    let mut last = 0;
    for _ in 0..80 {
        car.animate(230);
        assert!(car.interpolation() >= last);
        assert!(car.interpolation() <= STEER_TIME);
        last = car.interpolation();
    }
    assert_eq!(last, STEER_TIME);
    car.animate(u32::MAX);
    assert_eq!(car.interpolation(), STEER_TIME);
}

#[test]
fn driving_leaves_the_turn_alone() {
    let mut car = test_car();
    car.set_state(State::Driving);
    car.animate(5_000);
    assert_eq!(car.interpolation(), 0);
}

#[test]
fn set_heading_normalizes() {
    let mut car = test_car();
    car.set_heading(&Vec2::new(0, 5));
    assert_eq!(*car.heading(), Vec2::new(0, 1000));
    car.set_heading(&Vec2::new(-3000, 4000));
    assert_eq!(*car.heading(), Vec2::new(-600, 800));
    car.set_heading(&Vec2::new(1, 1));
    assert_eq!(*car.heading(), Vec2::new(707, 707));
    car.set_heading(&Vec2::new(0, 0));
    assert_eq!(*car.heading(), Vec2::new(707, 707));
}

#[test]
fn set_velocity_holds_to_the_ceiling() {
    let mut car = test_car();
    assert!(car.set_velocity(&Vec2::new(30_000, 40_000)));
    assert_eq!(car.velocity(), Vec2::new(30_000, 40_000));
    assert!(!car.set_velocity(&Vec2::new(30_001, 40_000)));
    assert_eq!(car.velocity(), Vec2::new(30_000, 40_000));
    assert!(!car.set_velocity(&Vec2::new(i64::MIN, i64::MAX)));
    assert_eq!(car.velocity(), Vec2::new(30_000, 40_000));
}

#[test]
fn states_with_long_targets_are_not_valid() {
    assert!(State::Idle.is_valid());
    assert!(State::Parked.is_valid());
    assert!(State::Driving.is_valid());
    assert!(State::Turning(Vec2::new(0, 1000)).is_valid());
    assert!(State::Turning(Vec2::new(600, -800)).is_valid());
    assert!(State::Turning(Vec2::new(0, 0)).is_valid());
    assert!(!State::Turning(Vec2::new(0, 2000)).is_valid());
    assert!(!State::Turning(Vec2::new(601, 800)).is_valid());
    assert!(!State::Turning(Vec2::new(i64::MAX, 0)).is_valid());
}

#[test]
fn square_roots_round_down() {
    assert_eq!(isqrt(0), 0);
    assert_eq!(isqrt(1), 1);
    assert_eq!(isqrt(3), 1);
    assert_eq!(isqrt(4), 2);
    assert_eq!(isqrt(99), 9);
    assert_eq!(isqrt(100), 10);
    assert_eq!(isqrt(u64::MAX as u128), 4294967295);
    assert_eq!(isqrt(2_000_000_000_000_000_000_000_000_000_000), 1_414_213_562_373_095);
    assert_eq!(isqrt(u128::MAX), 18446744073709551615);
}

#[test]
fn division_rounds_toward_zero() {
    assert_eq!(div_toward_zero(7, 2), 3);
    assert_eq!(div_toward_zero(-7, 2), -3);
    assert_eq!(div_toward_zero(6, 3), 2);
    assert_eq!(div_toward_zero(-1, 5), 0);
    assert_eq!(div_toward_zero(0, 5), 0);
}

#[test]
fn vector_operations() {
    let v = Vec2::new(3000, -4000);
    assert_eq!(v.norm_sq(), 25_000_000);
    assert_eq!(v.length(), 5000);
    assert_eq!(Vec2::new(1, 1).length(), 1);
    assert_eq!(v.plus(Vec2::new(1, 2)), Vec2::new(3001, -3998));
    assert_eq!(Vec2::new(1000, -1000).scaled(-7, 2000), Vec2::new(-3, 3));
    assert_eq!(v.blend(Vec2::new(0, 0), 1, 4), Vec2::new(2250, -3000));
    assert_eq!(v.direction(), Vec2::new(600, -800));
    assert_eq!(Vec2::zero(), Vec2::new(0, 0));
    assert_eq!(Vec2::unit_x(), Vec2::new(1000, 0));
    assert!(Vec2::zero().is_zero());
    assert!(!v.is_zero());
    assert!(!v.is_at_most_unit());
    assert!(Vec2::new(-600, 800).is_at_most_unit());
}

#[test]
fn a_drive_shows_the_car_frame_by_frame() {
    let mut car = test_car();
    car.set_state(State::Driving);
    let frames = animate_drive(&mut car, 3, 6);
    assert_eq!(frames.len(), 3);
    assert_eq!(frames[0].number, 3);
    assert_eq!(frames[0].velocity, Vec2::new(0, 0));
    assert_eq!(frames[1].number, 4);
    assert_eq!(frames[1].velocity, Vec2::new(46, 0));
    assert_eq!(frames[2].number, 5);
    assert_eq!(frames[2].velocity, Vec2::new(92, 0));
    assert_eq!(frames[2].heading, Vec2::new(1000, 0));
    assert_eq!(car.velocity(), Vec2::new(138, 0));
    assert_eq!(animate_drive(&mut car, 6, 6).len(), 0);
    assert_eq!(animate_drive(&mut car, 9, 2).len(), 0);
    assert_eq!(car.velocity(), Vec2::new(138, 0));
}

#[test]
fn the_test_drive_has_five_legs() {
    let mut car = Car::new_sedan();
    let legs = test_drive(&mut car);
    let labels: Vec<&str> = legs.iter().map(|leg| leg.label).collect();
    assert_eq!(
        labels,
        vec!["acceleration", "braking", "handling", "steering", "final braking"]
    );
    let lengths: Vec<usize> = legs.iter().map(|leg| leg.frames.len()).collect();
    assert_eq!(lengths, vec![99, 100, 20, 80, 30]);
    let mut number = 1;
    for leg in legs.iter() {
        for frame in leg.frames.iter() {
            assert_eq!(frame.number, number);
            number += 1;
            let v = frame.velocity;
            assert!(v.x() * v.x() + v.y() * v.y() <= 75_000 * 75_000);
        }
    }
    assert_eq!(number, 330);
    assert_eq!(legs[0].frames[0].velocity, Vec2::new(0, 0));
    assert_eq!(legs[0].frames[1].velocity, Vec2::new(306, 0));
    assert_eq!(car.state(), State::Parked);
    assert_eq!(*car.heading(), Vec2::new(0, 1000));
}

#[test]
fn short_braking_ticks_bring_the_car_to_rest() {
    let mut car = moving_car(2000, 0, State::Idle);
    let mut last = 2000;
    for tick in 1..=10_000 {
        car.animate(1);
        let v = car.velocity();
        assert_eq!(v.y(), 0);
        assert!(0 <= v.x() && v.x() <= last);
        last = v.x();
        if tick == 1 {
            assert_eq!(v.x(), 1999);
        }
        if tick == 5 {
            assert_eq!(v.x(), 1999);
        }
        if tick == 6 {
            assert_eq!(v.x(), 1998);
        }
        if tick == 5_000 {
            assert_eq!(v.x(), 1000);
        }
    }
    assert_eq!(car.velocity(), Vec2::new(0, 0));
    car.set_state(State::Driving);
    car.animate(1);
    car.animate(1);
    car.animate(1);
    car.animate(1);
    assert_eq!(car.velocity(), Vec2::new(0, 0));
    car.animate(1);
    assert_eq!(car.velocity(), Vec2::new(1, 0));
}

#[test]
fn braking_ticks_of_nine_milliseconds_lose_nothing_to_rounding() {
    let mut car = moving_car(2000, 0, State::Parked);
    for _ in 0..1000 {
        car.animate(9);
    }
    assert_eq!(car.velocity(), Vec2::new(200, 0));
    for _ in 0..111 {
        car.animate(9);
    }
    assert_eq!(car.velocity(), Vec2::new(0, 0));
    car.set_state(State::Driving);
    car.animate(1);
    assert_eq!(car.velocity(), Vec2::new(0, 0));
    car.set_state(State::Idle);
    car.animate(9);
    car.animate(9);
    assert_eq!(car.velocity(), Vec2::new(0, 0));
    car.set_state(State::Driving);
    for _ in 0..5 {
        car.animate(1);
    }
    assert_eq!(car.velocity(), Vec2::new(1, 0));
}

#[test]
fn short_driving_ticks_move_the_car() {
    let mut car = Car::new_pickup_truck();
    car.set_state(State::Driving);
    car.animate(1);
    assert_eq!(car.velocity(), Vec2::new(0, 0));
    car.animate(1);
    assert_eq!(car.velocity(), Vec2::new(1, 0));
    for _ in 0..4 {
        car.animate(1);
    }
    assert_eq!(car.velocity(), Vec2::new(5, 0));
    for _ in 0..1194 {
        car.animate(1);
    }
    assert_eq!(car.velocity(), Vec2::new(1000, 0));
}

#[test]
fn a_capped_speed_is_the_ceiling_along_the_heading() {
    let mut car = test_car();
    car.set_heading(&Vec2::new(3, 4));
    assert_eq!(*car.heading(), Vec2::new(600, 800));
    car.set_state(State::Driving);
    car.animate(2_000_000);
    assert_eq!(car.velocity(), Vec2::new(30_000, 40_000));
    car.set_heading(&Vec2::new(0, -7));
    car.animate(u32::MAX);
    assert_eq!(car.velocity(), Vec2::new(0, -50_000));
}
