use microbit_cutebot::{calculate_motor_speeds, decide, MotorCommand, SteeringTarget, TelemetryReading};

fn target() -> SteeringTarget {
    SteeringTarget { target_distance: 150, target_angle: 0, angle_tolerance: 2, distance_tolerance_percent: 10 }
}

fn reading(distance: u16, angle: i16) -> TelemetryReading {
    TelemetryReading { distance, angle }
}

#[test]
fn on_target_stops() {
    let c = decide(reading(150, 0), target());
    assert_eq!(c, MotorCommand { left: 0, right: 0 });
    assert!(c.is_stop());
}

#[test]
fn full_turn_right_at_45() {
    assert_eq!(decide(reading(150, 45), target()), MotorCommand { left: 20, right: 0 });
}

#[test]
fn partial_turn_right_at_22() {
    // 20 * (1 - 22/45) = 10.22..., truncated
    assert_eq!(decide(reading(150, 22), target()), MotorCommand { left: 20, right: 10 });
}

#[test]
fn partial_turn_left_at_minus_9() {
    // 20 * (1 - 9/45) = 16
    assert_eq!(decide(reading(150, -9), target()), MotorCommand { left: 16, right: 20 });
}

#[test]
fn beyond_45_degrees_saturates() {
    assert_eq!(calculate_motor_speeds(90), (20, 0));
    assert_eq!(calculate_motor_speeds(-180), (0, 20));
    assert_eq!(calculate_motor_speeds(i16::MIN), (0, 20));
    assert_eq!(calculate_motor_speeds(i16::MAX), (20, 0));
}

#[test]
fn straight_ahead_when_angle_zero_but_far() {
    assert_eq!(decide(reading(400, 0), target()), MotorCommand { left: 20, right: 20 });
}

#[test]
fn tolerance_edges() {
    // angle error of exactly 2 and distance error of exactly 10 % still stop
    assert!(decide(reading(165, 2), target()).is_stop());
    assert!(decide(reading(135, -2), target()).is_stop());
    // one degree more is a turn: 20 * (1 - 3/45) = 18.66..., truncated
    assert_eq!(decide(reading(150, 3), target()), MotorCommand { left: 20, right: 18 });
    // 166 is 10.66 %, truncated to 10 %, still on target
    assert!(decide(reading(166, 0), target()).is_stop());
    // 167 is 11.33 %, truncated to 11 %: drive on
    assert_eq!(decide(reading(167, 0), target()), MotorCommand { left: 20, right: 20 });
}

#[test]
fn zero_target_distance_counts_as_full_error() {
    let t = SteeringTarget { target_distance: 0, target_angle: 0, angle_tolerance: 2, distance_tolerance_percent: 99 };
    assert_eq!(decide(reading(0, 0), t), MotorCommand { left: 20, right: 20 });
    let t = SteeringTarget { target_distance: 0, target_angle: 0, angle_tolerance: 2, distance_tolerance_percent: 100 };
    assert!(decide(reading(0, 0), t).is_stop());
}

#[test]
fn decide_is_deterministic() {
    let a = decide(reading(123, -17), target());
    let b = decide(reading(123, -17), target());
    assert_eq!(a, b);
}
