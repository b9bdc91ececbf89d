use vstd::prelude::*;

verus! {

/// Forward speed of each motor while the robot is still steering.
pub const BASE_SPEED: i8 = 20;

/// Angle, in degrees, at which the inner wheel of a turn comes to a full stop.
pub const FULL_TURN_ANGLE: i16 = 45;

/// One distance / angle fix received over the serial link.
#[derive(Clone, Copy, Debug, PartialEq, Eq, Structural)]
pub struct TelemetryReading {
    /// Distance to the beacon, in centimetres.
    pub distance: u16,
    /// Bearing of the beacon, in degrees; positive is to the right.
    pub angle: i16,
}

/// Where the robot should end up, and how close counts as arrived.
#[derive(Clone, Copy, Debug, PartialEq, Eq, Structural)]
pub struct SteeringTarget {
    pub target_distance: u16,
    pub target_angle: i16,
    /// Largest bearing error, in degrees, that still counts as on target.
    pub angle_tolerance: u32,
    /// Largest distance error, in percent of `target_distance`, that still counts as on target.
    pub distance_tolerance_percent: u32,
}

/// Speeds for the left and right motors, each in `-100..=100`.
#[derive(Clone, Copy, Debug, PartialEq, Eq, Structural)]
pub struct MotorCommand {
    pub left: i8,
    pub right: i8,
}

pub open spec fn abs(x: int) -> int {
    if x < 0 {
        -x
    } else {
        x
    }
}

/// Speed of the inner wheel of a turn towards `angle`: the base speed scaled by
/// `1 - min(|angle|, 45) / 45`, truncated towards zero.
pub open spec fn inner_wheel_speed(angle: int) -> int {
    let m = if abs(angle) > FULL_TURN_ANGLE { FULL_TURN_ANGLE as int } else { abs(angle) };
    (BASE_SPEED * (FULL_TURN_ANGLE - m)) / (FULL_TURN_ANGLE as int)
}

/// Left and right speeds that steer towards a beacon at bearing `angle`.
pub open spec fn turn_speeds(angle: int) -> (int, int) {
    if angle > 0 {
        (BASE_SPEED as int, inner_wheel_speed(angle))
    } else if angle < 0 {
        (inner_wheel_speed(angle), BASE_SPEED as int)
    } else {
        (BASE_SPEED as int, BASE_SPEED as int)
    }
}

/// Distance error in whole percent of the target distance (100 when the target is 0).
pub open spec fn distance_error_percent(reading: TelemetryReading, target: SteeringTarget) -> int {
    if target.target_distance > 0 {
        (abs(reading.distance - target.target_distance) * 100) / (target.target_distance as int)
    } else {
        100
    }
}

/// The reading lies within both tolerances of the target.
pub open spec fn target_reached(reading: TelemetryReading, target: SteeringTarget) -> bool {
    abs(reading.angle - target.target_angle) <= target.angle_tolerance
        && distance_error_percent(reading, target) <= target.distance_tolerance_percent
}

/// The command issued for a reading: stop on target, otherwise turn towards it.
pub open spec fn decision(reading: TelemetryReading, target: SteeringTarget) -> (int, int) {
    if target_reached(reading, target) {
        (0, 0)
    } else {
        turn_speeds(reading.angle as int)
    }
}

impl MotorCommand {
    /// Both motors at rest.
    pub fn stopped() -> (r: MotorCommand)
        ensures
            r.left == 0 && r.right == 0,
    {
        MotorCommand { left: 0, right: 0 }
    }

    pub fn is_stop(&self) -> (r: bool)
        ensures
            r == (self.left == 0 && self.right == 0),
    {
        self.left == 0 && self.right == 0
    }
}

/// Motor speeds that steer towards a beacon at bearing `angle`: straight on at
/// zero, otherwise the wheel on the side of the beacon slows down in
/// proportion to the bearing, stopping at 45 degrees or more.
pub fn calculate_motor_speeds(angle: i16) -> (r: (i8, i8))
    ensures
        (r.0 as int, r.1 as int) == turn_speeds(angle as int),
        0 <= r.0 <= BASE_SPEED,
        0 <= r.1 <= BASE_SPEED,
{
    let magnitude: i32 = if angle < 0 {
        -(angle as i32)
    } else {
        angle as i32
    };
    let capped: i32 = if magnitude > FULL_TURN_ANGLE as i32 {
        FULL_TURN_ANGLE as i32
    } else {
        magnitude
    };
    let scaled: i32 = BASE_SPEED as i32 * (FULL_TURN_ANGLE as i32 - capped);
    let slowed: i32 = scaled / FULL_TURN_ANGLE as i32;
    assert(0 <= slowed <= 20) by (nonlinear_arith)
        requires
            0 <= capped <= 45,
            scaled == 20 * (45 - capped),
            slowed == scaled / 45,
    ;
    assert(slowed == inner_wheel_speed(angle as int));
    if angle > 0 {
        (BASE_SPEED, slowed as i8)
    } else if angle < 0 {
        (slowed as i8, BASE_SPEED)
    } else {
        (BASE_SPEED, BASE_SPEED)
    }
}

/// Decides the motor command for one reading: a stop once the reading is
/// within both tolerances of the target, otherwise a proportional turn.
pub fn decide(reading: TelemetryReading, target: SteeringTarget) -> (r: MotorCommand)
    ensures
        (r.left as int, r.right as int) == decision(reading, target),
{
    let target_distance: i32 = target.target_distance as i32;
    let distance_gap: i32 = if (reading.distance as i32) < target_distance {
        target_distance - reading.distance as i32
    } else {
        reading.distance as i32 - target_distance
    };
    let distance_percent: i32 = if target_distance > 0 {
        distance_gap * 100 / target_distance
    } else {
        100
    };
    let angle_gap: i32 = if (reading.angle as i32) < target.target_angle as i32 {
        target.target_angle as i32 - reading.angle as i32
    } else {
        reading.angle as i32 - target.target_angle as i32
    };
    assert(distance_percent == distance_error_percent(reading, target));
    if (angle_gap as i64) <= target.angle_tolerance as i64
        && (distance_percent as i64) <= target.distance_tolerance_percent as i64 {
        MotorCommand::stopped()
    } else {
        let (left, right) = calculate_motor_speeds(reading.angle);
        MotorCommand { left, right }
    }
}

/// Deciding is a function of the reading and the target alone: two decisions
/// on the same reading and target give the same command.
pub proof fn lemma_decide_deterministic(
    reading: TelemetryReading,
    target: SteeringTarget,
    first: MotorCommand,
    second: MotorCommand,
)
    requires
        (first.left as int, first.right as int) == decision(reading, target),
        (second.left as int, second.right as int) == decision(reading, target),
    ensures
        first == second,
{
}

} // verus!
