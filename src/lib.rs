//! Target-tracking control for a two-motor robot: framing and parsing of
//! distance / angle telemetry, proportional steering, and the register
//! protocol of the I2C actuator board.
pub mod actuator;
pub mod display;
pub mod framer;
pub mod steering;
pub mod telemetry;
pub mod tracker;

pub use actuator::{encode_speed, Cutebot, I2cBus, Rgb};
pub use display::MicrobitMatrix;
pub use framer::LineFramer;
pub use steering::{calculate_motor_speeds, decide, MotorCommand, SteeringTarget, TelemetryReading};
pub use telemetry::parse_distance_angle;
pub use tracker::{handle_line, Tracker};
