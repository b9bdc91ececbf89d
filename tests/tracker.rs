use microbit_cutebot::{handle_line, MicrobitMatrix, MotorCommand, SteeringTarget, Tracker};

fn target() -> SteeringTarget {
    SteeringTarget { target_distance: 150, target_angle: 0, angle_tolerance: 2, distance_tolerance_percent: 10 }
}

#[test]
fn bytes_to_commands() {
    let mut t = Tracker::new(target());
    let mut out = Vec::new();
    for &b in b"D: 150, A: 0\nD: 150, A: 45\nnoise\nD: 150, A: -22\n" {
        if let Some(c) = t.on_byte(b) {
            out.push(c);
        }
    }
    assert_eq!(
        out,
        vec![
            MotorCommand { left: 0, right: 0 },
            MotorCommand { left: 20, right: 0 },
            MotorCommand { left: 10, right: 20 },
        ]
    );
}

#[test]
fn invalid_utf8_line_is_dropped() {
    assert_eq!(handle_line(&[b'D', b':', b' ', 0xff, b'\n'], target()), None);
    assert_eq!(handle_line(b"D: 150, A: 45", target()), Some(MotorCommand { left: 20, right: 0 }));
}

#[test]
fn matrix_coordinates_are_identity() {
    assert_eq!(MicrobitMatrix::image_coordinates(3, 4), Some((3, 4)));
}
