use microbit_cutebot::{encode_speed, Cutebot, I2cBus, Rgb};

struct Recorder {
    writes: Vec<(u8, Vec<u8>)>,
    fail_at: Option<usize>,
}

impl Recorder {
    fn new() -> Recorder {
        Recorder { writes: Vec::new(), fail_at: None }
    }
}

impl I2cBus for &mut Recorder {
    type Error = ();

    fn write(&mut self, address: u8, bytes: &[u8]) -> Result<(), ()> {
        let n = self.writes.len();
        self.writes.push((address, bytes.to_vec()));
        if self.fail_at == Some(n) {
            Err(())
        } else {
            Ok(())
        }
    }
}

#[test]
fn motor_speeds_are_encoded() {
    let mut rec = Recorder::new();
    {
        let mut bot = Cutebot::new(&mut rec);
        assert_eq!(bot.motors(-100, 100), Ok(()));
    }
    assert_eq!(rec.writes, vec![(0x10, vec![1, 2, 0]), (0x10, vec![2, 2, 200])]);
}

#[test]
fn speeds_saturate() {
    assert_eq!(encode_speed(150), 200);
    assert_eq!(encode_speed(-150), 0);
    assert_eq!(encode_speed(0), 100);
    assert_eq!(encode_speed(-37), 63);
    let mut rec = Recorder::new();
    {
        let mut bot = Cutebot::new(&mut rec);
        assert_eq!(bot.motors(127, -128), Ok(()));
    }
    assert_eq!(rec.writes, vec![(0x10, vec![1, 2, 200]), (0x10, vec![2, 2, 0])]);
}

#[test]
fn stop_writes_zero_speed() {
    let mut rec = Recorder::new();
    {
        let mut bot = Cutebot::new(&mut rec);
        assert_eq!(bot.stop(), Ok(()));
    }
    assert_eq!(rec.writes, vec![(0x10, vec![1, 2, 100]), (0x10, vec![2, 2, 100])]);
}

#[test]
fn first_failure_skips_the_rest() {
    let mut rec = Recorder::new();
    rec.fail_at = Some(0);
    {
        let mut bot = Cutebot::new(&mut rec);
        assert_eq!(bot.motors(10, 10), Err(()));
    }
    assert_eq!(rec.writes, vec![(0x10, vec![1, 2, 110])]);
}

#[test]
fn second_failure_is_reported() {
    let mut rec = Recorder::new();
    rec.fail_at = Some(1);
    {
        let mut bot = Cutebot::new(&mut rec);
        assert_eq!(bot.set_rgb(Rgb(1, 2, 3), Rgb(4, 5, 6)), Err(()));
    }
    assert_eq!(rec.writes, vec![(0x10, vec![3, 1, 2, 3]), (0x10, vec![4, 4, 5, 6])]);
}

#[test]
fn led_helpers() {
    let mut rec = Recorder::new();
    {
        let mut bot = Cutebot::new(&mut rec);
        assert_eq!(bot.rgb_left(Rgb::red()), Ok(()));
        assert_eq!(bot.rgb_right(Rgb::blue()), Ok(()));
        assert_eq!(bot.rgb_off(), Ok(()));
    }
    assert_eq!(
        rec.writes,
        vec![
            (0x10, vec![3, 255, 0, 0]),
            (0x10, vec![4, 0, 0, 0]),
            (0x10, vec![3, 0, 0, 0]),
            (0x10, vec![4, 0, 0, 255]),
            (0x10, vec![3, 0, 0, 0]),
            (0x10, vec![4, 0, 0, 0]),
        ]
    );
}
