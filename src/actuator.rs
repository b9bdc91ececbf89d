//! Register protocol of the actuator board. Every command is one addressed
//! write per side: a motor write is `[register, MOTOR_MODE, speed]`, an LED
//! write is `[register, red, green, blue]`. A command stops at the first write
//! that the bus refuses.
use vstd::prelude::*;

verus! {

/// Seven-bit bus address of the actuator board.
pub const CUTEBOT_ADDR: u8 = 0x10;

pub const LEFT_MOTOR_REG: u8 = 0x01;

pub const RIGHT_MOTOR_REG: u8 = 0x02;

pub const LEFT_RGB_REG: u8 = 0x03;

pub const RIGHT_RGB_REG: u8 = 0x04;

/// Byte that follows the register in every motor write; the speed comes after it.
pub const MOTOR_MODE: u8 = 2;

/// A byte-oriented bus that can address a write to a device.
pub trait I2cBus {
    type Error;

    /// Sends `bytes` to the device at `address`.
    fn write(&mut self, address: u8, bytes: &[u8]) -> Result<(), Self::Error>;
}

/// A colour, as red, green and blue intensities.
#[derive(Clone, Copy, Debug, PartialEq, Eq, Structural)]
pub struct Rgb(pub u8, pub u8, pub u8);

impl Rgb {
    pub fn red() -> (c: Rgb)
        ensures
            c == Rgb(255, 0, 0),
    {
        Rgb(255, 0, 0)
    }

    pub fn green() -> (c: Rgb)
        ensures
            c == Rgb(0, 255, 0),
    {
        Rgb(0, 255, 0)
    }

    pub fn blue() -> (c: Rgb)
        ensures
            c == Rgb(0, 0, 255),
    {
        Rgb(0, 0, 255)
    }

    pub fn black() -> (c: Rgb)
        ensures
            c == Rgb(0, 0, 0),
    {
        Rgb(0, 0, 0)
    }

    pub fn white() -> (c: Rgb)
        ensures
            c == Rgb(255, 255, 255),
    {
        Rgb(255, 255, 255)
    }
}

/// One write on the bus: the address, the bytes, and whether the bus accepted it.
pub type BusWrite = (u8, Seq<u8>, bool);

/// Encodes a signed motor speed as the unsigned byte that the board expects:
/// the speed shifted up by 100 and saturated into `0..=200`.
pub open spec fn encoded_speed(speed: int) -> int {
    if speed + 100 < 0 {
        0
    } else if speed + 100 > 200 {
        200
    } else {
        speed + 100
    }
}

/// The bytes of a write that sets the motor behind `reg` to `speed`.
pub open spec fn motor_frame(reg: u8, speed: int) -> Seq<u8> {
    seq![reg, MOTOR_MODE, encoded_speed(speed) as u8]
}

/// The bytes of a write that sets the LED behind `reg` to `color`.
pub open spec fn rgb_frame(reg: u8, color: Rgb) -> Seq<u8> {
    seq![reg, color.0, color.1, color.2]
}

/// `after` extends `before` by the write of `first` to the board, followed by
/// the write of `second` only where the first succeeded; `ok` holds exactly
/// when every write made succeeded.
pub open spec fn wrote_pair(
    before: Seq<BusWrite>,
    after: Seq<BusWrite>,
    first: Seq<u8>,
    second: Seq<u8>,
    ok: bool,
) -> bool {
    let n = before.len() as int;
    after.len() >= n + 1 && after.subrange(0, n) == before && after[n].0 == CUTEBOT_ADDR
        && after[n].1 == first && if after[n].2 {
        after.len() == n + 2 && after[n + 1].0 == CUTEBOT_ADDR && after[n + 1].1 == second && ok
            == after[n + 1].2
    } else {
        after.len() == n + 1 && !ok
    }
}

/// Takes an `i16` so that speeds outside `-100..=100` can be handed over and saturate.
pub fn encode_speed(speed: i16) -> (r: u8)
    ensures
        r as int == encoded_speed(speed as int),
{
    let shifted: i32 = speed as i32 + 100;
    if shifted < 0 {
        0
    } else if shifted > 200 {
        200
    } else {
        shifted as u8
    }
}

/// Driver for the motors and LEDs of the actuator board.
pub struct Cutebot<I2C> {
    i2c: I2C,
    sent: Ghost<Seq<BusWrite>>,
}

impl<I2C: I2cBus> Cutebot<I2C> {
    /// Every write that this driver has made, oldest first.
    pub closed spec fn writes(&self) -> Seq<BusWrite> {
        self.sent@
    }

    pub fn new(i2c: I2C) -> (r: Self)
        ensures
            r.writes() == Seq::<BusWrite>::empty(),
    {
        Cutebot { i2c, sent: Ghost(Seq::empty()) }
    }

    fn write_frame(&mut self, frame: &[u8]) -> (r: Result<(), I2C::Error>)
        ensures
            final(self).writes() == old(self).writes().push((CUTEBOT_ADDR, frame@, r is Ok)),
    {
        let r = self.i2c.write(CUTEBOT_ADDR, frame);
        let ghost ok = r is Ok;
        self.sent = Ghost(self.sent@.push((CUTEBOT_ADDR, frame@, ok)));
        r
    }

    /// Sets both motor speeds, left first; speeds beyond `-100..=100` saturate.
    pub fn motors(&mut self, left: i8, right: i8) -> (r: Result<(), I2C::Error>)
        ensures
            wrote_pair(
                old(self).writes(),
                final(self).writes(),
                motor_frame(LEFT_MOTOR_REG, left as int),
                motor_frame(RIGHT_MOTOR_REG, right as int),
                r is Ok,
            ),
    {
        let left_speed = encode_speed(left as i16);
        let right_speed = encode_speed(right as i16);
        let left_frame = [LEFT_MOTOR_REG, MOTOR_MODE, left_speed];
        let right_frame = [RIGHT_MOTOR_REG, MOTOR_MODE, right_speed];
        assert(left_frame@ == motor_frame(LEFT_MOTOR_REG, left as int));
        assert(right_frame@ == motor_frame(RIGHT_MOTOR_REG, right as int));
        self.write_pair(&left_frame, &right_frame)
    }

    fn write_pair(&mut self, first: &[u8], second: &[u8]) -> (r: Result<(), I2C::Error>)
        ensures
            wrote_pair(old(self).writes(), final(self).writes(), first@, second@, r is Ok),
    {
        let ghost before = self.writes();
        match self.write_frame(first) {
            Ok(()) => {},
            Err(e) => {
                assert(self.writes().subrange(0, before.len() as int) =~= before);
                return Err(e);
            },
        }
        let r = self.write_frame(second);
        assert(self.writes().subrange(0, before.len() as int) =~= before);
        r
    }

    /// Stops both motors.
    pub fn stop(&mut self) -> (r: Result<(), I2C::Error>)
        ensures
            wrote_pair(
                old(self).writes(),
                final(self).writes(),
                motor_frame(LEFT_MOTOR_REG, 0),
                motor_frame(RIGHT_MOTOR_REG, 0),
                r is Ok,
            ),
    {
        self.motors(0, 0)
    }

    /// Sets both LEDs, left first.
    pub fn set_rgb(&mut self, left: Rgb, right: Rgb) -> (r: Result<(), I2C::Error>)
        ensures
            wrote_pair(
                old(self).writes(),
                final(self).writes(),
                rgb_frame(LEFT_RGB_REG, left),
                rgb_frame(RIGHT_RGB_REG, right),
                r is Ok,
            ),
    {
        let Rgb(left_r, left_g, left_b) = left;
        let Rgb(right_r, right_g, right_b) = right;
        let left_frame = [LEFT_RGB_REG, left_r, left_g, left_b];
        let right_frame = [RIGHT_RGB_REG, right_r, right_g, right_b];
        assert(left_frame@ == rgb_frame(LEFT_RGB_REG, left));
        assert(right_frame@ == rgb_frame(RIGHT_RGB_REG, right));
        self.write_pair(&left_frame, &right_frame)
    }

    /// Sets the left LED to `color` and turns the right one off.
    pub fn rgb_left(&mut self, color: Rgb) -> (r: Result<(), I2C::Error>)
        ensures
            wrote_pair(
                old(self).writes(),
                final(self).writes(),
                rgb_frame(LEFT_RGB_REG, color),
                rgb_frame(RIGHT_RGB_REG, Rgb(0, 0, 0)),
                r is Ok,
            ),
    {
        self.set_rgb(color, Rgb(0, 0, 0))
    }

    /// Sets the right LED to `color` and turns the left one off.
    pub fn rgb_right(&mut self, color: Rgb) -> (r: Result<(), I2C::Error>)
        ensures
            wrote_pair(
                old(self).writes(),
                final(self).writes(),
                rgb_frame(LEFT_RGB_REG, Rgb(0, 0, 0)),
                rgb_frame(RIGHT_RGB_REG, color),
                r is Ok,
            ),
    {
        self.set_rgb(Rgb(0, 0, 0), color)
    }

    /// Turns both LEDs off.
    pub fn rgb_off(&mut self) -> (r: Result<(), I2C::Error>)
        ensures
            wrote_pair(
                old(self).writes(),
                final(self).writes(),
                rgb_frame(LEFT_RGB_REG, Rgb(0, 0, 0)),
                rgb_frame(RIGHT_RGB_REG, Rgb(0, 0, 0)),
                r is Ok,
            ),
    {
        self.set_rgb(Rgb(0, 0, 0), Rgb(0, 0, 0))
    }
}

} // verus!
