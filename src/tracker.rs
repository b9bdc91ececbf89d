use vstd::prelude::*;
use vstd::string::StringSliceAdditionalSpecFns;
use vstd::utf8::{decode_utf8, encode_utf8_decode_utf8, valid_utf8};

use crate::framer::{frame_step, LineFramer};
use crate::steering::{decide, decision, MotorCommand, SteeringTarget, TelemetryReading};
use crate::telemetry::{parse_distance_angle, parse_spec};

verus! {

/// The command for one completed line: none unless the line is UTF-8 text
/// that holds a reading, else the decision for that reading.
pub open spec fn line_command(line: Seq<u8>, target: SteeringTarget) -> Option<(int, int)> {
    if valid_utf8(line) {
        match parse_spec(decode_utf8(line)) {
            Some((distance, angle)) => Some(
                decision(TelemetryReading { distance, angle }, target),
            ),
            None => None,
        }
    } else {
        None
    }
}

pub open spec fn command_matches(r: Option<MotorCommand>, expected: Option<(int, int)>) -> bool {
    match r {
        Some(c) => expected == Some((c.left as int, c.right as int)),
        None => expected is None,
    }
}

/// Relies on `core::str::from_utf8`: it accepts exactly the valid UTF-8 byte
/// sequences and returns the text whose encoding they are.
#[verifier::external_body]
fn utf8_text<'a>(bytes: &'a [u8]) -> (r: Option<&'a str>)
    ensures
        r is Some <==> valid_utf8(bytes@),
        r matches Some(s) ==> s.spec_bytes() == bytes@,
{
    core::str::from_utf8(bytes).ok()
}

/// The motor command for one completed line, if it holds a reading.
pub fn handle_line(line: &[u8], target: SteeringTarget) -> (r: Option<MotorCommand>)
    ensures
        command_matches(r, line_command(line@, target)),
{
    let text = match utf8_text(line) {
        Some(t) => t,
        None => return None,
    };
    proof {
        encode_utf8_decode_utf8(text@);
    }
    match parse_distance_angle(text) {
        Some((distance, angle)) => Some(decide(TelemetryReading { distance, angle }, target)),
        None => None,
    }
}

/// The control loop's state: the line under way and the fixed target.
pub struct Tracker {
    framer: LineFramer,
    target: SteeringTarget,
}

impl Tracker {
    pub closed spec fn wf(&self) -> bool {
        self.framer.wf()
    }

    /// Bytes of the line under way.
    pub closed spec fn pending(&self) -> Seq<u8> {
        self.framer@
    }

    pub closed spec fn target(&self) -> SteeringTarget {
        self.target
    }

    pub fn new(target: SteeringTarget) -> (r: Tracker)
        ensures
            r.wf(),
            r.pending() == Seq::<u8>::empty(),
            r.target() == target,
    {
        Tracker { framer: LineFramer::new(), target }
    }

    /// Takes one byte from the serial link; returns the motor command when
    /// the byte completes a line that holds a reading.
    pub fn on_byte(&mut self, byte: u8) -> (r: Option<MotorCommand>)
        requires
            old(self).wf(),
        ensures
            final(self).wf(),
            final(self).target() == old(self).target(),
            final(self).pending() == frame_step(old(self).pending(), byte).0,
            match frame_step(old(self).pending(), byte).1 {
                Some(line) => command_matches(r, line_command(line, old(self).target())),
                None => r is None,
            },
    {
        match self.framer.feed(byte) {
            Some(line) => handle_line(line.as_slice(), self.target),
            None => None,
        }
    }
}

} // verus!
