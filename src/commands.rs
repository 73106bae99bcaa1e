use vstd::prelude::*;
use crate::text::{fixed4_text, push_fixed4};

verus! {

/// A line-based command, sent as one text line.
pub enum GrblCommand {
    /// Jog by a g-code motion fragment such as `G21G91X10F500`.
    Jog(String),
    /// Run the homing cycle.
    Home,
    /// Clear an alarm lock.
    Unlock,
}

/// The text line of a command.
pub open spec fn command_text(c: GrblCommand) -> Seq<char> {
    match c {
        GrblCommand::Jog(g) => "$J="@ + g@,
        GrblCommand::Home => "$H"@,
        GrblCommand::Unlock => "$X"@,
    }
}

impl GrblCommand {
    /// The text line that carries this command (without a terminator).
    pub fn to_line(&self) -> (r: String)
        ensures
            r@ == command_text(*self),
    {
        match self {
            GrblCommand::Jog(g) => {
                let mut s = String::from_str("$J=");
                s.append(g.as_str());
                s
            },
            GrblCommand::Home => String::from_str("$H"),
            GrblCommand::Unlock => String::from_str("$X"),
        }
    }
}

/// A realtime command: one control byte, sent without a line terminator.
#[derive(Clone, Copy, Debug, PartialEq, Eq, Structural)]
pub enum RealtimeCommand {
    StatusQuery,
    FeedHold,
    CycleStart,
    SoftReset,
    SafetyDoor,
    JogCancel,
    FeedOverrideReset,
    FeedOverridePlus10,
    FeedOverrideMinus10,
    FeedOverridePlus1,
    FeedOverrideMinus1,
    RapidOverrideReset,
    RapidOverrideHalf,
    RapidOverrideQuarter,
    SpindleOverrideReset,
    SpindleOverridePlus10,
    SpindleOverrideMinus10,
    SpindleOverridePlus1,
    SpindleOverrideMinus1,
}

/// The control byte of each realtime command, as the controller family documents it.
pub open spec fn realtime_byte(c: RealtimeCommand) -> u8 {
    match c {
        RealtimeCommand::StatusQuery => 0x3f,
        RealtimeCommand::FeedHold => 0x21,
        RealtimeCommand::CycleStart => 0x7e,
        RealtimeCommand::SoftReset => 0x18,
        RealtimeCommand::SafetyDoor => 0x84,
        RealtimeCommand::JogCancel => 0x85,
        RealtimeCommand::FeedOverrideReset => 0x90,
        RealtimeCommand::FeedOverridePlus10 => 0x91,
        RealtimeCommand::FeedOverrideMinus10 => 0x92,
        RealtimeCommand::FeedOverridePlus1 => 0x93,
        RealtimeCommand::FeedOverrideMinus1 => 0x94,
        RealtimeCommand::RapidOverrideReset => 0x95,
        RealtimeCommand::RapidOverrideHalf => 0x96,
        RealtimeCommand::RapidOverrideQuarter => 0x97,
        RealtimeCommand::SpindleOverrideReset => 0x99,
        RealtimeCommand::SpindleOverridePlus10 => 0x9a,
        RealtimeCommand::SpindleOverrideMinus10 => 0x9b,
        RealtimeCommand::SpindleOverridePlus1 => 0x9c,
        RealtimeCommand::SpindleOverrideMinus1 => 0x9d,
    }
}

impl RealtimeCommand {
    /// The single control byte of this command.
    pub fn as_byte(&self) -> (b: u8)
        ensures
            b == realtime_byte(*self),
    {
        match self {
            RealtimeCommand::StatusQuery => 0x3f,
            RealtimeCommand::FeedHold => 0x21,
            RealtimeCommand::CycleStart => 0x7e,
            RealtimeCommand::SoftReset => 0x18,
            RealtimeCommand::SafetyDoor => 0x84,
            RealtimeCommand::JogCancel => 0x85,
            RealtimeCommand::FeedOverrideReset => 0x90,
            RealtimeCommand::FeedOverridePlus10 => 0x91,
            RealtimeCommand::FeedOverrideMinus10 => 0x92,
            RealtimeCommand::FeedOverridePlus1 => 0x93,
            RealtimeCommand::FeedOverrideMinus1 => 0x94,
            RealtimeCommand::RapidOverrideReset => 0x95,
            RealtimeCommand::RapidOverrideHalf => 0x96,
            RealtimeCommand::RapidOverrideQuarter => 0x97,
            RealtimeCommand::SpindleOverrideReset => 0x99,
            RealtimeCommand::SpindleOverridePlus10 => 0x9a,
            RealtimeCommand::SpindleOverrideMinus10 => 0x9b,
            RealtimeCommand::SpindleOverridePlus1 => 0x9c,
            RealtimeCommand::SpindleOverrideMinus1 => 0x9d,
        }
    }
}

/// Text of the probe command toward negative Z: `G38.2 Z-<distance> F<feed>`,
/// both values with four fractional digits.
pub open spec fn probe_text(distance: int, feed: int) -> Seq<char> {
    "G38.2 Z-"@ + fixed4_text(distance) + " F"@ + fixed4_text(feed)
}

/// The probe command line for a distance in ten-thousandths of a millimetre and a
/// feed in ten-thousandths of a millimetre per minute.
pub fn probe_z_line(distance: i64, feed: i64) -> (r: String)
    ensures
        r@ == probe_text(distance as int, feed as int),
{
    let mut s = String::from_str("G38.2 Z-");
    push_fixed4(&mut s, distance);
    s.append(" F");
    push_fixed4(&mut s, feed);
    proof {
        assert(s@ =~= probe_text(distance as int, feed as int));
    }
    s
}

} // verus!
