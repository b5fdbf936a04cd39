//! Failure kinds of the muxer.

use vstd::prelude::*;

verus! {

/// Why a muxing operation failed.
#[derive(Clone, Copy, Debug, PartialEq, Eq, Structural)]
pub enum MuxError {
    /// A presentation or decode timestamp does not fit in 33 bits.
    ClockOverflow,
    /// A serialised packet is not the wire image that was asked for.
    Framing,
    /// The destination refused bytes that were handed to it.
    Sink,
    /// A setting or an input breaks the rules of the stream: an unusable
    /// packet identifier, a zero frame rate, a frame number that goes back.
    Configuration,
}

/// The step of the pipeline in which a failure was noticed.
#[derive(Clone, Copy, Debug, PartialEq, Eq, Structural)]
pub enum Stage {
    /// Checking the settings of a stream.
    Configure,
    /// Wrapping an access unit in a PES unit.
    Frame,
    /// Cutting a PES unit into transport packets.
    Packetize,
    /// Producing the program tables.
    Tables,
    /// Handing finished packets to the destination.
    Deliver,
}

/// A failure together with the place where it happened.
#[derive(Clone, Copy, Debug, PartialEq, Eq, Structural)]
pub struct StreamError {
    pub error: MuxError,
    pub stage: Stage,
    /// Frame number of the access unit that was being processed.
    pub sequence_number: u64,
}

impl MuxError {
    /// A short, fixed description of the failure kind.
    pub fn describe(&self) -> (text: &'static str)
        ensures
            text@ == match *self {
                MuxError::ClockOverflow => "timestamp exceeds the 33-bit clock range"@,
                MuxError::Framing => "transport packet framing violated"@,
                MuxError::Sink => "destination write failed"@,
                MuxError::Configuration => "invalid stream configuration"@,
            },
    {
        match self {
            MuxError::ClockOverflow => "timestamp exceeds the 33-bit clock range",
            MuxError::Framing => "transport packet framing violated",
            MuxError::Sink => "destination write failed",
            MuxError::Configuration => "invalid stream configuration",
        }
    }
}

impl Stage {
    /// The name of the stage, in lower case.
    pub fn name(&self) -> (text: &'static str)
        ensures
            text@ == match *self {
                Stage::Configure => "configure"@,
                Stage::Frame => "frame"@,
                Stage::Packetize => "packetize"@,
                Stage::Tables => "tables"@,
                Stage::Deliver => "deliver"@,
            },
    {
        match self {
            Stage::Configure => "configure",
            Stage::Frame => "frame",
            Stage::Packetize => "packetize",
            Stage::Tables => "tables",
            Stage::Deliver => "deliver",
        }
    }
}

impl StreamError {
    /// Attaches a stage and a frame number to a failure kind.
    pub fn new(error: MuxError, stage: Stage, sequence_number: u64) -> (r: StreamError)
        ensures
            r == (StreamError { error, stage, sequence_number }),
    {
        StreamError { error, stage, sequence_number }
    }
}

} // verus!
