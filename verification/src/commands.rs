//! Configuration types for the system's modes of operation.
//!
//! These carry the choices the command line hands the components:
//! training mode, broker filtering, continuous-controller shaping, and
//! the hardware test selection. Quantities the components compute with
//! are plain integers here; the command-line front-end converts where a
//! flag arrives in other units.

use vstd::prelude::*;
use vstd::string::StringExecFns;

use crate::guier::{decimal_string, spec_digits};

verus! {

/// The update rule used for offline training.
#[derive(Clone, Copy, PartialEq, Eq, Structural, Debug)]
pub enum TrainMode {
    /// Pseudo-inverse readout fit.
    Inv,
    /// Mean-squared-error gradient descent.
    Grad,
}

impl TrainMode {
    /// The rendered name of the mode.
    pub open spec fn spec_label(self) -> Seq<char> {
        match self {
            TrainMode::Inv => "pseudo inverse"@,
            TrainMode::Grad => "MSE gradient descent"@,
        }
    }

    /// Render the mode's name.
    pub fn label(&self) -> (r: String)
        ensures
            r@ == self.spec_label(),
    {
        match self {
            TrainMode::Inv => "pseudo inverse".to_owned(),
            TrainMode::Grad => "MSE gradient descent".to_owned(),
        }
    }
}

/// Arguments of the continuous-controller output mode.
#[derive(Clone, Copy, PartialEq, Eq, Structural, Debug)]
pub struct CCArgs {
    /// The midi controller number to adjust.
    pub cc: u8,
    /// The one-based midi channel to output on.
    pub channel: u8,
    /// The width of the adjustment; at least one.
    pub width: u8,
    /// Offset value around which the output evolves.
    pub offset: u8,
    /// Whether the running range is floored at zero.
    pub non_negative: bool,
}

impl CCArgs {
    /// The width is positive and the span stays inside a controller
    /// value.
    pub open spec fn wf(self) -> bool {
        &&& self.width >= 1
        &&& self.width + self.offset <= 255
    }
}

/// Arguments of the terminal front-end.
#[derive(Clone, Copy, PartialEq, Eq, Structural, Debug)]
pub struct TuiArgs {}

/// Arguments of the robot hardware tests.
pub struct RobotArgs {
    /// The test to run.
    pub command: RobotCommand,
}

/// Which robot hardware test to run.
#[derive(Clone, Copy, PartialEq, Eq, Structural, Debug)]
pub enum RobotCommand {
    /// Sweep the inter-beat time down and record responses.
    Sweep,
    /// Try each waveform and record responses.
    WaveType,
}

/// How the broker groups incoming notes.
#[derive(Clone, Copy, PartialEq, Eq, Structural, Debug)]
pub enum BrokerMode {
    /// Forward single notes.
    Single,
    /// Detect and forward chords.
    Chord,
}

/// Arguments of the MIDI broker.
pub struct MidiBrokerArgs {
    /// The port on which midi messages are published.
    pub port: u16,
    /// The mode to operate in.
    pub mode: BrokerMode,
    /// The number of notes that make up a chord.
    pub chord_size: usize,
    /// The one-based channel to filter inputs on, if any.
    pub channel: Option<u8>,
    /// The device to listen on, if any.
    pub device: Option<String>,
}

impl MidiBrokerArgs {
    /// The rendered channel filter: the channel number, or all channels.
    pub open spec fn spec_channel_str(self) -> Seq<char> {
        match self.channel {
            Some(c) => "channel "@ + spec_digits(c as int),
            None => "all channels"@,
        }
    }

    /// Render the channel filter.
    pub fn channel_str(&self) -> (r: String)
        ensures
            r@ == self.spec_channel_str(),
    {
        match &self.channel {
            Some(c) => {
                let a = "channel ".to_owned();
                let b = a.concat(decimal_string(*c as u64).as_str());
                proof {
                    assert(b@ =~= self.spec_channel_str());
                }
                b
            },
            None => "all channels".to_owned(),
        }
    }

    /// The rendered mode: single notes, or chords with their size.
    pub open spec fn spec_mode_str(self) -> Seq<char> {
        match self.mode {
            BrokerMode::Single => "single notes"@,
            BrokerMode::Chord => "chords of size "@ + spec_digits(self.chord_size as int),
        }
    }

    /// Render the mode.
    pub fn mode_str(&self) -> (r: String)
        ensures
            r@ == self.spec_mode_str(),
    {
        match self.mode {
            BrokerMode::Single => "single notes".to_owned(),
            BrokerMode::Chord => {
                let a = "chords of size ".to_owned();
                let b = a.concat(decimal_string(self.chord_size as u64).as_str());
                proof {
                    assert(b@ =~= self.spec_mode_str());
                }
                b
            },
        }
    }
}

} // verus!
