//! What is fixed at startup: the configuration and the choice of the input
//! source.

use vstd::prelude::*;

verus! {

/// The port OSC is sent to unless another is asked for.
pub const DEFAULT_OSC_PORT: u16 = 9000;

/// Whether values are normalized unless asked otherwise.
pub const DEFAULT_NORMALIZE: bool = true;

/// The configuration of a run. It is read once and never changes.
#[derive(Debug, Clone, Copy, PartialEq, Eq)]
pub struct Config {
    /// The port OSC is sent to.
    pub osc_port: u16,
    /// The index of the input source to open, if one was asked for.
    pub input_index: Option<usize>,
    /// Whether values are published as fractions of full scale.
    pub normalize: bool,
}

impl Config {
    /// The configuration for the options that were given: every option that
    /// is missing takes its default.
    pub fn resolve(
        osc_port: Option<u16>,
        input_index: Option<usize>,
        normalize: Option<bool>,
    ) -> (config: Config)
        ensures
            config.osc_port == match osc_port {
                Some(port) => port,
                None => DEFAULT_OSC_PORT,
            },
            config.input_index == input_index,
            config.normalize == match normalize {
                Some(flag) => flag,
                None => DEFAULT_NORMALIZE,
            },
    {
        let osc_port = match osc_port {
            Some(port) => port,
            None => DEFAULT_OSC_PORT,
        };
        let normalize = match normalize {
            Some(flag) => flag,
            None => DEFAULT_NORMALIZE,
        };
        Config { osc_port, input_index, normalize }
    }
}

/// Why a run cannot start.
#[derive(Debug, Clone, Copy, PartialEq, Eq, Structural)]
pub enum StartupError {
    /// There is no input source at all.
    NoInputPort,
    /// The index that was asked for names no input source.
    InvalidInputIndex,
    /// The index that was typed in names no input source.
    InvalidPortSelected,
}

impl StartupError {
    /// The text shown to the user.
    pub fn message(&self) -> (text: String)
        ensures
            text@ == match *self {
                StartupError::NoInputPort => "no input port found"@,
                StartupError::InvalidInputIndex => "invalid input index"@,
                StartupError::InvalidPortSelected => "invalid input port selected"@,
            },
    {
        match self {
            StartupError::NoInputPort => String::from_str("no input port found"),
            StartupError::InvalidInputIndex => String::from_str("invalid input index"),
            StartupError::InvalidPortSelected => String::from_str("invalid input port selected"),
        }
    }
}

/// How the input source is arrived at.
#[derive(Debug, Clone, Copy, PartialEq, Eq, Structural)]
pub enum PortChoice {
    /// Open the source at this index.
    Use(usize),
    /// Several sources are there and none was asked for: the user picks.
    Ask,
}

/// The choice among `available` input sources when `requested` was asked
/// for. Without any source nothing can start. An index that was asked for
/// must name a source. Without one, a single source is taken as it is, and
/// among several the user is asked.
pub open spec fn port_choice(available: nat, requested: Option<usize>) -> Result<
    PortChoice,
    StartupError,
> {
    if available == 0 {
        Err(StartupError::NoInputPort)
    } else {
        match requested {
            Some(index) => if index < available {
                Ok(PortChoice::Use(index))
            } else {
                Err(StartupError::InvalidInputIndex)
            },
            None => if available == 1 {
                Ok(PortChoice::Use(0))
            } else {
                Ok(PortChoice::Ask)
            },
        }
    }
}

/// Decides which input source to open, or that the user has to be asked.
pub fn choose_port(available: usize, requested: Option<usize>) -> (choice: Result<
    PortChoice,
    StartupError,
>)
    ensures
        choice == port_choice(available as nat, requested),
        choice matches Ok(PortChoice::Use(index)) ==> index < available,
{
    if available == 0 {
        return Err(StartupError::NoInputPort);
    }
    match requested {
        Some(index) => {
            if index < available {
                Ok(PortChoice::Use(index))
            } else {
                Err(StartupError::InvalidInputIndex)
            }
        },
        None => {
            if available == 1 {
                Ok(PortChoice::Use(0))
            } else {
                Ok(PortChoice::Ask)
            }
        },
    }
}

/// Accepts the index the user typed in if it names one of the `available`
/// input sources.
pub fn confirm_port(available: usize, answer: usize) -> (index: Result<usize, StartupError>)
    ensures
        index == if answer < available {
            Ok::<usize, StartupError>(answer)
        } else {
            Err::<usize, StartupError>(StartupError::InvalidPortSelected)
        },
{
    if answer < available {
        Ok(answer)
    } else {
        Err(StartupError::InvalidPortSelected)
    }
}

} // verus!
