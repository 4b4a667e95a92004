//! The two header fields that take one of a few fixed values.

use vstd::prelude::*;
use vstd::std_specs::convert::TryFromSpecImpl;

verus! {

/// How many channels the image is declared to hold.
#[derive(Clone, Copy, Debug, PartialEq, Eq, Structural)]
pub enum Channels {
    Rgb,
    Rgba,
}

impl Channels {
    /// The header byte that stands for this channel count: 3 or 4.
    pub open spec fn byte_spec(self) -> u8 {
        match self {
            Channels::Rgb => 3,
            Channels::Rgba => 4,
        }
    }

    /// The channel count that a header byte stands for, if it stands for one.
    pub open spec fn from_byte_spec(value: u8) -> Result<Channels, ()> {
        if value == 3 {
            Ok(Channels::Rgb)
        } else if value == 4 {
            Ok(Channels::Rgba)
        } else {
            Err(())
        }
    }

    /// The header byte that stands for this channel count.
    pub fn byte(self) -> (b: u8)
        ensures
            b == self.byte_spec(),
    {
        match self {
            Channels::Rgb => 3,
            Channels::Rgba => 4,
        }
    }
}

impl TryFrom<u8> for Channels {
    type Error = ();

    /// Reads a channel count from its header byte; any byte but 3 and 4 is refused.
    fn try_from(value: u8) -> (res: Result<Self, Self::Error>) {
        match value {
            3 => Ok(Channels::Rgb),
            4 => Ok(Channels::Rgba),
            _ => Err(()),
        }
    }
}

impl TryFromSpecImpl<u8> for Channels {
    open spec fn obeys_try_from_spec() -> bool {
        true
    }

    open spec fn try_from_spec(value: u8) -> Result<Self, Self::Error> {
        Channels::from_byte_spec(value)
    }
}

/// How the colour channels are to be read.
#[derive(Clone, Copy, Debug, PartialEq, Eq, Structural)]
pub enum Colorspace {
    /// Gamma-encoded colour with linear alpha.
    Standard,
    /// All channels linear.
    Linear,
}

impl Colorspace {
    /// The header byte that stands for this colorspace: 0 or 1.
    pub open spec fn byte_spec(self) -> u8 {
        match self {
            Colorspace::Standard => 0,
            Colorspace::Linear => 1,
        }
    }

    /// The colorspace that a header byte stands for, if it stands for one.
    pub open spec fn from_byte_spec(value: u8) -> Result<Colorspace, ()> {
        if value == 0 {
            Ok(Colorspace::Standard)
        } else if value == 1 {
            Ok(Colorspace::Linear)
        } else {
            Err(())
        }
    }

    /// The header byte that stands for this colorspace.
    pub fn byte(self) -> (b: u8)
        ensures
            b == self.byte_spec(),
    {
        match self {
            Colorspace::Standard => 0,
            Colorspace::Linear => 1,
        }
    }
}

impl TryFrom<u8> for Colorspace {
    type Error = ();

    /// Reads a colorspace from its header byte; any byte but 0 and 1 is refused.
    fn try_from(value: u8) -> (res: Result<Self, Self::Error>) {
        match value {
            0 => Ok(Colorspace::Standard),
            1 => Ok(Colorspace::Linear),
            _ => Err(()),
        }
    }
}

impl TryFromSpecImpl<u8> for Colorspace {
    open spec fn obeys_try_from_spec() -> bool {
        true
    }

    open spec fn try_from_spec(value: u8) -> Result<Self, Self::Error> {
        Colorspace::from_byte_spec(value)
    }
}

/// Reading back the byte of a channel count or of a colorspace gives the value
/// it was written from.
pub proof fn lemma_bytes_read_back(channels: Channels, colorspace: Colorspace)
    ensures
        Channels::from_byte_spec(channels.byte_spec()) == Ok::<Channels, ()>(channels),
        Colorspace::from_byte_spec(colorspace.byte_spec()) == Ok::<Colorspace, ()>(colorspace),
{
}

} // verus!
