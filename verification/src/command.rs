//! The closed code tables of the protocol: negotiation commands and
//! negotiable options, each a total, bidirectional mapping to its wire byte.

use vstd::prelude::*;

verus! {

/// A two-party negotiation command, carried in the byte after the escape
/// byte of a three-byte negotiation sequence.
#[derive(Clone, Copy, Debug, PartialEq, Eq, Structural)]
pub enum Command {
    Will,
    Wont,
    Do,
    Dont,
    /// A command byte with no symbolic mapping; the byte is kept.
    Unknown(u8),
}

/// A negotiable protocol option, identified on the wire by one byte.
#[derive(Clone, Copy, Debug, PartialEq, Eq, Structural)]
pub enum NegotationOption {
    Echo,
    SuppressGoAhead,
    TerminalType,
    Compress,
    Compress2,
    /// An option byte with no symbolic mapping; the byte is kept.
    Unknown(u8),
}

/// The wire byte of a command.
pub open spec fn spec_command_byte(c: Command) -> u8 {
    match c {
        Command::Will => 0xFB,
        Command::Wont => 0xFC,
        Command::Do => 0xFD,
        Command::Dont => 0xFE,
        Command::Unknown(b) => b,
    }
}

/// The command a wire byte denotes; bytes outside the known set map to
/// `Unknown`, so the mapping is total.
pub open spec fn spec_command_of_byte(b: u8) -> Command {
    if b == 0xFB {
        Command::Will
    } else if b == 0xFC {
        Command::Wont
    } else if b == 0xFD {
        Command::Do
    } else if b == 0xFE {
        Command::Dont
    } else {
        Command::Unknown(b)
    }
}

/// The wire byte of an option.
pub open spec fn spec_option_byte(o: NegotationOption) -> u8 {
    match o {
        NegotationOption::Echo => 0x01,
        NegotationOption::SuppressGoAhead => 0x03,
        NegotationOption::TerminalType => 0x18,
        NegotationOption::Compress => 0x55,
        NegotationOption::Compress2 => 0x56,
        NegotationOption::Unknown(b) => b,
    }
}

/// The option a wire byte denotes; bytes outside the known set map to
/// `Unknown`, so the mapping is total.
pub open spec fn spec_option_of_byte(b: u8) -> NegotationOption {
    if b == 0x01 {
        NegotationOption::Echo
    } else if b == 0x03 {
        NegotationOption::SuppressGoAhead
    } else if b == 0x18 {
        NegotationOption::TerminalType
    } else if b == 0x55 {
        NegotationOption::Compress
    } else if b == 0x56 {
        NegotationOption::Compress2
    } else {
        NegotationOption::Unknown(b)
    }
}

impl From<Command> for u8 {
    fn from(command: Command) -> (r: u8) {
        match command {
            Command::Will => 0xFB,
            Command::Wont => 0xFC,
            Command::Do => 0xFD,
            Command::Dont => 0xFE,
            Command::Unknown(b) => b,
        }
    }
}

impl vstd::std_specs::convert::FromSpecImpl<Command> for u8 {
    open spec fn obeys_from_spec() -> bool {
        true
    }

    open spec fn from_spec(v: Command) -> u8 {
        spec_command_byte(v)
    }
}

impl From<u8> for Command {
    fn from(byte: u8) -> (r: Command) {
        match byte {
            0xFB => Command::Will,
            0xFC => Command::Wont,
            0xFD => Command::Do,
            0xFE => Command::Dont,
            b => Command::Unknown(b),
        }
    }
}

impl vstd::std_specs::convert::FromSpecImpl<u8> for Command {
    open spec fn obeys_from_spec() -> bool {
        true
    }

    open spec fn from_spec(v: u8) -> Command {
        spec_command_of_byte(v)
    }
}

impl From<NegotationOption> for u8 {
    fn from(option: NegotationOption) -> (r: u8) {
        match option {
            NegotationOption::Echo => 0x01,
            NegotationOption::SuppressGoAhead => 0x03,
            NegotationOption::TerminalType => 0x18,
            NegotationOption::Compress => 0x55,
            NegotationOption::Compress2 => 0x56,
            NegotationOption::Unknown(b) => b,
        }
    }
}

impl vstd::std_specs::convert::FromSpecImpl<NegotationOption> for u8 {
    open spec fn obeys_from_spec() -> bool {
        true
    }

    open spec fn from_spec(v: NegotationOption) -> u8 {
        spec_option_byte(v)
    }
}

impl From<u8> for NegotationOption {
    fn from(byte: u8) -> (r: NegotationOption) {
        match byte {
            0x01 => NegotationOption::Echo,
            0x03 => NegotationOption::SuppressGoAhead,
            0x18 => NegotationOption::TerminalType,
            0x55 => NegotationOption::Compress,
            0x56 => NegotationOption::Compress2,
            b => NegotationOption::Unknown(b),
        }
    }
}

impl vstd::std_specs::convert::FromSpecImpl<u8> for NegotationOption {
    open spec fn obeys_from_spec() -> bool {
        true
    }

    open spec fn from_spec(v: u8) -> NegotationOption {
        spec_option_of_byte(v)
    }
}

/// Law: on every known code the byte mappings are inverse to one another,
/// in both directions.
pub proof fn lemma_known_codes_round_trip()
    ensures
        forall|c: Command|
            !(c matches Command::Unknown(_)) ==> spec_command_of_byte(spec_command_byte(c)) == c,
        forall|o: NegotationOption|
            !(o matches NegotationOption::Unknown(_)) ==> spec_option_of_byte(
                spec_option_byte(o),
            ) == o,
{
}

/// Law: a command byte outside the known set maps to the `Unknown` variant
/// carrying that byte, never to a failure.
pub proof fn lemma_unknown_command_byte(b: u8)
    requires
        b != 0xFB,
        b != 0xFC,
        b != 0xFD,
        b != 0xFE,
    ensures
        spec_command_of_byte(b) == Command::Unknown(b),
{
}

/// Law: an option byte outside the known set maps to the `Unknown` variant
/// carrying that byte, never to a failure.
pub proof fn lemma_unknown_option_byte(b: u8)
    requires
        b != 0x01,
        b != 0x03,
        b != 0x18,
        b != 0x55,
        b != 0x56,
    ensures
        spec_option_of_byte(b) == NegotationOption::Unknown(b),
{
}

} // verus!
