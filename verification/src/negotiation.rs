//! The subnegotiation codec: decoding the unescaped payload of an
//! `IAC SB ... IAC SE` block into a typed value, and the inverse encoding.
//! Only the terminal-type option has a codec; every value of the type is
//! encodable, and "could not interpret" is the caller's
//! `UnknownSubnegotiation` frame, never a value of this type.

use vstd::prelude::*;
use vstd::string::StrSliceExecFns;
use vstd::utf8::encode_utf8;
use crate::command::{NegotationOption, spec_option_byte};

verus! {

/// The mathematical image of a decoded subnegotiation value.
#[verifier::ext_equal]
pub enum SubnegotiationView {
    /// A terminal name reported by the peer, as characters.
    TerminalType(Seq<char>),
    /// The request that the peer send its terminal name.
    TerminalTypeSend,
}

/// A decoded subnegotiation value for the options this library models.
#[derive(Debug, PartialEq, Eq)]
pub enum SubnegotiationOption {
    /// A terminal name reported by the peer ("IS"), case preserved and
    /// decoded permissively when the bytes are not valid text.
    TerminalType(String),
    /// The request that the peer send its terminal name ("SEND").
    TerminalTypeSend,
}

impl View for SubnegotiationOption {
    type V = SubnegotiationView;

    open spec fn view(&self) -> SubnegotiationView {
        match self {
            SubnegotiationOption::TerminalType(d) => SubnegotiationView::TerminalType(d@),
            SubnegotiationOption::TerminalTypeSend => SubnegotiationView::TerminalTypeSend,
        }
    }
}

/// The characters that a permissive text decoding of these bytes yields:
/// valid sequences kept, invalid ones replaced.
pub uninterp spec fn utf8_lossy(bytes: Seq<u8>) -> Seq<char>;

/// Relies on String::from_utf8_lossy: the characters depend on the bytes
/// alone, with every invalid sequence replaced rather than failing.
#[verifier::external_body]
fn utf8_lossy_string(bytes: &Vec<u8>) -> (r: String)
    ensures
        r@ == utf8_lossy(bytes@),
{
    String::from_utf8_lossy(bytes).into_owned()
}

/// What decoding an unescaped payload yields for a given option: `None`
/// means the combination is not interpretable, never a failure.
pub open spec fn spec_subneg_parse(option: NegotationOption, payload: Seq<u8>) -> Option<
    SubnegotiationView,
> {
    if option == NegotationOption::TerminalType {
        spec_terminal_type(payload)
    } else {
        None
    }
}

/// What decoding a terminal-type payload yields: byte 0 selects "IS"
/// (the rest is the name) or "SEND"; anything else, or an empty payload,
/// is not interpretable.
pub open spec fn spec_terminal_type(payload: Seq<u8>) -> Option<SubnegotiationView> {
    if payload.len() == 0 {
        None
    } else if payload[0] == 0x00 {
        Some(SubnegotiationView::TerminalType(utf8_lossy(payload.skip(1))))
    } else if payload[0] == 0x01 {
        Some(SubnegotiationView::TerminalTypeSend)
    } else {
        None
    }
}

/// The option-specific bytes a subnegotiation value encodes to: the option
/// code, the selector byte, and for "IS" the name's bytes.
pub open spec fn spec_subneg_encode(v: SubnegotiationView) -> Seq<u8> {
    match v {
        SubnegotiationView::TerminalType(name) => seq![
            spec_option_byte(NegotationOption::TerminalType),
            0x00u8,
        ] + encode_utf8(name),
        SubnegotiationView::TerminalTypeSend => seq![
            spec_option_byte(NegotationOption::TerminalType),
            0x01u8,
        ],
    }
}

impl SubnegotiationOption {
    /// Decode the unescaped payload of a subnegotiation for the given
    /// option; `None` exactly when the codec does not interpret the
    /// combination.
    pub fn parse(option: NegotationOption, contents: &Vec<u8>) -> (r: Option<SubnegotiationOption>)
        ensures
            match spec_subneg_parse(option, contents@) {
                Some(v) => r matches Some(s) && s@ == v,
                None => r is None,
            },
    {
        match option {
            NegotationOption::TerminalType => parse_terminal_type(contents),
            _ => None,
        }
    }

    /// Encode this value as the option-specific part of a subnegotiation
    /// block; total, since every value of the type has an encoding.
    pub fn encode(&self) -> (r: Vec<u8>)
        ensures
            r@ == spec_subneg_encode(self@),
    {
        match self {
            SubnegotiationOption::TerminalType(description) => {
                let mut out: Vec<u8> = Vec::new();
                out.push(0x18);
                out.push(0x00);
                let name_bytes = description.as_str().as_bytes_vec();
                let mut i: usize = 0;
                while i < name_bytes.len()
                    invariant
                        i <= name_bytes@.len(),
                        out@ == seq![0x18u8, 0x00u8] + name_bytes@.take(i as int),
                    decreases name_bytes@.len() - i,
                {
                    let b = name_bytes[i];
                    proof {
                        assert((seq![0x18u8, 0x00u8] + name_bytes@.take(i as int)).push(b) =~= seq![
                            0x18u8,
                            0x00u8,
                        ] + name_bytes@.take(i as int + 1));
                    }
                    out.push(b);
                    i += 1;
                }
                proof {
                    assert(name_bytes@.take(name_bytes@.len() as int) =~= name_bytes@);
                }
                out
            },
            SubnegotiationOption::TerminalTypeSend => {
                let mut out: Vec<u8> = Vec::new();
                out.push(0x18);
                out.push(0x01);
                proof {
                    assert(out@ =~= seq![0x18u8, 0x01u8]);
                }
                out
            },
        }
    }
}

/// Decode a terminal-type payload: `0x00` selects "IS" with the remaining
/// bytes as the name, `0x01` selects "SEND"; `None` otherwise.
pub fn parse_terminal_type(contents: &Vec<u8>) -> (r: Option<SubnegotiationOption>)
    ensures
        match spec_terminal_type(contents@) {
            Some(v) => r matches Some(s) && s@ == v,
            None => r is None,
        },
{
    if contents.len() == 0 {
        return None;
    }
    let b0 = contents[0];
    if b0 == 0x00 {
        let mut name_bytes: Vec<u8> = Vec::new();
        let mut i: usize = 1;
        while i < contents.len()
            invariant
                1 <= i <= contents@.len(),
                name_bytes@ == contents@.subrange(1, i as int),
            decreases contents@.len() - i,
        {
            let b = contents[i];
            proof {
                assert(contents@.subrange(1, i as int).push(b) =~= contents@.subrange(
                    1,
                    i as int + 1,
                ));
            }
            name_bytes.push(b);
            i += 1;
        }
        proof {
            assert(name_bytes@ =~= contents@.skip(1));
        }
        let description = utf8_lossy_string(&name_bytes);
        Some(SubnegotiationOption::TerminalType(description))
    } else if b0 == 0x01 {
        Some(SubnegotiationOption::TerminalTypeSend)
    } else {
        None
    }
}

} // verus!
