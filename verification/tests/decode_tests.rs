use bytes::BytesMut;

use telnet_codec::command::{Command, NegotationOption};
use telnet_codec::frame::{encode_negotiation, encode_subnegotiation, parse, Frame};
use telnet_codec::negotiation::SubnegotiationOption;

#[test]
fn content_without_escape_drains_buffer() {
    let mut buffer = BytesMut::from(&b"plain bytes \x00\x01\x7F"[..]);
    assert_eq!(
        parse(&mut buffer),
        Some(Frame::Content(b"plain bytes \x00\x01\x7F".to_vec()))
    );
    assert!(buffer.is_empty());
}

#[test]
fn empty_buffer_is_incomplete() {
    let mut buffer = BytesMut::new();
    assert_eq!(parse(&mut buffer), None);
    assert!(buffer.is_empty());
}

#[test]
fn doubled_escape_drains_two_bytes() {
    let mut buffer = BytesMut::from(&b"\xFF\xFF"[..]);
    assert_eq!(parse(&mut buffer), Some(Frame::Content(vec![0xFF])));
    assert!(buffer.is_empty());
}

#[test]
fn subnegotiation_drains_buffer() {
    let mut buffer = BytesMut::from(&b"\xFF\xFA\x18\x00Hello World!\xFF\xF0"[..]);
    assert_eq!(
        parse(&mut buffer),
        Some(Frame::Subnegotiation(SubnegotiationOption::TerminalType(
            "Hello World!".to_string()
        )))
    );
    assert!(buffer.is_empty());
}

#[test]
fn lone_escape_waits_for_more() {
    let mut buffer = BytesMut::from(&b"\xFF"[..]);
    assert_eq!(parse(&mut buffer), None);
    assert_eq!(buffer, BytesMut::from(&b"\xFF"[..]));
}

#[test]
fn incomplete_negotiation_waits_for_more() {
    let mut buffer = BytesMut::from(&b"\xFF\xFB"[..]);
    assert_eq!(parse(&mut buffer), None);
    assert_eq!(buffer, BytesMut::from(&b"\xFF\xFB"[..]));
}

#[test]
fn unterminated_subnegotiation_waits_for_more() {
    let mut buffer = BytesMut::from(&b"\xFF\xFA\x18\x00term"[..]);
    assert_eq!(parse(&mut buffer), None);
    assert_eq!(buffer, BytesMut::from(&b"\xFF\xFA\x18\x00term"[..]));
}

#[test]
fn unmapped_command_byte_drops_escape_byte() {
    let mut buffer = BytesMut::from(&b"\xFF\x01\x41"[..]);
    assert_eq!(parse(&mut buffer), None);
    assert_eq!(buffer, BytesMut::from(&b"\x01\x41"[..]));
    assert_eq!(parse(&mut buffer), Some(Frame::Content(vec![0x01, 0x41])));
    assert!(buffer.is_empty());
}

#[test]
fn fragmented_negotiation_yields_same_frame() {
    let whole = encode_negotiation(Command::Will, NegotationOption::Compress);
    let mut buffer = BytesMut::from(&whole[..2]);
    assert_eq!(parse(&mut buffer), None);
    assert_eq!(buffer.len(), 2);
    buffer.extend_from_slice(&whole[2..]);
    assert_eq!(
        parse(&mut buffer),
        Some(Frame::Negotiation(
            Command::Will,
            NegotationOption::Compress
        ))
    );
    assert!(buffer.is_empty());
}

#[test]
fn fragmented_subnegotiation_yields_same_frame() {
    let whole = b"\xFF\xFA\x18\x00xterm\xFF\xF0";
    for split in 0..whole.len() {
        let mut buffer = BytesMut::from(&whole[..split]);
        assert_eq!(parse(&mut buffer), None);
        buffer.extend_from_slice(&whole[split..]);
        assert_eq!(
            parse(&mut buffer),
            Some(Frame::Subnegotiation(SubnegotiationOption::TerminalType(
                "xterm".to_string()
            )))
        );
        assert!(buffer.is_empty());
    }
}

#[test]
fn escaped_byte_in_payload_unescapes_to_one_literal() {
    let mut buffer = BytesMut::from(&b"\xFF\xFA\x18\x00A\xFF\xFFB\xFF\xF0"[..]);
    assert_eq!(
        parse(&mut buffer),
        Some(Frame::Subnegotiation(SubnegotiationOption::TerminalType(
            "A\u{FFFD}B".to_string()
        )))
    );
    assert!(buffer.is_empty());
}

#[test]
fn unknown_option_in_negotiation_position() {
    let mut buffer = BytesMut::from(&b"\xFF\xFB\x99"[..]);
    assert_eq!(
        parse(&mut buffer),
        Some(Frame::Negotiation(
            Command::Will,
            NegotationOption::Unknown(0x99)
        ))
    );
}

#[test]
fn unknown_option_in_subnegotiation_position() {
    let mut buffer = BytesMut::from(&b"\xFF\xFA\x99\x01\x02\xFF\xF0"[..]);
    assert_eq!(
        parse(&mut buffer),
        Some(Frame::UnknownSubnegotiation(
            NegotationOption::Unknown(0x99),
            vec![0x01, 0x02]
        ))
    );
    assert!(buffer.is_empty());
}

#[test]
fn uninterpretable_terminal_type_payload_keeps_raw_bytes() {
    let mut buffer = BytesMut::from(&b"\xFF\xFA\x18\x02\x03\xFF\xF0"[..]);
    assert_eq!(
        parse(&mut buffer),
        Some(Frame::UnknownSubnegotiation(
            NegotationOption::TerminalType,
            vec![0x02, 0x03]
        ))
    );
}

#[test]
fn terminator_pair_in_option_position_waits_for_a_real_block() {
    let mut buffer = BytesMut::from(&b"\xFF\xFA\xFF\xF0"[..]);
    assert_eq!(parse(&mut buffer), None);
    assert_eq!(buffer.len(), 4);
    buffer.extend_from_slice(b"\xFF\xF0");
    assert_eq!(
        parse(&mut buffer),
        Some(Frame::UnknownSubnegotiation(
            NegotationOption::Unknown(0xFF),
            vec![0xF0]
        ))
    );
    assert!(buffer.is_empty());
}

#[test]
fn escaped_byte_at_end_of_payload_is_not_a_terminator() {
    let mut buffer = BytesMut::from(&b"\xFF\xFA\x18\x00A\xFF\xFF\xFF\xF0"[..]);
    assert_eq!(
        parse(&mut buffer),
        Some(Frame::Subnegotiation(SubnegotiationOption::TerminalType(
            "A\u{FFFD}".to_string()
        )))
    );
    assert!(buffer.is_empty());
}

#[test]
fn encode_negotiation_exact_bytes() {
    assert_eq!(
        encode_negotiation(Command::Do, NegotationOption::TerminalType),
        vec![0xFF, 0xFD, 0x18]
    );
    assert_eq!(
        encode_negotiation(Command::Will, NegotationOption::Echo),
        vec![0xFF, 0xFB, 0x01]
    );
}

#[test]
fn encode_subnegotiation_exact_bytes() {
    assert_eq!(
        encode_subnegotiation(SubnegotiationOption::TerminalTypeSend),
        vec![0xFF, 0xFA, 0x18, 0x01, 0xFF, 0xF0]
    );
    assert_eq!(
        encode_subnegotiation(SubnegotiationOption::TerminalType("vt100".to_string())),
        b"\xFF\xFA\x18\x00vt100\xFF\xF0".to_vec()
    );
}

#[test]
fn negotiation_round_trips_for_all_commands_and_known_options() {
    let commands = [Command::Will, Command::Wont, Command::Do, Command::Dont];
    let options = [
        NegotationOption::Echo,
        NegotationOption::SuppressGoAhead,
        NegotationOption::TerminalType,
        NegotationOption::Compress,
        NegotationOption::Compress2,
        NegotationOption::Unknown(0x7F),
    ];
    for &command in commands.iter() {
        for &option in options.iter() {
            let bytes = encode_negotiation(command, option);
            let mut buffer = BytesMut::from(&bytes[..]);
            assert_eq!(
                parse(&mut buffer),
                Some(Frame::Negotiation(command, option))
            );
            assert!(buffer.is_empty());
        }
    }
}
