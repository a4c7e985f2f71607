use telnet_codec::command::{Command, NegotationOption};
use telnet_codec::negotiation::{parse_terminal_type, SubnegotiationOption};

#[test]
fn terminal_type_is_with_name() {
    let payload = b"\x00xterm-256color".to_vec();
    assert_eq!(
        SubnegotiationOption::parse(NegotationOption::TerminalType, &payload),
        Some(SubnegotiationOption::TerminalType(
            "xterm-256color".to_string()
        ))
    );
}

#[test]
fn terminal_type_is_with_empty_name() {
    let payload = vec![0x00];
    assert_eq!(
        parse_terminal_type(&payload),
        Some(SubnegotiationOption::TerminalType(String::new()))
    );
}

#[test]
fn terminal_type_send() {
    let payload = vec![0x01];
    assert_eq!(
        parse_terminal_type(&payload),
        Some(SubnegotiationOption::TerminalTypeSend)
    );
}

#[test]
fn terminal_type_empty_payload_is_uninterpretable() {
    let payload: Vec<u8> = Vec::new();
    assert_eq!(parse_terminal_type(&payload), None);
}

#[test]
fn terminal_type_unmapped_selector_is_uninterpretable() {
    let payload = vec![0x02, 0x41];
    assert_eq!(parse_terminal_type(&payload), None);
}

#[test]
fn options_without_codec_are_uninterpretable() {
    let payload = vec![0x00, 0x41];
    assert_eq!(
        SubnegotiationOption::parse(NegotationOption::Echo, &payload),
        None
    );
    assert_eq!(
        SubnegotiationOption::parse(NegotationOption::Unknown(0x99), &payload),
        None
    );
}

#[test]
fn encode_terminal_type_values() {
    assert_eq!(
        SubnegotiationOption::TerminalTypeSend.encode(),
        vec![0x18, 0x01]
    );
    assert_eq!(
        SubnegotiationOption::TerminalType("ansi".to_string()).encode(),
        b"\x18\x00ansi".to_vec()
    );
}

#[test]
fn command_codes_round_trip() {
    let cases = [
        (Command::Will, 0xFBu8),
        (Command::Wont, 0xFC),
        (Command::Do, 0xFD),
        (Command::Dont, 0xFE),
    ];
    for &(command, byte) in cases.iter() {
        assert_eq!(u8::from(command), byte);
        assert_eq!(Command::from(byte), command);
    }
    assert_eq!(Command::from(0x42), Command::Unknown(0x42));
    assert_eq!(u8::from(Command::Unknown(0x42)), 0x42);
}

#[test]
fn option_codes_round_trip() {
    let cases = [
        (NegotationOption::Echo, 0x01u8),
        (NegotationOption::SuppressGoAhead, 0x03),
        (NegotationOption::TerminalType, 0x18),
        (NegotationOption::Compress, 0x55),
        (NegotationOption::Compress2, 0x56),
    ];
    for &(option, byte) in cases.iter() {
        assert_eq!(u8::from(option), byte);
        assert_eq!(NegotationOption::from(byte), option);
    }
    assert_eq!(
        NegotationOption::from(0x99),
        NegotationOption::Unknown(0x99)
    );
    assert_eq!(u8::from(NegotationOption::Unknown(0x99)), 0x99);
}
