//! The frame decoder: one decode attempt scans the front of the buffer,
//! removes exactly the bytes of one complete frame and returns it, or
//! reports that more data is needed. The outbound encoders build the exact
//! inverse byte sequences.

use vstd::prelude::*;
use crate::buffer::{bytes_view, buf_advance, buf_byte, buf_len, buf_split_to_vec};
use crate::command::{
    Command, NegotationOption, spec_command_byte, spec_command_of_byte, spec_option_byte,
    spec_option_of_byte,
};
use crate::negotiation::{
    SubnegotiationOption, SubnegotiationView, spec_subneg_encode, spec_subneg_parse,
};

verus! {

/// One decoded unit of the wire protocol. A frame owns its payload bytes:
/// nothing refers back into the buffer it came from.
#[derive(Debug, PartialEq, Eq)]
pub enum Frame {
    /// Raw bytes with no protocol meaning.
    Content(Vec<u8>),
    /// A three-byte option negotiation: escape byte, command, option.
    Negotiation(Command, NegotationOption),
    /// A fully interpreted subnegotiation block.
    Subnegotiation(SubnegotiationOption),
    /// A subnegotiation block for an option without a codec: the option
    /// code and the raw, unescaped payload.
    UnknownSubnegotiation(NegotationOption, Vec<u8>),
}

/// The mathematical image of a frame.
#[verifier::ext_equal]
pub enum FrameView {
    Content(Seq<u8>),
    Negotiation(Command, NegotationOption),
    Subnegotiation(SubnegotiationView),
    UnknownSubnegotiation(NegotationOption, Seq<u8>),
}

impl View for Frame {
    type V = FrameView;

    open spec fn view(&self) -> FrameView {
        match self {
            Frame::Content(v) => FrameView::Content(v@),
            Frame::Negotiation(c, o) => FrameView::Negotiation(*c, *o),
            Frame::Subnegotiation(s) => FrameView::Subnegotiation(s@),
            Frame::UnknownSubnegotiation(o, v) => FrameView::UnknownSubnegotiation(*o, v@),
        }
    }
}

/// Index of the first escape byte in `s`, or `s.len()` when there is none.
pub open spec fn iac_pos(s: Seq<u8>) -> int
    decreases s.len(),
{
    if s.len() == 0 {
        0
    } else if s[0] == 0xFF {
        0
    } else {
        1 + iac_pos(s.skip(1))
    }
}

/// The position characterizes `iac_pos`: it is the one index that is in
/// range, has no escape byte before it, and sits on one unless at the end.
pub proof fn lemma_iac_pos_unique(s: Seq<u8>, i: int)
    requires
        0 <= i <= s.len(),
        forall|k: int| 0 <= k < i ==> s[k] != 0xFF,
        i < s.len() ==> s[i] == 0xFF,
    ensures
        iac_pos(s) == i,
    decreases s.len(),
{
    if s.len() == 0 {
    } else if s[0] == 0xFF {
        assert(i == 0);
    } else {
        assert(i >= 1);
        let t = s.skip(1);
        assert forall|k: int| 0 <= k < i - 1 implies t[k] != 0xFF by {
            assert(t[k] == s[k + 1]);
        }
        assert(i - 1 < t.len() ==> t[i - 1] == 0xFF);
        lemma_iac_pos_unique(t, i - 1);
    }
}

/// Position of the first subnegotiation terminator pair (escape byte, SE)
/// at or after index `j`, if there is one.
pub open spec fn subneg_end_from(s: Seq<u8>, j: int) -> Option<int>
    decreases s.len() - j,
{
    if j < 0 || j + 1 >= s.len() {
        None
    } else if s[j] == 0xFF && s[j + 1] == 0xF0 {
        Some(j)
    } else {
        subneg_end_from(s, j + 1)
    }
}

/// When a terminator pair stands at `p` and none stands between `j` and
/// `p`, the first one from `j` is the one at `p`.
pub proof fn lemma_subneg_end_some(s: Seq<u8>, j: int, p: int)
    requires
        0 <= j <= p,
        p + 1 < s.len(),
        s[p] == 0xFF && s[p + 1] == 0xF0,
        forall|q: int| j <= q < p ==> !(#[trigger] s[q] == 0xFF && s[q + 1] == 0xF0),
    ensures
        subneg_end_from(s, j) == Some(p),
    decreases p - j,
{
    if j < p {
        assert(!(s[j] == 0xFF && s[j + 1] == 0xF0));
        lemma_subneg_end_some(s, j + 1, p);
    }
}

/// When no terminator pair stands anywhere at or after `j`, there is no
/// first one either.
pub proof fn lemma_subneg_end_none(s: Seq<u8>, j: int)
    requires
        forall|q: int| j <= q && q + 1 < s.len() ==> !(#[trigger] s[q] == 0xFF && s[q + 1] == 0xF0),
    ensures
        subneg_end_from(s, j) is None,
    decreases s.len() - j,
{
    if !(j < 0 || j + 1 >= s.len()) {
        assert(!(s[j] == 0xFF && s[j + 1] == 0xF0));
        lemma_subneg_end_none(s, j + 1);
    }
}

/// Collapse each doubled escape byte into one literal escape byte, left to
/// right; a trailing lone escape byte stays as it is.
pub open spec fn unescape(s: Seq<u8>) -> Seq<u8>
    decreases s.len(),
{
    if s.len() == 0 {
        Seq::empty()
    } else if s.len() >= 2 && s[0] == 0xFF && s[1] == 0xFF {
        seq![0xFFu8] + unescape(s.skip(2))
    } else {
        seq![s[0]] + unescape(s.skip(1))
    }
}

/// What one decode attempt yields on buffer contents `s`: the frame, when
/// one is complete, and the number of bytes consumed. `(None, 0)` means
/// more data is needed; `(None, 1)` is the recovery on an escape byte
/// followed by an unmapped command byte, which drops the escape byte.
pub open spec fn spec_parse(s: Seq<u8>) -> (Option<FrameView>, int) {
    if s.len() == 0 {
        (None, 0)
    } else if s[0] != 0xFF {
        (Some(FrameView::Content(s.take(iac_pos(s)))), iac_pos(s))
    } else if s.len() == 1 {
        (None, 0)
    } else if s[1] == 0xFF {
        (Some(FrameView::Content(seq![0xFFu8])), 2)
    } else if s[1] == 0xFA {
        spec_parse_subnegotiation(s)
    } else if 0xFB <= s[1] <= 0xFE {
        if s.len() < 3 {
            (None, 0)
        } else {
            (
                Some(
                    FrameView::Negotiation(spec_command_of_byte(s[1]), spec_option_of_byte(s[2])),
                ),
                3,
            )
        }
    } else {
        (None, 1)
    }
}

/// The subnegotiation case of `spec_parse`: the block runs from the
/// three-byte header to the first terminator pair past it; the payload
/// between them is unescaped and handed to the codec.
pub open spec fn spec_parse_subnegotiation(s: Seq<u8>) -> (Option<FrameView>, int) {
    match subneg_end_from(s, 3) {
        None => (None, 0),
        Some(p) => {
            let option = spec_option_of_byte(s[2]);
            let payload = unescape(s.subrange(3, p));
            let frame = match spec_subneg_parse(option, payload) {
                Some(v) => FrameView::Subnegotiation(v),
                None => FrameView::UnknownSubnegotiation(option, payload),
            };
            (Some(frame), p + 2)
        },
    }
}

/// Collapse doubled escape bytes in `data`, returning the unescaped copy.
fn unescape_bytes(data: &Vec<u8>) -> (r: Vec<u8>)
    ensures
        r@ == unescape(data@),
{
    let mut out: Vec<u8> = Vec::new();
    let mut i: usize = 0;
    proof {
        assert(data@.skip(0) =~= data@);
        assert(Seq::<u8>::empty() + unescape(data@) =~= unescape(data@));
    }
    while i < data.len()
        invariant
            i <= data@.len(),
            unescape(data@) == out@ + unescape(data@.skip(i as int)),
        decreases data@.len() - i,
    {
        let b = data[i];
        if b == 0xFF && i + 1 < data.len() && data[i + 1] == 0xFF {
            proof {
                let rest = data@.skip(i as int);
                assert(rest[0] == 0xFF && rest[1] == 0xFF);
                assert(rest.skip(2) =~= data@.skip(i as int + 2));
                assert(out@ + (seq![0xFFu8] + unescape(data@.skip(i as int + 2))) =~= out@.push(
                    0xFFu8,
                ) + unescape(data@.skip(i as int + 2)));
            }
            out.push(0xFF);
            i += 2;
        } else {
            proof {
                let rest = data@.skip(i as int);
                assert(rest[0] == b);
                assert(rest.skip(1) =~= data@.skip(i as int + 1));
                assert(out@ + (seq![b] + unescape(data@.skip(i as int + 1))) =~= out@.push(b)
                    + unescape(data@.skip(i as int + 1)));
            }
            out.push(b);
            i += 1;
        }
    }
    proof {
        assert(data@.skip(data@.len() as int) =~= Seq::<u8>::empty());
        assert(out@ + Seq::<u8>::empty() =~= out@);
    }
    out
}

/// Decode the next frame from the front of the buffer. Returns `None` when
/// the buffer holds no complete frame yet; returns the frame and removes
/// exactly its bytes otherwise, leaving the remainder for the next call.
/// No input byte sequence makes it panic.
pub fn parse(buffer: &mut bytes::BytesMut) -> (r: Option<Frame>)
    ensures
        bytes_view(*final(buffer)) == bytes_view(*old(buffer)).skip(
            spec_parse(bytes_view(*old(buffer))).1,
        ),
        match spec_parse(bytes_view(*old(buffer))).0 {
            Some(fv) => r matches Some(f) && f@ == fv,
            None => r is None,
        },
{
    let ghost s = bytes_view(*buffer);
    let len = buf_len(buffer);
    if len == 0 {
        proof {
            assert(s.skip(0) =~= s);
        }
        return None;
    }
    let b0 = buf_byte(buffer, 0);
    if b0 != 0xFF {
        // Scan forward to the next escape byte, or the end of the buffer,
        // and hand everything before it out as content.
        let mut i: usize = 1;
        let mut found = false;
        while i < len && !found
            invariant
                1 <= i <= len,
                len == s.len(),
                s == bytes_view(*buffer),
                s[0] != 0xFF,
                forall|k: int| 0 <= k < i ==> s[k] != 0xFF,
                found ==> i < len && s[i as int] == 0xFF,
            decreases len - i, (if found { 0int } else { 1int }),
        {
            if buf_byte(buffer, i) == 0xFF {
                found = true;
            } else {
                i += 1;
            }
        }
        proof {
            lemma_iac_pos_unique(s, i as int);
        }
        let content = buf_split_to_vec(buffer, i);
        Some(Frame::Content(content))
    } else {
        parse_iac_frame(buffer)
    }
}

/// Decode a frame that begins with the escape byte: a doubled escape byte
/// is one literal content byte, SB opens a subnegotiation, the four
/// negotiation commands take an option byte, and any other second byte
/// drops the escape byte and resumes scanning.
fn parse_iac_frame(buffer: &mut bytes::BytesMut) -> (r: Option<Frame>)
    requires
        bytes_view(*old(buffer)).len() >= 1,
        bytes_view(*old(buffer))[0] == 0xFF,
    ensures
        bytes_view(*final(buffer)) == bytes_view(*old(buffer)).skip(
            spec_parse(bytes_view(*old(buffer))).1,
        ),
        match spec_parse(bytes_view(*old(buffer))).0 {
            Some(fv) => r matches Some(f) && f@ == fv,
            None => r is None,
        },
{
    let ghost s = bytes_view(*buffer);
    let len = buf_len(buffer);
    if len == 1 {
        proof {
            assert(s.skip(0) =~= s);
        }
        return None;
    }
    let b1 = buf_byte(buffer, 1);
    if b1 == 0xFF {
        buf_advance(buffer, 2);
        let mut content: Vec<u8> = Vec::new();
        content.push(0xFF);
        proof {
            assert(content@ =~= seq![0xFFu8]);
        }
        Some(Frame::Content(content))
    } else if b1 == 0xFA {
        parse_subnegotiation(buffer)
    } else if b1 == 0xFB {
        parse_action(buffer, Command::Will)
    } else if b1 == 0xFC {
        parse_action(buffer, Command::Wont)
    } else if b1 == 0xFD {
        parse_action(buffer, Command::Do)
    } else if b1 == 0xFE {
        parse_action(buffer, Command::Dont)
    } else {
        // The escape byte was not followed by a mapped command byte: drop
        // the escape byte and resume scanning on the next attempt.
        buf_advance(buffer, 1);
        None
    }
}

/// Decode a three-byte negotiation whose command byte has already been
/// recognized as `command`.
fn parse_action(buffer: &mut bytes::BytesMut, command: Command) -> (r: Option<Frame>)
    requires
        bytes_view(*old(buffer)).len() >= 2,
        bytes_view(*old(buffer))[0] == 0xFF,
        !(command matches Command::Unknown(_)),
        bytes_view(*old(buffer))[1] == spec_command_byte(command),
    ensures
        bytes_view(*final(buffer)) == bytes_view(*old(buffer)).skip(
            spec_parse(bytes_view(*old(buffer))).1,
        ),
        match spec_parse(bytes_view(*old(buffer))).0 {
            Some(fv) => r matches Some(f) && f@ == fv,
            None => r is None,
        },
{
    let ghost s = bytes_view(*buffer);
    let len = buf_len(buffer);
    if len < 3 {
        proof {
            assert(s.skip(0) =~= s);
        }
        return None;
    }
    let option_byte = buf_byte(buffer, 2);
    buf_advance(buffer, 3);
    Some(Frame::Negotiation(command, NegotationOption::from(option_byte)))
}

/// Decode a subnegotiation block: wait until the terminator pair is in the
/// buffer, then strip the header and terminator, unescape the payload, and
/// hand it to the codec; an uninterpretable block keeps its raw payload.
fn parse_subnegotiation(buffer: &mut bytes::BytesMut) -> (r: Option<Frame>)
    requires
        bytes_view(*old(buffer)).len() >= 2,
        bytes_view(*old(buffer))[0] == 0xFF,
        bytes_view(*old(buffer))[1] == 0xFA,
    ensures
        bytes_view(*final(buffer)) == bytes_view(*old(buffer)).skip(
            spec_parse(bytes_view(*old(buffer))).1,
        ),
        match spec_parse(bytes_view(*old(buffer))).0 {
            Some(fv) => r matches Some(f) && f@ == fv,
            None => r is None,
        },
{
    let ghost s = bytes_view(*buffer);
    let len = buf_len(buffer);
    if len < 5 {
        // A block needs the three-byte header and the two-byte terminator.
        proof {
            lemma_subneg_end_none(s, 3);
            assert(s.skip(0) =~= s);
        }
        return None;
    }
    let mut j: usize = 3;
    let mut found = false;
    while j + 1 < len && !found
        invariant
            3 <= j,
            j + 1 <= len,
            len == s.len(),
            s == bytes_view(*buffer),
            forall|q: int| 3 <= q < j ==> !(#[trigger] s[q] == 0xFF && s[q + 1] == 0xF0),
            found ==> j + 1 < len && s[j as int] == 0xFF && s[j as int + 1] == 0xF0,
        decreases len - j, (if found { 0int } else { 1int }),
    {
        if buf_byte(buffer, j) == 0xFF && buf_byte(buffer, j + 1) == 0xF0 {
            found = true;
        } else {
            j += 1;
        }
    }
    if !found {
        proof {
            lemma_subneg_end_none(s, 3);
            assert(s.skip(0) =~= s);
        }
        return None;
    }
    proof {
        lemma_subneg_end_some(s, 3, j as int);
    }
    let option_byte = buf_byte(buffer, 2);
    let option = NegotationOption::from(option_byte);
    buf_advance(buffer, 3);
    let raw = buf_split_to_vec(buffer, j - 3);
    proof {
        assert(s.skip(3).take(j as int - 3) =~= s.subrange(3, j as int));
        assert(s.skip(3).skip(j as int - 3) =~= s.skip(j as int));
        assert(s.skip(j as int).skip(2) =~= s.skip(j as int + 2));
    }
    buf_advance(buffer, 2);
    let data = unescape_bytes(&raw);
    match SubnegotiationOption::parse(option, &data) {
        Some(value) => Some(Frame::Subnegotiation(value)),
        None => Some(Frame::UnknownSubnegotiation(option, data)),
    }
}

/// The three bytes a negotiation sends on the wire.
pub open spec fn spec_encode_negotiation(c: Command, o: NegotationOption) -> Seq<u8> {
    seq![0xFFu8, spec_command_byte(c), spec_option_byte(o)]
}

/// Build the wire bytes that propose or acknowledge an option: the escape
/// byte, the command code, the option code.
pub fn encode_negotiation(command: Command, option: NegotationOption) -> (r: Vec<u8>)
    ensures
        r@ == spec_encode_negotiation(command, option),
{
    let mut out: Vec<u8> = Vec::new();
    out.push(0xFF);
    out.push(u8::from(command));
    out.push(u8::from(option));
    proof {
        assert(out@ =~= spec_encode_negotiation(command, option));
    }
    out
}

/// The full wire bytes of a subnegotiation block.
pub open spec fn spec_encode_subnegotiation(v: SubnegotiationView) -> Seq<u8> {
    seq![0xFFu8, 0xFAu8] + spec_subneg_encode(v) + seq![0xFFu8, 0xF0u8]
}

/// Build the wire bytes of a subnegotiation block: escape byte, SB, the
/// option-specific payload, escape byte, SE. Payload bytes are sent as
/// they are, without re-escaping.
pub fn encode_subnegotiation(option: SubnegotiationOption) -> (r: Vec<u8>)
    ensures
        r@ == spec_encode_subnegotiation(option@),
{
    let mut out: Vec<u8> = Vec::new();
    out.push(0xFF);
    out.push(0xFA);
    let body = option.encode();
    let mut i: usize = 0;
    while i < body.len()
        invariant
            i <= body@.len(),
            out@ == seq![0xFFu8, 0xFAu8] + body@.take(i as int),
        decreases body@.len() - i,
    {
        let b = body[i];
        proof {
            assert((seq![0xFFu8, 0xFAu8] + body@.take(i as int)).push(b) =~= seq![0xFFu8, 0xFAu8]
                + body@.take(i as int + 1));
        }
        out.push(b);
        i += 1;
    }
    proof {
        assert(body@.take(body@.len() as int) =~= body@);
    }
    out.push(0xFF);
    out.push(0xF0);
    proof {
        assert(out@ =~= spec_encode_subnegotiation(option@));
    }
    out
}

/// Law: a nonempty byte sequence without the escape byte decodes to one
/// Content frame holding exactly those bytes, draining them all.
pub proof fn lemma_content_frame(s: Seq<u8>)
    requires
        s.len() > 0,
        forall|k: int| 0 <= k < s.len() ==> s[k] != 0xFF,
    ensures
        spec_parse(s) == (Some(FrameView::Content(s)), s.len() as int),
{
    lemma_iac_pos_unique(s, s.len() as int);
    assert(s.take(s.len() as int) =~= s);
}

/// Law: a negotiation encoded for a decodable command and an option whose
/// byte maps back to it decodes to the same pair, consuming exactly its
/// three bytes.
pub proof fn lemma_negotiation_round_trip(c: Command, o: NegotationOption)
    requires
        !(c matches Command::Unknown(_)),
        spec_option_of_byte(spec_option_byte(o)) == o,
    ensures
        spec_parse(spec_encode_negotiation(c, o)) == (
            Some(FrameView::Negotiation(c, o)),
            3int,
        ),
{
    let s = spec_encode_negotiation(c, o);
    assert(s.len() == 3);
    assert(s[0] == 0xFF);
    assert(s[1] == spec_command_byte(c));
    assert(spec_command_of_byte(spec_command_byte(c)) == c);
}

/// Law: a frame led by the escape byte does not depend on arriving whole:
/// every strict prefix decodes to nothing and consumes nothing, and the
/// bytes reassembled after the rest arrives are the original ones, so the
/// later attempt yields the identical frame.
pub proof fn lemma_fragmentation(s: Seq<u8>, k: int)
    requires
        s.len() >= 1,
        s[0] == 0xFF,
        spec_parse(s).0 is Some,
        spec_parse(s).1 == s.len(),
        0 <= k < s.len(),
    ensures
        spec_parse(s.take(k)) == (None::<FrameView>, 0int),
        s.take(k) + s.skip(k) == s,
        spec_parse(s.take(k) + s.skip(k)) == spec_parse(s),
{
    assert(s.take(k) + s.skip(k) =~= s);
    let t = s.take(k);
    if k == 0 {
    } else if k == 1 {
        assert(t[0] == 0xFF);
    } else {
        assert(t[0] == 0xFF);
        assert(t[1] == s[1]);
        if s[1] == 0xFF {
            // The whole frame is two bytes, so no strict prefix reaches here.
            assert(false);
        } else if s[1] == 0xFA {
            match subneg_end_from(s, 3) {
                None => {
                    assert(false);
                },
                Some(p) => {
                    lemma_subneg_end_from_first(s, 3);
                    assert(k <= p + 1);
                    assert forall|q: int| 3 <= q && q + 1 < t.len() implies !(#[trigger] t[q]
                        == 0xFF && t[q + 1] == 0xF0) by {
                        assert(q < p);
                        assert(t[q] == s[q] && t[q + 1] == s[q + 1]);
                    }
                    lemma_subneg_end_none(t, 3);
                },
            }
        } else if 0xFB <= s[1] <= 0xFE {
            assert(s.len() == 3);
            assert(k == 2);
            assert(t.len() < 3);
        } else {
            // An unmapped command byte never completes a frame.
            assert(false);
        }
    }
}

/// The first terminator pair from `j` has no pair before it and lies where
/// it claims to.
proof fn lemma_subneg_end_from_first(s: Seq<u8>, j: int)
    ensures
        subneg_end_from(s, j) matches Some(p) ==> j <= p && p + 1 < s.len() && s[p] == 0xFF && s[p
            + 1] == 0xF0 && forall|q: int|
            j <= q < p ==> !(#[trigger] s[q] == 0xFF && s[q + 1] == 0xF0),
    decreases s.len() - j,
{
    if !(j < 0 || j + 1 >= s.len()) {
        if !(s[j] == 0xFF && s[j + 1] == 0xF0) {
            lemma_subneg_end_from_first(s, j + 1);
        }
    }
}

/// Law: inside a payload, a doubled escape byte standing after an
/// escape-free stretch unescapes to a single literal escape byte in place.
pub proof fn lemma_unescape_escaped(a: Seq<u8>, b: Seq<u8>)
    requires
        forall|k: int| 0 <= k < a.len() ==> a[k] != 0xFF,
    ensures
        unescape(a + seq![0xFFu8, 0xFFu8] + b) == a + seq![0xFFu8] + unescape(b),
    decreases a.len(),
{
    let s = a + seq![0xFFu8, 0xFFu8] + b;
    if a.len() == 0 {
        assert(s =~= seq![0xFFu8, 0xFFu8] + b);
        assert(s.len() >= 2 && s[0] == 0xFF && s[1] == 0xFF);
        assert(s.skip(2) =~= b);
        assert(seq![0xFFu8] + unescape(b) =~= a + seq![0xFFu8] + unescape(b));
    } else {
        assert(s[0] == a[0]);
        assert(!(s.len() >= 2 && s[0] == 0xFF && s[1] == 0xFF));
        assert(s.skip(1) =~= a.skip(1) + seq![0xFFu8, 0xFFu8] + b);
        assert forall|k: int| 0 <= k < a.skip(1).len() implies a.skip(1)[k] != 0xFF by {
            assert(a.skip(1)[k] == a[k + 1]);
        }
        lemma_unescape_escaped(a.skip(1), b);
        assert(seq![a[0]] + (a.skip(1) + seq![0xFFu8] + unescape(b)) =~= a + seq![0xFFu8]
            + unescape(b));
    }
}

/// Law: an option byte outside the known set surfaces as the `Unknown`
/// variant and never as a failure, in the negotiation option position as
/// well as in the subnegotiation option position.
pub proof fn lemma_unknown_option_decodes(cb: u8, b: u8)
    requires
        0xFB <= cb <= 0xFE,
        b != 0x01,
        b != 0x03,
        b != 0x18,
        b != 0x55,
        b != 0x56,
    ensures
        spec_parse(seq![0xFFu8, cb, b]) == (
            Some(FrameView::Negotiation(spec_command_of_byte(cb), NegotationOption::Unknown(b))),
            3int,
        ),
        spec_parse(seq![0xFFu8, 0xFAu8, b, 0xFFu8, 0xF0u8]) == (
            Some(
                FrameView::UnknownSubnegotiation(
                    NegotationOption::Unknown(b),
                    Seq::<u8>::empty(),
                ),
            ),
            5int,
        ),
{
    let s = seq![0xFFu8, 0xFAu8, b, 0xFFu8, 0xF0u8];
    assert(subneg_end_from(s, 3) == Some(3int));
    assert(s.subrange(3, 3) =~= Seq::<u8>::empty());
}

} // verus!
