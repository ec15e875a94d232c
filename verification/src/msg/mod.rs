//! Message structures in PSO.
//!
//! A message on the wire is a four-byte header (code, flags, total size as a
//! little-endian `u16`) followed by its payload, padded with zero bytes to a
//! whole number of 32-bit words. The size counts the header and the padding.
use vstd::prelude::*;

pub mod common;
pub mod login;

use crate::msg::common::{
    Redirect4,
    Redirect4View,
    Redirect6,
    Redirect6View,
    Welcome,
    WelcomeView,
    REDIRECT4_LEN,
    REDIRECT6_LEN,
};
use crate::msg::login::{HlCheck, HlCheckView};
use crate::serial::{
    append_bytes,
    append_zeros,
    le_bytes,
    le_read_u16,
    le_value,
    le_write_u16,
    lemma_le_bytes_len,
    lemma_le_roundtrip,
    pow256,
    zero_bytes,
    Serial,
    SerialError,
};

verus! {

/// Message code of the welcome of a lobby (ship) server.
pub const SHIP_WELCOME_CODE: u8 = 0x02;

/// Message code of the welcome of a login server.
pub const LOGIN_WELCOME_CODE: u8 = 0x17;

/// Message code of a redirect.
pub const REDIRECT_CODE: u8 = 0x19;

/// Message code of a license check. This code is the library's own choice:
/// a message with it is read as an [`HlCheck`] and written back from that,
/// so its flags go out as 0 and its padding as zeros, rather than the bytes
/// as they came in.
pub const HLCHECK_CODE: u8 = 0xDB;

/// Length of a message header.
pub const HEADER_LEN: usize = 4;

/// A message.
#[derive(Clone, Debug)]
pub enum Msg {
    /// Any message the proxy does not look into: code, flags and payload.
    Unknown(u8, u8, Vec<u8>),
    /// The welcome of a login server, with its flags.
    LoginWelcome(u8, Welcome),
    /// The welcome of a lobby server, with its flags.
    ShipWelcome(u8, Welcome),
    /// A redirect to an IPv4 address.
    Redirect4(Redirect4),
    /// A redirect to an IPv6 address.
    Redirect6(Redirect6),
    /// A license check.
    HlCheck(HlCheck),
}

/// A message, with its payload as plain values.
pub enum MsgView {
    Unknown(u8, u8, Seq<u8>),
    LoginWelcome(u8, WelcomeView),
    ShipWelcome(u8, WelcomeView),
    Redirect4(Redirect4View),
    Redirect6(Redirect6View),
    HlCheck(HlCheckView),
}

impl View for Msg {
    type V = MsgView;

    open spec fn view(&self) -> MsgView {
        match self {
            Msg::Unknown(c, f, b) => MsgView::Unknown(*c, *f, b@),
            Msg::LoginWelcome(f, w) => MsgView::LoginWelcome(*f, w@),
            Msg::ShipWelcome(f, w) => MsgView::ShipWelcome(*f, w@),
            Msg::Redirect4(r) => MsgView::Redirect4(r@),
            Msg::Redirect6(r) => MsgView::Redirect6(r@),
            Msg::HlCheck(h) => MsgView::HlCheck(h@),
        }
    }
}

/// The code byte of a message's header.
pub open spec fn msg_code(m: MsgView) -> u8 {
    match m {
        MsgView::Unknown(c, _, _) => c,
        MsgView::LoginWelcome(_, _) => LOGIN_WELCOME_CODE,
        MsgView::ShipWelcome(_, _) => SHIP_WELCOME_CODE,
        MsgView::Redirect4(_) => REDIRECT_CODE,
        MsgView::Redirect6(_) => REDIRECT_CODE,
        MsgView::HlCheck(_) => HLCHECK_CODE,
    }
}

/// The flags byte of a message's header.
pub open spec fn msg_flags(m: MsgView) -> u8 {
    match m {
        MsgView::Unknown(_, f, _) => f,
        MsgView::LoginWelcome(f, _) => f,
        MsgView::ShipWelcome(f, _) => f,
        _ => 0,
    }
}

/// The payload bytes of a message, before padding.
pub open spec fn payload_wire(m: MsgView) -> Seq<u8> {
    match m {
        MsgView::Unknown(_, _, b) => b,
        MsgView::LoginWelcome(_, w) => <Welcome as Serial>::wire(w),
        MsgView::ShipWelcome(_, w) => <Welcome as Serial>::wire(w),
        MsgView::Redirect4(r) => <Redirect4 as Serial>::wire(r),
        MsgView::Redirect6(r) => <Redirect6 as Serial>::wire(r),
        MsgView::HlCheck(h) => <HlCheck as Serial>::wire(h),
    }
}

/// The number of zero bytes that pad `len` bytes to a multiple of four.
pub open spec fn padding(len: nat) -> nat {
    if len % 4 == 0 {
        0
    } else {
        (4 - len % 4) as nat
    }
}

/// The size field of a message whose payload is `len` bytes: header, payload
/// and padding, modulo `2^16`.
pub open spec fn size_field(len: nat) -> nat {
    ((HEADER_LEN + len + padding(len)) % 0x10000) as nat
}

/// What reading the payload of a message with code `code` and flags `flags`
/// from `body` gives.
pub open spec fn read_payload(code: u8, flags: u8, body: Seq<u8>) -> Result<MsgView, SerialError> {
    if code == SHIP_WELCOME_CODE {
        match <Welcome as Serial>::read_wire(body) {
            Ok((w, _)) => Ok(MsgView::ShipWelcome(flags, w)),
            Err(e) => Err(e),
        }
    } else if code == LOGIN_WELCOME_CODE {
        match <Welcome as Serial>::read_wire(body) {
            Ok((w, _)) => Ok(MsgView::LoginWelcome(flags, w)),
            Err(e) => Err(e),
        }
    } else if code == REDIRECT_CODE {
        if body.len() >= REDIRECT6_LEN {
            match <Redirect6 as Serial>::read_wire(body) {
                Ok((r, _)) => Ok(MsgView::Redirect6(r)),
                Err(e) => Err(e),
            }
        } else {
            match <Redirect4 as Serial>::read_wire(body) {
                Ok((r, _)) => Ok(MsgView::Redirect4(r)),
                Err(e) => Err(e),
            }
        }
    } else if code == HLCHECK_CODE {
        match <HlCheck as Serial>::read_wire(body) {
            Ok((h, _)) => Ok(MsgView::HlCheck(h)),
            Err(e) => Err(e),
        }
    } else {
        Ok(MsgView::Unknown(code, flags, body))
    }
}

/// The codes that have a payload of their own.
pub open spec fn is_known_code(code: u8) -> bool {
    code == SHIP_WELCOME_CODE || code == LOGIN_WELCOME_CODE || code == REDIRECT_CODE || code
        == HLCHECK_CODE
}

impl Serial for Msg {
    open spec fn wire(m: MsgView) -> Seq<u8> {
        let p = payload_wire(m);
        seq![msg_code(m), msg_flags(m)] + le_bytes(size_field(p.len()), 2) + p + zero_bytes(
            padding(p.len()),
        )
    }

    open spec fn read_wire(bytes: Seq<u8>) -> Result<(MsgView, nat), SerialError> {
        if bytes.len() < HEADER_LEN {
            Err(SerialError::UnexpectedEof)
        } else {
            let size = le_value(bytes.subrange(2, 4));
            if size < HEADER_LEN {
                Err(SerialError::InvalidSize)
            } else if bytes.len() < size {
                Err(SerialError::UnexpectedEof)
            } else {
                match read_payload(bytes[0], bytes[1], bytes.subrange(4, size as int)) {
                    Ok(m) => Ok((m, size)),
                    Err(e) => Err(e),
                }
            }
        }
    }

    open spec fn canonical(m: MsgView) -> bool {
        &&& Self::wire(m).len() < 0x10000
        &&& match m {
            MsgView::Unknown(c, _, b) => !is_known_code(c) && b.len() % 4 == 0,
            MsgView::LoginWelcome(_, w) => <Welcome as Serial>::canonical(w),
            MsgView::ShipWelcome(_, w) => <Welcome as Serial>::canonical(w),
            MsgView::Redirect4(r) => <Redirect4 as Serial>::canonical(r),
            MsgView::Redirect6(r) => <Redirect6 as Serial>::canonical(r),
            MsgView::HlCheck(h) => <HlCheck as Serial>::canonical(h),
        }
    }

    fn serialize(&self, out: &mut Vec<u8>) {
        let mut buf: Vec<u8> = Vec::new();
        let (code, flags) = match self {
            Msg::LoginWelcome(f, pl) => {
                pl.serialize(&mut buf);
                (LOGIN_WELCOME_CODE, *f)
            },
            Msg::ShipWelcome(f, pl) => {
                pl.serialize(&mut buf);
                (SHIP_WELCOME_CODE, *f)
            },
            Msg::Redirect4(pl) => {
                pl.serialize(&mut buf);
                (REDIRECT_CODE, 0u8)
            },
            Msg::Redirect6(pl) => {
                pl.serialize(&mut buf);
                (REDIRECT_CODE, 0u8)
            },
            Msg::HlCheck(pl) => {
                pl.serialize(&mut buf);
                (HLCHECK_CODE, 0u8)
            },
            Msg::Unknown(c, f, b) => {
                append_bytes(&mut buf, b.as_slice());
                (*c, *f)
            },
        };
        assert(buf@ == payload_wire(self@));
        write_framed(code, flags, buf, out);
    }

    fn deserialize(bytes: &[u8]) -> (r: Result<(Msg, usize), SerialError>) {
        if bytes.len() < HEADER_LEN {
            return Err(SerialError::UnexpectedEof);
        }
        let code = bytes[0];
        let flags = bytes[1];
        let size = le_read_u16(vstd::slice::slice_subrange(bytes, 2, 4)) as usize;
        proof {
            assert(bytes@.subrange(2, 4).take(2) =~= bytes@.subrange(2, 4));
        }
        if size < HEADER_LEN {
            return Err(SerialError::InvalidSize);
        }
        if bytes.len() < size {
            return Err(SerialError::UnexpectedEof);
        }
        let body = vstd::slice::slice_subrange(bytes, HEADER_LEN, size);
        let msg = if code == SHIP_WELCOME_CODE {
            match Welcome::deserialize(body) {
                Ok((w, _)) => Msg::ShipWelcome(flags, w),
                Err(e) => {
                    return Err(e);
                },
            }
        } else if code == LOGIN_WELCOME_CODE {
            match Welcome::deserialize(body) {
                Ok((w, _)) => Msg::LoginWelcome(flags, w),
                Err(e) => {
                    return Err(e);
                },
            }
        } else if code == REDIRECT_CODE {
            if body.len() >= REDIRECT6_LEN {
                match Redirect6::deserialize(body) {
                    Ok((r, _)) => Msg::Redirect6(r),
                    Err(e) => {
                        return Err(e);
                    },
                }
            } else {
                match Redirect4::deserialize(body) {
                    Ok((r, _)) => Msg::Redirect4(r),
                    Err(e) => {
                        return Err(e);
                    },
                }
            }
        } else if code == HLCHECK_CODE {
            match HlCheck::deserialize(body) {
                Ok((h, _)) => Msg::HlCheck(h),
                Err(e) => {
                    return Err(e);
                },
            }
        } else {
            Msg::Unknown(code, flags, vstd::slice::slice_to_vec(body))
        };
        Ok((msg, size))
    }

    proof fn lemma_roundtrip(m: MsgView, rest: Seq<u8>) {
        let p = payload_wire(m);
        let pad = zero_bytes(padding(p.len()));
        let total = (HEADER_LEN + p.len() + padding(p.len())) as nat;
        let w = Self::wire(m);
        let all = w + rest;
        lemma_le_bytes_len(size_field(p.len()), 2);
        assert(w.len() == total);
        assert(size_field(p.len()) == total);
        assert(all.subrange(2, 4) =~= le_bytes(total, 2));
        assert(pow256(2) == 0x10000) by {
            reveal_with_fuel(pow256, 3);
        }
        lemma_le_roundtrip(total, 2);
        assert(all[0] == msg_code(m));
        assert(all[1] == msg_flags(m));
        let body = all.subrange(4, total as int);
        assert(body =~= p + pad);
        match m {
            MsgView::Unknown(c, f, b) => {
                assert(pad =~= Seq::<u8>::empty());
                assert(body =~= b);
            },
            MsgView::LoginWelcome(f, wv) => {
                <Welcome as Serial>::lemma_roundtrip(wv, pad);
            },
            MsgView::ShipWelcome(f, wv) => {
                <Welcome as Serial>::lemma_roundtrip(wv, pad);
            },
            MsgView::Redirect4(r) => {
                <Redirect4 as Serial>::lemma_roundtrip(r, pad);
                assert(p.len() == REDIRECT4_LEN);
            },
            MsgView::Redirect6(r) => {
                <Redirect6 as Serial>::lemma_roundtrip(r, pad);
                assert(p.len() == REDIRECT6_LEN);
            },
            MsgView::HlCheck(h) => {
                <HlCheck as Serial>::lemma_roundtrip(h, pad);
            },
        }
    }
}

/// Append a message of code `code` and flags `flags` with payload `buf`:
/// the header, the payload, and the zero bytes that pad it to a whole number
/// of words.
fn write_framed(code: u8, flags: u8, buf: Vec<u8>, out: &mut Vec<u8>)
    ensures
        final(out)@ == old(out)@ + seq![code, flags] + le_bytes(size_field(buf@.len()), 2) + buf@
            + zero_bytes(padding(buf@.len())),
{
    let mut buf = buf;
    let ghost p = buf@;
    let buf_len = buf.len();
    let rem = round_up_remainder((buf_len % 0x10000) as u16, 4);
    assert(rem as nat == padding(p.len()));
    append_zeros(&mut buf, rem as usize);
    let padded = (buf.len() % 0x10000) as u16;
    assert(padded % 4 == 0);
    let size = round_up(padded, 4).wrapping_add(HEADER_LEN as u16);
    assert(size as nat == size_field(p.len()));
    out.push(code);
    out.push(flags);
    let mut size_bytes = [0u8; 2];
    le_write_u16(&mut size_bytes, size);
    proof {
        lemma_le_bytes_len(size as nat, 2);
    }
    assert(size_bytes@ =~= le_bytes(size_field(p.len()), 2));
    append_bytes(out, &size_bytes);
    append_bytes(out, buf.as_slice());
    assert(out@ =~= old(out)@ + seq![code, flags] + le_bytes(size_field(p.len()), 2) + p
        + zero_bytes(padding(p.len())));
}

/// Every message goes on the wire as a whole number of 32-bit words, at
/// least a header long, and the size field of its header holds its length
/// (modulo `2^16`). So a written message can always be run through the
/// cipher, which codes whole words only.
pub proof fn lemma_msg_wire_shape(m: MsgView)
    ensures
        <Msg as Serial>::wire(m).len() % 4 == 0,
        <Msg as Serial>::wire(m).len() >= HEADER_LEN,
        le_value(<Msg as Serial>::wire(m).subrange(2, 4)) == <Msg as Serial>::wire(m).len()
            % 0x10000,
{
    let p = payload_wire(m);
    let w = <Msg as Serial>::wire(m);
    lemma_le_bytes_len(size_field(p.len()), 2);
    assert(w.subrange(2, 4) =~= le_bytes(size_field(p.len()), 2));
    assert(pow256(2) == 0x10000) by {
        reveal_with_fuel(pow256, 3);
    }
    lemma_le_roundtrip(size_field(p.len()), 2);
}

/// The lengths of messages on the wire: a welcome takes 0x4C bytes, an IPv4
/// redirect 0x0C, an IPv6 redirect 0x18 and a license check 224 (when their
/// fields have their sizes), and any other message a header plus its payload
/// padded to a whole number of words.
pub proof fn lemma_msg_len(m: MsgView)
    ensures
        match m {
            MsgView::Unknown(_, _, b) => <Msg as Serial>::wire(m).len() == HEADER_LEN + b.len()
                + padding(b.len()),
            MsgView::LoginWelcome(_, _) => <Msg as Serial>::wire(m).len() == 0x4C,
            MsgView::ShipWelcome(_, _) => <Msg as Serial>::wire(m).len() == 0x4C,
            MsgView::Redirect4(r) => <Redirect4 as Serial>::canonical(r) ==> <Msg as Serial>::wire(
                m,
            ).len() == 0x0C,
            MsgView::Redirect6(r) => <Redirect6 as Serial>::canonical(r) ==> <Msg as Serial>::wire(
                m,
            ).len() == 0x18,
            MsgView::HlCheck(h) => <HlCheck as Serial>::canonical(h) ==> <Msg as Serial>::wire(
                m,
            ).len() == 224,
        },
{
    let p = payload_wire(m);
    lemma_le_bytes_len(size_field(p.len()), 2);
    match m {
        MsgView::LoginWelcome(_, w) => Welcome::lemma_wire_len(w),
        MsgView::ShipWelcome(_, w) => Welcome::lemma_wire_len(w),
        MsgView::Redirect4(r) => {
            lemma_le_bytes_len(r.port as nat, 2);
            lemma_le_bytes_len(0, 2);
        },
        MsgView::Redirect6(r) => {
            lemma_le_bytes_len(r.port as nat, 2);
            lemma_le_bytes_len(0, 2);
        },
        _ => {},
    }
}

/// `val` if it is a multiple of `of`, otherwise `val + of`.
pub fn round_up(val: u16, of: u16) -> (r: u16)
    requires
        of != 0,
        val % of != 0 ==> val + of <= u16::MAX,
    ensures
        r == if val % of == 0 {
            val as int
        } else {
            val + of
        },
{
    if val % of == 0 {
        val
    } else {
        val + of
    }
}

/// How far `val` is below the next multiple of `of` (0 for a multiple).
pub fn round_up_remainder(val: u16, of: u16) -> (r: u16)
    requires
        of != 0,
    ensures
        r == if val % of == 0 {
            0
        } else {
            of - val % of
        },
{
    if val % of == 0 {
        0
    } else {
        of - (val % of)
    }
}

/// A message's payload stands right after its four-byte header: the code at
/// byte 0, the flags at byte 1, and payload byte `i` at message byte `4 + i`.
pub proof fn lemma_msg_payload_after_header(m: MsgView)
    ensures
        ({
            let w = <Msg as Serial>::wire(m);
            let p = payload_wire(m);
            &&& w[0] == msg_code(m)
            &&& w[1] == msg_flags(m)
            &&& w.subrange(4, 4 + p.len() as int) == p
        }),
{
    let w = <Msg as Serial>::wire(m);
    let p = payload_wire(m);
    lemma_le_bytes_len(size_field(p.len()), 2);
    assert(w.subrange(4, 4 + p.len() as int) =~= p);
}

/// In a license-check message the second serial number stands at message
/// bytes 80..88 and the second access key at 128..140: payload bytes 76..84
/// and 124..136 after the four-byte header.
pub proof fn lemma_hlcheck_message_layout(h: HlCheckView)
    requires
        <HlCheck as Serial>::canonical(h),
    ensures
        ({
            let w = <Msg as Serial>::wire(MsgView::HlCheck(h));
            &&& w.len() == 224
            &&& w[0] == HLCHECK_CODE
            &&& w.subrange(36, 44) == h.serial
            &&& w.subrange(52, 64) == h.access_key
            &&& w[76] == h.version
            &&& w.subrange(80, 88) == h.serial2
            &&& w.subrange(128, 140) == h.access_key2
            &&& w.subrange(176, 192) == h.password
        }),
{
    let m = MsgView::HlCheck(h);
    let w = <Msg as Serial>::wire(m);
    let p = payload_wire(m);
    lemma_msg_len(m);
    lemma_msg_payload_after_header(m);
    crate::msg::login::lemma_hlcheck_layout(h);
    let q = w.subrange(4, 224);
    assert(q =~= p);
    assert(w.subrange(36, 44) =~= p.subrange(32, 40));
    assert(w.subrange(52, 64) =~= p.subrange(48, 60));
    assert(w[76] == p[72]);
    assert(w.subrange(80, 88) =~= p.subrange(76, 84));
    assert(w.subrange(128, 140) =~= p.subrange(124, 136));
    assert(w.subrange(176, 192) =~= p.subrange(172, 188));
}

/// In an IPv6 redirect message the 16 address octets stand in order at
/// message bytes 4..20, right after the header, and the port follows at bytes
/// 20 and 21, least significant byte first.
pub proof fn lemma_redirect6_message_layout(r: Redirect6View)
    requires
        <Redirect6 as Serial>::canonical(r),
    ensures
        ({
            let w = <Msg as Serial>::wire(MsgView::Redirect6(r));
            &&& w.len() == 0x18
            &&& w[0] == REDIRECT_CODE
            &&& w.subrange(4, 20) == r.ip
            &&& w[20] == r.port % 256
            &&& w[21] == r.port / 256
        }),
{
    let m = MsgView::Redirect6(r);
    let w = <Msg as Serial>::wire(m);
    let p = payload_wire(m);
    lemma_msg_len(m);
    lemma_msg_payload_after_header(m);
    crate::msg::common::lemma_redirect6_layout(r);
    assert(w.subrange(4, 24) =~= p);
    assert(w.subrange(4, 20) =~= p.take(16));
    assert(w[20] == p[16]);
    assert(w[21] == p[17]);
}

} // verus!
