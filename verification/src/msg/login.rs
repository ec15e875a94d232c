//! Login related message structures.
use vstd::prelude::*;

use crate::msg::common::read_array;
use crate::serial::{append_bytes, append_zeros, zero_bytes, Serial, SerialError};

verus! {

/// Length of a license check on the wire.
pub const HLCHECK_LEN: usize = 220;

/// The license check a client sends to the login server: its serial number
/// and access key (twice), its version and its password, at fixed places
/// between zero padding.
#[derive(Clone, Copy, Debug)]
pub struct HlCheck {
    pub serial: [u8; 8],
    pub access_key: [u8; 12],
    pub version: u8,
    pub serial2: [u8; 8],
    pub access_key2: [u8; 12],
    pub password: [u8; 16],
}

/// A license check, with its byte fields as sequences.
pub struct HlCheckView {
    pub serial: Seq<u8>,
    pub access_key: Seq<u8>,
    pub version: u8,
    pub serial2: Seq<u8>,
    pub access_key2: Seq<u8>,
    pub password: Seq<u8>,
}

impl View for HlCheck {
    type V = HlCheckView;

    open spec fn view(&self) -> HlCheckView {
        HlCheckView {
            serial: self.serial@,
            access_key: self.access_key@,
            version: self.version,
            serial2: self.serial2@,
            access_key2: self.access_key2@,
            password: self.password@,
        }
    }
}

impl Default for HlCheck {
    /// All fields zero.
    fn default() -> (r: HlCheck)
        ensures
            r@ == (HlCheckView {
                serial: zero_bytes(8),
                access_key: zero_bytes(12),
                version: 0,
                serial2: zero_bytes(8),
                access_key2: zero_bytes(12),
                password: zero_bytes(16),
            }),
    {
        let r = HlCheck {
            serial: [0u8; 8],
            access_key: [0u8; 12],
            version: 0,
            serial2: [0u8; 8],
            access_key2: [0u8; 12],
            password: [0u8; 16],
        };
        assert(r.serial@ =~= zero_bytes(8));
        assert(r.access_key@ =~= zero_bytes(12));
        assert(r.serial2@ =~= zero_bytes(8));
        assert(r.access_key2@ =~= zero_bytes(12));
        assert(r.password@ =~= zero_bytes(16));
        r
    }
}

impl Serial for HlCheck {
    open spec fn wire(v: HlCheckView) -> Seq<u8> {
        zero_bytes(32) + v.serial + zero_bytes(8) + v.access_key + zero_bytes(12) + seq![v.version]
            + zero_bytes(3) + v.serial2 + zero_bytes(40) + v.access_key2 + zero_bytes(36)
            + v.password + zero_bytes(32)
    }

    open spec fn read_wire(bytes: Seq<u8>) -> Result<(HlCheckView, nat), SerialError> {
        if bytes.len() < HLCHECK_LEN {
            Err(SerialError::UnexpectedEof)
        } else {
            Ok(
                (
                    HlCheckView {
                        serial: bytes.subrange(32, 40),
                        access_key: bytes.subrange(48, 60),
                        version: bytes[72],
                        serial2: bytes.subrange(76, 84),
                        access_key2: bytes.subrange(124, 136),
                        password: bytes.subrange(172, 188),
                    },
                    HLCHECK_LEN as nat,
                ),
            )
        }
    }

    open spec fn canonical(v: HlCheckView) -> bool {
        &&& v.serial.len() == 8
        &&& v.access_key.len() == 12
        &&& v.serial2.len() == 8
        &&& v.access_key2.len() == 12
        &&& v.password.len() == 16
    }

    fn serialize(&self, out: &mut Vec<u8>) {
        append_zeros(out, 32);
        append_bytes(out, &self.serial);
        append_zeros(out, 8);
        append_bytes(out, &self.access_key);
        append_zeros(out, 12);
        self.version.serialize(out);
        append_zeros(out, 3);
        append_bytes(out, &self.serial2);
        append_zeros(out, 40);
        append_bytes(out, &self.access_key2);
        append_zeros(out, 36);
        append_bytes(out, &self.password);
        append_zeros(out, 32);
        assert(out@ =~= old(out)@ + Self::wire(self@));
    }

    fn deserialize(bytes: &[u8]) -> (r: Result<(HlCheck, usize), SerialError>) {
        if bytes.len() < HLCHECK_LEN {
            return Err(SerialError::UnexpectedEof);
        }
        let serial: [u8; 8] = read_array(bytes, 32);
        let access_key: [u8; 12] = read_array(bytes, 48);
        let version = bytes[72];
        let serial2: [u8; 8] = read_array(bytes, 76);
        let access_key2: [u8; 12] = read_array(bytes, 124);
        let password: [u8; 16] = read_array(bytes, 172);
        Ok((HlCheck { serial, access_key, version, serial2, access_key2, password }, HLCHECK_LEN))
    }

    proof fn lemma_roundtrip(v: HlCheckView, rest: Seq<u8>) {
        let all = Self::wire(v) + rest;
        assert(Self::wire(v).len() == HLCHECK_LEN);
        assert(all.subrange(32, 40) =~= v.serial);
        assert(all.subrange(48, 60) =~= v.access_key);
        assert(all[72] == v.version);
        assert(all.subrange(76, 84) =~= v.serial2);
        assert(all.subrange(124, 136) =~= v.access_key2);
        assert(all.subrange(172, 188) =~= v.password);
    }
}

/// Where the fields of a license check stand on the wire, counted from the
/// start of its payload: 32 zero bytes, the serial number at 32..40, 8 zero
/// bytes, the access key at 48..60, 12 zero bytes, the version at 72, 3 zero
/// bytes, the second serial number at 76..84, 40 zero bytes, the second
/// access key at 124..136, 36 zero bytes, the password at 172..188 and 32
/// zero bytes, 220 bytes in all.
pub proof fn lemma_hlcheck_layout(h: HlCheckView)
    requires
        <HlCheck as Serial>::canonical(h),
    ensures
        ({
            let w = <HlCheck as Serial>::wire(h);
            &&& w.len() == 220
            &&& w.subrange(0, 32) == zero_bytes(32)
            &&& w.subrange(32, 40) == h.serial
            &&& w.subrange(40, 48) == zero_bytes(8)
            &&& w.subrange(48, 60) == h.access_key
            &&& w.subrange(60, 72) == zero_bytes(12)
            &&& w[72] == h.version
            &&& w.subrange(73, 76) == zero_bytes(3)
            &&& w.subrange(76, 84) == h.serial2
            &&& w.subrange(84, 124) == zero_bytes(40)
            &&& w.subrange(124, 136) == h.access_key2
            &&& w.subrange(136, 172) == zero_bytes(36)
            &&& w.subrange(172, 188) == h.password
            &&& w.subrange(188, 220) == zero_bytes(32)
        }),
{
    let w = <HlCheck as Serial>::wire(h);
    assert(w.subrange(0, 32) =~= zero_bytes(32));
    assert(w.subrange(32, 40) =~= h.serial);
    assert(w.subrange(40, 48) =~= zero_bytes(8));
    assert(w.subrange(48, 60) =~= h.access_key);
    assert(w.subrange(60, 72) =~= zero_bytes(12));
    assert(w.subrange(73, 76) =~= zero_bytes(3));
    assert(w.subrange(76, 84) =~= h.serial2);
    assert(w.subrange(84, 124) =~= zero_bytes(40));
    assert(w.subrange(124, 136) =~= h.access_key2);
    assert(w.subrange(136, 172) =~= zero_bytes(36));
    assert(w.subrange(172, 188) =~= h.password);
    assert(w.subrange(188, 220) =~= zero_bytes(32));
}

/// Reading a license check takes its fields from the same places: from any
/// 220 bytes or more, the serial number from 32..40, the access key from
/// 48..60, the version from 72, the second serial number from 76..84, the
/// second access key from 124..136 and the password from 172..188, and it
/// takes 220 bytes; from fewer bytes it fails for want of bytes.
pub proof fn lemma_hlcheck_read_layout(bytes: Seq<u8>)
    ensures
        bytes.len() >= 220 ==> (<HlCheck as Serial>::read_wire(bytes) matches Ok((h, n)) && {
            &&& n == 220
            &&& h.serial == bytes.subrange(32, 40)
            &&& h.access_key == bytes.subrange(48, 60)
            &&& h.version == bytes[72]
            &&& h.serial2 == bytes.subrange(76, 84)
            &&& h.access_key2 == bytes.subrange(124, 136)
            &&& h.password == bytes.subrange(172, 188)
        }),
        bytes.len() < 220 ==> <HlCheck as Serial>::read_wire(bytes) == Err::<
            (HlCheckView, nat),
            SerialError,
        >(SerialError::UnexpectedEof),
{
}

} // verus!
