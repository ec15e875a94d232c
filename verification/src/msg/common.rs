//! Payloads shared by the login and lobby servers.
use vstd::prelude::*;

use crate::serial::util::{
    ascii_field,
    ascii_text_fits,
    lemma_ascii_field_roundtrip,
    read_ascii_field,
    read_ascii_len,
    write_ascii_len,
};
use crate::serial::{
    append_bytes,
    lemma_le_bytes_len,
    Serial,
    SerialError,
};

verus! {

/// The copyright line a login server sends in its welcome.
pub const LOGIN_WELCOME_COPYRIGHT: &'static str = "DreamCast Port Map. Copyright SEGA Enterprises. 1999";

/// The copyright line a lobby server sends in its welcome.
pub const SHIP_WELCOME_COPYRIGHT: &'static str = "DreamCast Lobby Server. Copyright SEGA Enterprises. 1999";

/// Length of the copyright field of a welcome.
pub const COPYRIGHT_LEN: usize = 0x40;

/// Length of a welcome on the wire.
pub const WELCOME_LEN: usize = 0x48;

/// Length of an IPv4 redirect on the wire.
pub const REDIRECT4_LEN: usize = 8;

/// Length of an IPv6 redirect on the wire.
pub const REDIRECT6_LEN: usize = 20;

/// `a` followed by `b`, with `b` found again after `a`.
pub proof fn lemma_skip_concat(a: Seq<u8>, b: Seq<u8>)
    ensures
        (a + b).skip(a.len() as int) == b,
        (a + b).take(a.len() as int) == a,
{
    assert((a + b).skip(a.len() as int) =~= b);
    assert((a + b).take(a.len() as int) =~= a);
}

/// The welcome a server sends first: a copyright line and the two seeds the
/// ciphers of the connection start from.
#[derive(Clone, Debug)]
pub struct Welcome {
    pub copyright: String,
    pub server_seed: u32,
    pub client_seed: u32,
}

/// A welcome, with the copyright line as characters.
pub struct WelcomeView {
    pub copyright: Seq<char>,
    pub server_seed: u32,
    pub client_seed: u32,
}

impl View for Welcome {
    type V = WelcomeView;

    open spec fn view(&self) -> WelcomeView {
        WelcomeView {
            copyright: self.copyright@,
            server_seed: self.server_seed,
            client_seed: self.client_seed,
        }
    }
}

impl Default for Welcome {
    fn default() -> (r: Welcome)
        ensures
            r.copyright@ == SHIP_WELCOME_COPYRIGHT@,
            r.server_seed == 0,
            r.client_seed == 0,
    {
        Welcome { copyright: SHIP_WELCOME_COPYRIGHT.to_owned(), server_seed: 0, client_seed: 0 }
    }
}

impl Serial for Welcome {
    open spec fn wire(v: WelcomeView) -> Seq<u8> {
        ascii_field(v.copyright, COPYRIGHT_LEN as nat) + <u32 as Serial>::wire(v.server_seed)
            + <u32 as Serial>::wire(v.client_seed)
    }

    open spec fn read_wire(bytes: Seq<u8>) -> Result<(WelcomeView, nat), SerialError> {
        match read_ascii_field(bytes, COPYRIGHT_LEN as nat) {
            Err(e) => Err(e),
            Ok((cs, _)) => match <u32 as Serial>::read_wire(bytes.skip(0x40)) {
                Err(e) => Err(e),
                Ok((s, _)) => match <u32 as Serial>::read_wire(bytes.skip(0x44)) {
                    Err(e) => Err(e),
                    Ok((c, _)) => Ok(
                        (
                            WelcomeView { copyright: cs, server_seed: s, client_seed: c },
                            WELCOME_LEN as nat,
                        ),
                    ),
                },
            },
        }
    }

    open spec fn canonical(v: WelcomeView) -> bool {
        ascii_text_fits(v.copyright, COPYRIGHT_LEN as nat)
    }

    fn serialize(&self, out: &mut Vec<u8>) {
        write_ascii_len(self.copyright.as_str(), COPYRIGHT_LEN, out);
        self.server_seed.serialize(out);
        self.client_seed.serialize(out);
        assert(out@ =~= old(out)@ + Self::wire(self@));
    }

    fn deserialize(bytes: &[u8]) -> (r: Result<(Welcome, usize), SerialError>) {
        let (copyright, _) = match read_ascii_len(COPYRIGHT_LEN, bytes) {
            Ok(p) => p,
            Err(e) => {
                return Err(e);
            },
        };
        let rest = vstd::slice::slice_subrange(bytes, 0x40, bytes.len());
        let (server_seed, _) = match u32::deserialize(rest) {
            Ok(p) => p,
            Err(e) => {
                return Err(e);
            },
        };
        let rest = vstd::slice::slice_subrange(bytes, 0x44, bytes.len());
        let (client_seed, _) = match u32::deserialize(rest) {
            Ok(p) => p,
            Err(e) => {
                return Err(e);
            },
        };
        Ok((Welcome { copyright, server_seed, client_seed }, WELCOME_LEN))
    }

    proof fn lemma_roundtrip(v: WelcomeView, rest: Seq<u8>) {
        let f = ascii_field(v.copyright, COPYRIGHT_LEN as nat);
        let s = <u32 as Serial>::wire(v.server_seed);
        let c = <u32 as Serial>::wire(v.client_seed);
        lemma_le_bytes_len(v.server_seed as nat, 4);
        lemma_le_bytes_len(v.client_seed as nat, 4);
        let all = f + s + c + rest;
        assert(all =~= f + (s + c + rest));
        lemma_ascii_field_roundtrip(v.copyright, COPYRIGHT_LEN as nat, s + c + rest);
        lemma_skip_concat(f, s + c + rest);
        assert(all.skip(0x40) =~= s + (c + rest));
        <u32 as Serial>::lemma_roundtrip(v.server_seed, c + rest);
        assert(all.skip(0x44) =~= c + rest);
        <u32 as Serial>::lemma_roundtrip(v.client_seed, rest);
    }
}

impl Welcome {
    /// A welcome is always 0x48 bytes on the wire.
    pub proof fn lemma_wire_len(v: WelcomeView)
        ensures
            <Welcome as Serial>::wire(v).len() == WELCOME_LEN,
    {
        lemma_le_bytes_len(v.server_seed as nat, 4);
        lemma_le_bytes_len(v.client_seed as nat, 4);
        crate::serial::util::lemma_fit_len(
            crate::serial::util::ascii_encoded(v.copyright),
            COPYRIGHT_LEN as nat,
        );
    }
}

/// Copy `N` bytes of `bytes`, starting at `start`, into an array.
pub fn read_array<const N: usize>(bytes: &[u8], start: usize) -> (r: [u8; N])
    requires
        start + N <= bytes@.len(),
    ensures
        r@ == bytes@.subrange(start as int, start + N),
{
    let mut r = [0u8; N];
    let mut i: usize = 0;
    while i < N
        invariant
            i <= N,
            start + N <= bytes.len(),
            r@.len() == N,
            forall|j: int| 0 <= j < i ==> r@[j] == bytes@[start + j],
        decreases N - i,
    {
        r[i] = bytes[start + i];
        i = i + 1;
    }
    assert(r@ =~= bytes@.subrange(start as int, start + N));
    r
}

/// A redirect of the client to an IPv4 address and port.
#[derive(Clone, Copy, Debug)]
pub struct Redirect4 {
    pub ip: [u8; 4],
    pub port: u16,
}

/// An IPv4 redirect, with the address octets as a sequence.
pub struct Redirect4View {
    pub ip: Seq<u8>,
    pub port: u16,
}

impl View for Redirect4 {
    type V = Redirect4View;

    open spec fn view(&self) -> Redirect4View {
        Redirect4View { ip: self.ip@, port: self.port }
    }
}

impl Default for Redirect4 {
    fn default() -> (r: Redirect4)
        ensures
            r.ip@ == seq![127u8, 0u8, 0u8, 1u8],
            r.port == 80,
    {
        let r = Redirect4 { ip: [127, 0, 0, 1], port: 80 };
        assert(r.ip@ =~= seq![127u8, 0u8, 0u8, 1u8]);
        r
    }
}

impl Serial for Redirect4 {
    open spec fn wire(v: Redirect4View) -> Seq<u8> {
        v.ip + <u16 as Serial>::wire(v.port) + <u16 as Serial>::wire(0)
    }

    open spec fn read_wire(bytes: Seq<u8>) -> Result<(Redirect4View, nat), SerialError> {
        if bytes.len() < REDIRECT4_LEN {
            Err(SerialError::UnexpectedEof)
        } else {
            Ok(
                (
                    Redirect4View {
                        ip: bytes.take(4),
                        port: crate::serial::le_value(bytes.subrange(4, 6)) as u16,
                    },
                    REDIRECT4_LEN as nat,
                ),
            )
        }
    }

    open spec fn canonical(v: Redirect4View) -> bool {
        v.ip.len() == 4
    }

    fn serialize(&self, out: &mut Vec<u8>) {
        append_bytes(out, &self.ip);
        self.port.serialize(out);
        0u16.serialize(out);
        assert(out@ =~= old(out)@ + Self::wire(self@));
    }

    fn deserialize(bytes: &[u8]) -> (r: Result<(Redirect4, usize), SerialError>) {
        if bytes.len() < REDIRECT4_LEN {
            return Err(SerialError::UnexpectedEof);
        }
        let ip: [u8; 4] = read_array(bytes, 0);
        let port = crate::serial::le_read_u16(vstd::slice::slice_subrange(bytes, 4, 6));
        proof {
            assert(bytes@.subrange(4, 6).take(2) =~= bytes@.subrange(4, 6));
            assert(bytes@.subrange(0, 4) =~= bytes@.take(4));
        }
        Ok((Redirect4 { ip, port }, REDIRECT4_LEN))
    }

    proof fn lemma_roundtrip(v: Redirect4View, rest: Seq<u8>) {
        let p = <u16 as Serial>::wire(v.port);
        let z = <u16 as Serial>::wire(0);
        lemma_le_bytes_len(v.port as nat, 2);
        lemma_le_bytes_len(0, 2);
        let all = v.ip + p + z + rest;
        assert(all.take(4) =~= v.ip);
        assert(all.subrange(4, 6) =~= (p + (z + rest)).take(2));
        <u16 as Serial>::lemma_roundtrip(v.port, z + rest);
    }
}

/// A redirect of the client to an IPv6 address and port.
#[derive(Clone, Copy, Debug)]
pub struct Redirect6 {
    pub ip: [u8; 16],
    pub port: u16,
    pub flowinfo: u32,
    pub scope_id: u32,
}

/// An IPv6 redirect, with the address octets as a sequence.
pub struct Redirect6View {
    pub ip: Seq<u8>,
    pub port: u16,
    pub flowinfo: u32,
    pub scope_id: u32,
}

impl View for Redirect6 {
    type V = Redirect6View;

    open spec fn view(&self) -> Redirect6View {
        Redirect6View {
            ip: self.ip@,
            port: self.port,
            flowinfo: self.flowinfo,
            scope_id: self.scope_id,
        }
    }
}

/// The scope id a redirect read from the wire carries.
pub const REDIRECT6_SCOPE_ID: u32 = 0xe;

impl Default for Redirect6 {
    /// `::ffff:127.0.0.1`, port 80.
    fn default() -> (r: Redirect6)
        ensures
            r.ip@ == seq![0u8, 0, 0, 0, 0, 0, 0, 0, 0, 0, 0xff, 0xff, 127, 0, 0, 1],
            r.port == 80,
            r.flowinfo == 0,
            r.scope_id == 0,
    {
        let r = Redirect6 {
            ip: [0, 0, 0, 0, 0, 0, 0, 0, 0, 0, 0xff, 0xff, 127, 0, 0, 1],
            port: 80,
            flowinfo: 0,
            scope_id: 0,
        };
        assert(r.ip@ =~= seq![0u8, 0, 0, 0, 0, 0, 0, 0, 0, 0, 0xff, 0xff, 127, 0, 0, 1]);
        r
    }
}

impl Serial for Redirect6 {
    open spec fn wire(v: Redirect6View) -> Seq<u8> {
        v.ip + <u16 as Serial>::wire(v.port) + <u16 as Serial>::wire(0)
    }

    open spec fn read_wire(bytes: Seq<u8>) -> Result<(Redirect6View, nat), SerialError> {
        if bytes.len() < REDIRECT6_LEN {
            Err(SerialError::UnexpectedEof)
        } else {
            Ok(
                (
                    Redirect6View {
                        ip: bytes.take(16),
                        port: crate::serial::le_value(bytes.subrange(16, 18)) as u16,
                        flowinfo: 0,
                        scope_id: REDIRECT6_SCOPE_ID,
                    },
                    REDIRECT6_LEN as nat,
                ),
            )
        }
    }

    open spec fn canonical(v: Redirect6View) -> bool {
        &&& v.ip.len() == 16
        &&& v.flowinfo == 0
        &&& v.scope_id == REDIRECT6_SCOPE_ID
    }

    fn serialize(&self, out: &mut Vec<u8>) {
        append_bytes(out, &self.ip);
        self.port.serialize(out);
        0u16.serialize(out);
        assert(out@ =~= old(out)@ + Self::wire(self@));
    }

    fn deserialize(bytes: &[u8]) -> (r: Result<(Redirect6, usize), SerialError>) {
        if bytes.len() < REDIRECT6_LEN {
            return Err(SerialError::UnexpectedEof);
        }
        let ip: [u8; 16] = read_array(bytes, 0);
        let port = crate::serial::le_read_u16(vstd::slice::slice_subrange(bytes, 16, 18));
        proof {
            assert(bytes@.subrange(16, 18).take(2) =~= bytes@.subrange(16, 18));
            assert(bytes@.subrange(0, 16) =~= bytes@.take(16));
        }
        Ok((Redirect6 { ip, port, flowinfo: 0, scope_id: REDIRECT6_SCOPE_ID }, REDIRECT6_LEN))
    }

    proof fn lemma_roundtrip(v: Redirect6View, rest: Seq<u8>) {
        let p = <u16 as Serial>::wire(v.port);
        let z = <u16 as Serial>::wire(0);
        lemma_le_bytes_len(v.port as nat, 2);
        lemma_le_bytes_len(0, 2);
        let all = v.ip + p + z + rest;
        assert(all.take(16) =~= v.ip);
        assert(all.subrange(16, 18) =~= (p + (z + rest)).take(2));
        <u16 as Serial>::lemma_roundtrip(v.port, z + rest);
    }
}

/// The IPv6 redirect payload holds the 16 address octets in order, then the
/// port, least significant byte first, then two zero bytes, 20 bytes in all.
pub proof fn lemma_redirect6_layout(r: Redirect6View)
    requires
        <Redirect6 as Serial>::canonical(r),
    ensures
        ({
            let w = <Redirect6 as Serial>::wire(r);
            &&& w.len() == REDIRECT6_LEN
            &&& forall|i: int| 0 <= i < 16 ==> #[trigger] w[i] == r.ip[i]
            &&& w.take(16) == r.ip
            &&& w[16] == r.port % 256
            &&& w[17] == r.port / 256
            &&& w[18] == 0
            &&& w[19] == 0
        }),
{
    let w = <Redirect6 as Serial>::wire(r);
    lemma_le_bytes_len(r.port as nat, 2);
    lemma_le_bytes_len(0, 2);
    reveal_with_fuel(crate::serial::le_bytes, 3);
    assert(w.take(16) =~= r.ip);
}

/// Reading an IPv6 redirect from 20 bytes or more takes the address octets
/// in order from the first 16 bytes and the port from the next two, least
/// significant byte first; the flow info reads as 0 and the scope id as
/// `REDIRECT6_SCOPE_ID`. From fewer bytes it fails for want of bytes.
pub proof fn lemma_redirect6_read_layout(bytes: Seq<u8>)
    ensures
        bytes.len() >= REDIRECT6_LEN ==> (<Redirect6 as Serial>::read_wire(bytes) matches Ok((r, n))
            && {
            &&& n == REDIRECT6_LEN
            &&& r.ip.len() == 16
            &&& forall|i: int| 0 <= i < 16 ==> #[trigger] r.ip[i] == bytes[i]
            &&& r.port == bytes[16] + 256 * bytes[17]
            &&& r.flowinfo == 0
            &&& r.scope_id == REDIRECT6_SCOPE_ID
        }),
        bytes.len() < REDIRECT6_LEN ==> <Redirect6 as Serial>::read_wire(bytes) == Err::<
            (Redirect6View, nat),
            SerialError,
        >(SerialError::UnexpectedEof),
{
    if bytes.len() >= REDIRECT6_LEN {
        let s = bytes.subrange(16, 18);
        reveal_with_fuel(crate::serial::le_value, 3);
        assert(s.drop_first().drop_first().len() == 0);
        assert(crate::serial::le_value(s) == bytes[16] + 256 * bytes[17]);
    }
}

/// The IPv4 redirect payload holds the 4 address octets in order, then the
/// port, least significant byte first, then two zero bytes, 8 bytes in all.
pub proof fn lemma_redirect4_layout(r: Redirect4View)
    requires
        <Redirect4 as Serial>::canonical(r),
    ensures
        ({
            let w = <Redirect4 as Serial>::wire(r);
            &&& w.len() == REDIRECT4_LEN
            &&& forall|i: int| 0 <= i < 4 ==> #[trigger] w[i] == r.ip[i]
            &&& w.take(4) == r.ip
            &&& w[4] == r.port % 256
            &&& w[5] == r.port / 256
            &&& w[6] == 0
            &&& w[7] == 0
        }),
{
    let w = <Redirect4 as Serial>::wire(r);
    lemma_le_bytes_len(r.port as nat, 2);
    lemma_le_bytes_len(0, 2);
    reveal_with_fuel(crate::serial::le_bytes, 3);
    assert(w.take(4) =~= r.ip);
}

/// Reading an IPv4 redirect from 8 bytes or more takes the address octets in
/// order from the first 4 bytes and the port from the next two, least
/// significant byte first. From fewer bytes it fails for want of bytes.
pub proof fn lemma_redirect4_read_layout(bytes: Seq<u8>)
    ensures
        bytes.len() >= REDIRECT4_LEN ==> (<Redirect4 as Serial>::read_wire(bytes) matches Ok((r, n))
            && {
            &&& n == REDIRECT4_LEN
            &&& r.ip.len() == 4
            &&& forall|i: int| 0 <= i < 4 ==> #[trigger] r.ip[i] == bytes[i]
            &&& r.port == bytes[4] + 256 * bytes[5]
        }),
        bytes.len() < REDIRECT4_LEN ==> <Redirect4 as Serial>::read_wire(bytes) == Err::<
            (Redirect4View, nat),
            SerialError,
        >(SerialError::UnexpectedEof),
{
    if bytes.len() >= REDIRECT4_LEN {
        let s = bytes.subrange(4, 6);
        reveal_with_fuel(crate::serial::le_value, 3);
        assert(s.drop_first().drop_first().len() == 0);
        assert(crate::serial::le_value(s) == bytes[4] + 256 * bytes[5]);
    }
}

} // verus!
