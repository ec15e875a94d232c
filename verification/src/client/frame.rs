//! Framing of messages on an encrypted connection.
//!
//! Each direction of a connection has its own cipher. A connection starts
//! without ciphers; the first welcome that passes starts them: the side that
//! sees it codes its own direction from the welcome's server seed and hands
//! the other direction a cipher made from the client seed.
//!
//! A writer puts a whole message through its cipher at once. A reader decodes
//! the four header bytes first, learns from them how long the body is, and
//! then decodes the body.
use vstd::prelude::*;

use crate::crypto::{
    codec_output,
    codec_state,
    initial_state,
    lemma_codec_in_pieces,
    lemma_codec_involution,
    Cipher,
    CipherView,
    CodecError,
};
use crate::msg::common::WelcomeView;
use crate::msg::{
    lemma_msg_wire_shape,
    round_up,
    Msg,
    MsgView,
    HEADER_LEN,
};
use crate::serial::{append_bytes, le_read_u16, le_value, Serial, SerialError};

verus! {

/// The state of an optional cipher.
pub open spec fn cipher_state(c: Option<Cipher>) -> Option<CipherView> {
    match c {
        Some(x) => Some(x@),
        None => None,
    }
}

/// `b` coded with the cipher in state `st`, or `b` itself without a cipher.
pub open spec fn coded(st: Option<CipherView>, b: Seq<u8>) -> Seq<u8> {
    match st {
        Some(s) => codec_output(s, b),
        None => b,
    }
}

/// The cipher state after coding `b` from state `st`.
pub open spec fn coded_state(st: Option<CipherView>, b: Seq<u8>) -> Option<CipherView> {
    match st {
        Some(s) => Some(codec_state(s, b)),
        None => None,
    }
}

/// The number of body bytes a reader takes after a header whose size field
/// is `size`: none when the size does not exceed the header, otherwise
/// `round_up(size - 4, 4)`.
pub open spec fn body_len(size: nat) -> nat {
    if size <= HEADER_LEN {
        0
    } else if (size - HEADER_LEN) % 4 == 0 {
        (size - HEADER_LEN) as nat
    } else {
        size
    }
}

/// Whether `m` is a welcome (of a login or a lobby server).
pub open spec fn is_welcome(m: MsgView) -> bool {
    m is LoginWelcome || m is ShipWelcome
}

/// The welcome that `m` carries, when it is one.
pub open spec fn welcome_of(m: MsgView) -> WelcomeView
    recommends
        is_welcome(m),
{
    match m {
        MsgView::LoginWelcome(_, w) => w,
        MsgView::ShipWelcome(_, w) => w,
        _ => arbitrary(),
    }
}

/// The (server, client) seeds of a welcome message, or nothing for other messages.
pub fn welcome_seeds_of(m: &Msg) -> (r: Option<(u32, u32)>)
    ensures
        r == if is_welcome(m@) {
            Some((welcome_of(m@).server_seed, welcome_of(m@).client_seed))
        } else {
            None
        },
{
    match m {
        Msg::LoginWelcome(_, w) => Some((w.server_seed, w.client_seed)),
        Msg::ShipWelcome(_, w) => Some((w.server_seed, w.client_seed)),
        _ => None,
    }
}

/// The welcomes of both kinds of server start the ciphers, and no other
/// message does. A welcome of a lobby server counts just as one of a login
/// server: a reader (`open_body`) or writer (`seal`) without a cipher that
/// passes either kind, with any flags, starts its cipher in
/// `initial_state(w.server_seed)` and hands back one in
/// `initial_state(w.client_seed)`, the seeds of that very welcome. Redirects,
/// license checks and other messages leave a cipher-less end without one.
pub proof fn lemma_welcomes_start_ciphers(f: u8, w: WelcomeView, m: MsgView)
    ensures
        is_welcome(MsgView::ShipWelcome(f, w)),
        welcome_of(MsgView::ShipWelcome(f, w)) == w,
        is_welcome(MsgView::LoginWelcome(f, w)),
        welcome_of(MsgView::LoginWelcome(f, w)) == w,
        (m is Unknown || m is Redirect4 || m is Redirect6 || m is HlCheck) ==> !is_welcome(m),
{
}

/// Why a reader could not take a message.
#[derive(Debug, Clone, Copy, PartialEq, Eq)]
pub enum FrameError {
    /// The body was not a whole number of words, so the cipher could not decode it.
    Codec(CodecError),
    /// The decoded bytes did not hold a message.
    Parse(SerialError),
}

/// Code `buf` with the optional cipher.
fn code_opt(cipher: &mut Option<Cipher>, buf: &mut [u8]) -> (r: Result<(), CodecError>)
    ensures
        cipher_state(*old(cipher)) is Some && old(buf)@.len() % 4 != 0 ==> {
            &&& r == Err::<(), CodecError>(CodecError::IllegalBufferSize)
            &&& final(buf)@ == old(buf)@
            &&& cipher_state(*final(cipher)) == cipher_state(*old(cipher))
        },
        !(cipher_state(*old(cipher)) is Some && old(buf)@.len() % 4 != 0) ==> {
            &&& r == Ok::<(), CodecError>(())
            &&& final(buf)@ == coded(cipher_state(*old(cipher)), old(buf)@)
            &&& cipher_state(*final(cipher)) == coded_state(cipher_state(*old(cipher)), old(buf)@)
        },
{
    match cipher {
        Some(c) => c.codec(buf),
        None => Ok(()),
    }
}

/// The reading end of one direction of a connection.
pub struct FrameReader {
    cipher: Option<Cipher>,
}

impl View for FrameReader {
    type V = Option<CipherView>;

    closed spec fn view(&self) -> Option<CipherView> {
        cipher_state(self.cipher)
    }
}

impl FrameReader {
    /// A reader that decodes with `cipher`, or reads plain bytes without one.
    pub fn new(cipher: Option<Cipher>) -> (r: FrameReader)
        ensures
            r@ == cipher_state(cipher),
    {
        FrameReader { cipher }
    }

    /// Whether the reader has its cipher yet.
    pub fn has_cipher(&self) -> (r: bool)
        ensures
            r == self@ is Some,
    {
        self.cipher.is_some()
    }

    /// Decode a header in place and say how many body bytes follow it.
    pub fn open_header(&mut self, header: &mut [u8; 4]) -> (n: u16)
        ensures
            final(header)@ == coded(old(self)@, old(header)@),
            final(self)@ == coded_state(old(self)@, old(header)@),
            n as nat == body_len(le_value(final(header)@.subrange(2, 4))),
    {
        let _ = code_opt(&mut self.cipher, header);
        let size_as_written = le_read_u16(vstd::slice::slice_subrange(header, 2, 4));
        proof {
            assert(header@.subrange(2, 4).take(2) =~= header@.subrange(2, 4));
        }
        if size_as_written <= 4 {
            0
        } else {
            round_up(size_as_written - 4, 4)
        }
    }

    /// Decode a body, read the message that header and body hold, and when it
    /// is a welcome and the reader has no cipher yet, start the reader's
    /// cipher from the welcome's server seed and hand back a cipher made from
    /// its client seed for the writer of the other direction.
    pub fn open_body(&mut self, header: &[u8; 4], body: Vec<u8>) -> (r: Result<
        (Msg, Option<Cipher>),
        FrameError,
    >)
        ensures
            old(self)@ is Some && body@.len() % 4 != 0 ==> {
                &&& r == Err::<(Msg, Option<Cipher>), FrameError>(
                    FrameError::Codec(CodecError::IllegalBufferSize),
                )
                &&& final(self)@ == old(self)@
            },
            !(old(self)@ is Some && body@.len() % 4 != 0) ==> {
                let st1 = coded_state(old(self)@, body@);
                match <Msg as Serial>::read_wire(header@ + coded(old(self)@, body@)) {
                    Err(e) => {
                        &&& r == Err::<(Msg, Option<Cipher>), FrameError>(FrameError::Parse(e))
                        &&& final(self)@ == st1
                    },
                    Ok((m, _)) => r matches Ok((x, peer)) && x@ == m && if old(self)@ is None
                        && is_welcome(m) {
                        &&& final(self)@ == Some(initial_state(welcome_of(m).server_seed))
                        &&& peer matches Some(p) && p@ == initial_state(welcome_of(m).client_seed)
                    } else {
                        &&& final(self)@ == st1
                        &&& peer is None
                    },
                }
            },
    {
        let mut body = body;
        let no_cipher = self.cipher.is_none();
        match code_opt(&mut self.cipher, body.as_mut_slice()) {
            Ok(()) => {},
            Err(e) => {
                return Err(FrameError::Codec(e));
            },
        }
        let mut combined: Vec<u8> = Vec::new();
        append_bytes(&mut combined, header);
        append_bytes(&mut combined, body.as_slice());
        match Msg::deserialize(combined.as_slice()) {
            Ok((m, _)) => {
                let mut peer: Option<Cipher> = None;
                if no_cipher {
                    match welcome_seeds_of(&m) {
                        Some((server_seed, client_seed)) => {
                            self.cipher = Some(Cipher::new(server_seed));
                            peer = Some(Cipher::new(client_seed));
                        },
                        None => {},
                    }
                }
                Ok((m, peer))
            },
            Err(e) => Err(FrameError::Parse(e)),
        }
    }
}

/// The writing end of one direction of a connection.
pub struct FrameWriter {
    cipher: Option<Cipher>,
}

impl View for FrameWriter {
    type V = Option<CipherView>;

    closed spec fn view(&self) -> Option<CipherView> {
        cipher_state(self.cipher)
    }
}

impl FrameWriter {
    /// A writer that codes with `cipher`, or writes plain bytes without one.
    pub fn new(cipher: Option<Cipher>) -> (r: FrameWriter)
        ensures
            r@ == cipher_state(cipher),
    {
        FrameWriter { cipher }
    }

    /// Whether the writer has its cipher yet.
    pub fn has_cipher(&self) -> (r: bool)
        ensures
            r == self@ is Some,
    {
        self.cipher.is_some()
    }

    /// The bytes that put `m` on the wire, coded with the writer's cipher
    /// when it has one. When `m` is a welcome and the writer has no cipher
    /// yet, the writer's cipher starts afterwards from the welcome's server
    /// seed, and a cipher made from its client seed is handed back for the
    /// reader of the other direction.
    pub fn seal(&mut self, m: &Msg) -> (r: (Vec<u8>, Option<Cipher>))
        ensures
            r.0@ == coded(old(self)@, <Msg as Serial>::wire(m@)),
            if old(self)@ is None && is_welcome(m@) {
                &&& final(self)@ == Some(initial_state(welcome_of(m@).server_seed))
                &&& r.1 matches Some(p) && p@ == initial_state(welcome_of(m@).client_seed)
            } else {
                &&& final(self)@ == coded_state(old(self)@, <Msg as Serial>::wire(m@))
                &&& r.1 is None
            },
    {
        let mut buf: Vec<u8> = Vec::new();
        m.serialize(&mut buf);
        proof {
            lemma_msg_wire_shape(m@);
        }
        let no_cipher = self.cipher.is_none();
        let _ = code_opt(&mut self.cipher, buf.as_mut_slice());
        let mut peer: Option<Cipher> = None;
        if no_cipher {
            match welcome_seeds_of(m) {
                Some((server_seed, client_seed)) => {
                    self.cipher = Some(Cipher::new(server_seed));
                    peer = Some(Cipher::new(client_seed));
                },
                None => {},
            }
        }
        (buf, peer)
    }
}

/// Coding a four-byte header and a whole number of words after it in one go,
/// then decoding the header and the rest separately, gives both back, and
/// leaves the decoder where the coder ended.
proof fn lemma_code_then_decode_in_two(st: Option<CipherView>, w1: Seq<u8>, w2: Seq<u8>)
    requires
        w1.len() == 4,
        w2.len() % 4 == 0,
    ensures
        ({
            let e = coded(st, w1 + w2);
            let st1 = coded_state(st, e.take(4));
            &&& e.len() == w1.len() + w2.len()
            &&& coded(st, e.take(4)) == w1
            &&& coded(st1, e.skip(4)) == w2
            &&& coded_state(st1, e.skip(4)) == coded_state(st, w1 + w2)
        }),
{
    match st {
        Some(s) => {
            lemma_codec_in_pieces(s, w1, w2);
            let e = codec_output(s, w1 + w2);
            let s1 = codec_state(s, w1);
            assert(e.take(4) =~= codec_output(s, w1));
            assert(e.skip(4) =~= codec_output(s1, w2));
            lemma_codec_involution(s, w1);
            lemma_codec_involution(s1, w2);
        },
        None => {
            assert((w1 + w2).take(4) =~= w1);
            assert((w1 + w2).skip(4) =~= w2);
        },
    }
}

/// What a reader gives back of what a writer wrote: when writer and reader
/// start from the same cipher state (or both have none), the reader decodes
/// the header of a written message, takes exactly the rest of the message as
/// body, reads back the message that was written, and ends in the state the
/// writer ended in.
pub proof fn lemma_frame_roundtrip(st: Option<CipherView>, m: MsgView)
    requires
        <Msg as Serial>::canonical(m),
    ensures
        ({
            let w = <Msg as Serial>::wire(m);
            let e = coded(st, w);
            let h = coded(st, e.take(4));
            let st1 = coded_state(st, e.take(4));
            let n = body_len(le_value(h.subrange(2, 4)));
            &&& e.len() == w.len()
            &&& 4 + n == e.len()
            &&& h == w.take(4)
            &&& coded(st1, e.subrange(4, 4 + n as int)) == w.skip(4)
            &&& <Msg as Serial>::read_wire(h + coded(st1, e.subrange(4, 4 + n as int))) == Ok::<
                (MsgView, nat),
                SerialError,
            >((m, w.len()))
            &&& coded_state(st1, e.subrange(4, 4 + n as int)) == coded_state(st, w)
        }),
{
    let w = <Msg as Serial>::wire(m);
    lemma_msg_wire_shape(m);
    let w1 = w.take(4);
    let w2 = w.skip(4);
    assert(w1 + w2 =~= w);
    lemma_code_then_decode_in_two(st, w1, w2);
    <Msg as Serial>::lemma_roundtrip(m, Seq::empty());
    assert(w + Seq::<u8>::empty() =~= w);
    let e = coded(st, w);
    assert(w1.subrange(2, 4) =~= w.subrange(2, 4));
    let n = body_len(le_value(w.subrange(2, 4)));
    assert(4 + n == w.len());
    assert(e.subrange(4, 4 + n as int) =~= e.skip(4));
}

} // verus!
