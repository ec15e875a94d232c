use telepipe::client::frame::{FrameError, FrameReader, FrameWriter};
use telepipe::crypto::{Cipher, CodecError};
use telepipe::msg::common::Welcome;
use telepipe::msg::Msg;

fn read_one(reader: &mut FrameReader, bytes: &[u8]) -> (Msg, Option<Cipher>, usize) {
    let mut header = [bytes[0], bytes[1], bytes[2], bytes[3]];
    let n = reader.open_header(&mut header) as usize;
    let body = bytes[4..4 + n].to_vec();
    let (m, peer) = reader.open_body(&header, body).unwrap();
    (m, peer, 4 + n)
}

#[test]
fn encrypted_message_reads_back() {
    let mut writer = FrameWriter::new(Some(Cipher::new(42)));
    let mut reader = FrameReader::new(Some(Cipher::new(42)));
    for i in 0..5u8 {
        let m = Msg::Unknown(0x60 + i, i, vec![i; 4 * (i as usize + 1)]);
        let (bytes, peer) = writer.seal(&m);
        assert!(peer.is_none());
        let (r, peer, used) = read_one(&mut reader, &bytes);
        assert!(peer.is_none());
        assert_eq!(used, bytes.len());
        assert_eq!(format!("{:?}", r), format!("{:?}", m));
    }
}

#[test]
fn welcome_starts_the_ciphers() {
    // The server side: the reader sees the server's welcome in plain bytes.
    let welcome = Msg::LoginWelcome(0, Welcome { copyright: "X".to_string(), server_seed: 11, client_seed: 22 });
    let mut plain_writer = FrameWriter::new(None);
    let (bytes, handed) = plain_writer.seal(&welcome);
    assert!(plain_writer.has_cipher());
    let handed = handed.unwrap();
    let mut reader = FrameReader::new(None);
    let (_, peer, _) = read_one(&mut reader, &bytes);
    assert!(reader.has_cipher());
    let peer = peer.unwrap();
    // Both ends made the same ciphers from the same seeds.
    let mut a = handed;
    let mut b = peer;
    assert_eq!(a.next_key(), b.next_key());
    // The next message goes through the server-seed ciphers on both ends.
    let m = Msg::Unknown(0x61, 0, vec![1, 2, 3, 4]);
    let (bytes, _) = plain_writer.seal(&m);
    let mut raw: Vec<u8> = Vec::new();
    telepipe::serial::Serial::serialize(&m, &mut raw);
    assert_ne!(bytes, raw);
    let (r, _, _) = read_one(&mut reader, &bytes);
    assert_eq!(format!("{:?}", r), format!("{:?}", m));
}

#[test]
fn second_welcome_keeps_the_cipher() {
    let mut writer = FrameWriter::new(Some(Cipher::new(1)));
    let welcome = Msg::ShipWelcome(0, Welcome::default());
    let (_, peer) = writer.seal(&welcome);
    assert!(peer.is_none());
}

#[test]
fn reader_rejects_partial_word_body() {
    let mut reader = FrameReader::new(Some(Cipher::new(9)));
    let header = [0x60, 0, 9, 0];
    let err = reader.open_body(&header, vec![1, 2, 3, 4, 5]).err().unwrap();
    assert_eq!(err, FrameError::Codec(CodecError::IllegalBufferSize));
}

#[test]
fn reader_reports_bad_message() {
    let mut reader = FrameReader::new(None);
    let header = [0x60, 0, 2, 0];
    let err = reader.open_body(&header, vec![]).err().unwrap();
    assert_eq!(err, FrameError::Parse(telepipe::serial::SerialError::InvalidSize));
}

#[test]
fn header_gives_body_length() {
    let mut reader = FrameReader::new(None);
    let mut h = [0x60, 0, 12, 0];
    assert_eq!(reader.open_header(&mut h), 8);
    let mut h = [0x60, 0, 4, 0];
    assert_eq!(reader.open_header(&mut h), 0);
    let mut h = [0x60, 0, 2, 0];
    assert_eq!(reader.open_header(&mut h), 0);
    let mut h = [0x60, 0, 13, 0];
    assert_eq!(reader.open_header(&mut h), 13);
}
