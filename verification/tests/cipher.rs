use telepipe::crypto::{Cipher, CodecError};

fn sample(n: usize) -> Vec<u8> {
    (0..n).map(|i| (i * 37 + 11) as u8).collect()
}

#[test]
fn codec_twice_restores_data() {
    for seed in [0u32, 1, 0xFFFF_FFFF, 82376] {
        let start = sample(4 * 600);
        let mut data = start.clone();
        Cipher::new(seed).codec(&mut data).unwrap();
        assert_ne!(data, start);
        Cipher::new(seed).codec(&mut data).unwrap();
        assert_eq!(data, start);
    }
}

#[test]
fn codec_in_pieces_matches_whole() {
    let start = sample(4 * 700);
    let mut whole = start.clone();
    Cipher::new(77).codec(&mut whole).unwrap();
    let mut pieces = start.clone();
    let mut c = Cipher::new(77);
    let (a, b) = pieces.split_at_mut(4);
    c.codec(a).unwrap();
    let (b1, b2) = b.split_at_mut(4 * 300);
    c.codec(b1).unwrap();
    c.codec(b2).unwrap();
    assert_eq!(whole, pieces);
}

#[test]
fn encode_word_matches_codec() {
    let mut a = Cipher::new(5);
    let mut b = Cipher::new(5);
    for i in 0..1100u32 {
        let v = i.wrapping_mul(0x9E37_79B9);
        let mut bytes = v.to_le_bytes();
        a.codec(&mut bytes).unwrap();
        assert_eq!(u32::from_le_bytes(bytes), b.encode_word(v));
    }
}

#[test]
fn next_key_is_xor_with_zero() {
    let mut a = Cipher::new(99);
    let mut b = Cipher::new(99);
    for _ in 0..1050 {
        assert_eq!(a.next_key(), b.encode_word(0));
    }
}

#[test]
fn first_key_is_first_table_entry_after_a_mix() {
    // A fresh cipher sits on the last live entry, so the first key drawn
    // comes after mixing the table again; a second fresh cipher agrees.
    let mut c = Cipher::new(0);
    let first = c.next_key();
    let second = c.next_key();
    assert_eq!(c.key_table()[1], second);
    assert_eq!(c.key_table()[0], first);
    assert_eq!(Cipher::new(0).next_key(), first);
}

#[test]
fn table_tail_stays_zero() {
    let mut c = Cipher::new(1234);
    for _ in 0..2000 {
        c.next_key();
    }
    assert_eq!(c.key_table().len(), 528);
    assert_eq!(&c.key_table()[521..], &[0u32; 7]);
}

#[test]
fn codec_rejects_partial_words_without_change() {
    let mut a = Cipher::new(3);
    let mut b = Cipher::new(3);
    let mut data = vec![1u8, 2, 3, 4, 5];
    assert_eq!(a.codec(&mut data), Err(CodecError::IllegalBufferSize));
    assert_eq!(data, vec![1, 2, 3, 4, 5]);
    // The failed call drew no keys.
    assert_eq!(a.next_key(), b.next_key());
}
