//! Fixed-length ASCII text fields.
//!
//! A text field of `n` bytes holds the ASCII bytes of a string followed by
//! zero bytes. Characters outside ASCII are written as `?`; a longer string is
//! cut at `n` bytes. Reading takes the bytes up to the first zero byte, and a
//! byte outside ASCII reads as U+FFFD.
use vstd::prelude::*;
use encoding::all::ASCII;
use encoding::DecoderTrap;
use encoding::EncoderTrap;
use encoding::Encoding;

use crate::serial::{SerialError, zero_bytes, append_bytes, append_zeros};

verus! {

/// The ASCII bytes of `cs`, with `?` for each character outside ASCII.
pub open spec fn ascii_encoded(cs: Seq<char>) -> Seq<u8> {
    cs.map_values(|c: char| if (c as u32) < 128 { (c as u32) as u8 } else { 63u8 })
}

/// The characters of the bytes `bs`, with U+FFFD for each byte outside ASCII.
pub open spec fn ascii_decoded(bs: Seq<u8>) -> Seq<char> {
    bs.map_values(|b: u8| if b < 128 { (b as u32) as char } else { '\u{FFFD}' })
}

/// `b` cut or padded with zero bytes to exactly `n` bytes.
pub open spec fn fit(b: Seq<u8>, n: nat) -> Seq<u8> {
    if b.len() >= n {
        b.take(n as int)
    } else {
        b + zero_bytes((n - b.len()) as nat)
    }
}

/// The `n`-byte text field that holds `cs`.
pub open spec fn ascii_field(cs: Seq<char>, n: nat) -> Seq<u8> {
    fit(ascii_encoded(cs), n)
}

/// The number of bytes before the first zero byte of `s` (all of `s` when
/// it holds none).
pub open spec fn text_len(s: Seq<u8>) -> nat
    decreases s.len(),
{
    if s.len() == 0 || s[0] == 0 {
        0
    } else {
        1 + text_len(s.drop_first())
    }
}

/// What reading an `n`-byte text field from the front of `bytes` gives.
pub open spec fn read_ascii_field(bytes: Seq<u8>, n: nat) -> Result<(Seq<char>, nat), SerialError> {
    if bytes.len() < n {
        Err(SerialError::UnexpectedEof)
    } else {
        let f = bytes.take(n as int);
        Ok((ascii_decoded(f.take(text_len(f) as int)), n))
    }
}

/// The strings that a text field of `n` bytes keeps unchanged: at most `n`
/// characters, each in ASCII and none of them NUL.
pub open spec fn ascii_text_fits(cs: Seq<char>, n: nat) -> bool {
    &&& cs.len() <= n
    &&& forall|i: int| 0 <= i < cs.len() ==> 0 < (#[trigger] cs[i] as u32) < 128
}

/// `ASCII.encode(s, EncoderTrap::Replace)` of the encoding crate writes the
/// byte of each ASCII character of `s` and `?` for each other character; with
/// this trap it does not fail.
#[verifier::external_body]
fn ascii_encode(s: &str) -> (r: Vec<u8>)
    ensures
        r@ == ascii_encoded(s@),
{
    ASCII.encode(s, EncoderTrap::Replace).unwrap_or_default()
}

/// `ASCII.decode(bytes, DecoderTrap::Replace)` of the encoding crate gives the
/// character of each ASCII byte and U+FFFD for each other byte; with this trap
/// it does not fail.
#[verifier::external_body]
fn ascii_decode(bytes: &[u8]) -> (r: String)
    ensures
        r@ == ascii_decoded(bytes@),
{
    ASCII.decode(bytes, DecoderTrap::Replace).unwrap_or_default()
}

/// Append the `len`-byte text field that holds `s` to `out`.
pub fn write_ascii_len(s: &str, len: usize, out: &mut Vec<u8>)
    ensures
        final(out)@ == old(out)@ + ascii_field(s@, len as nat),
{
    let enc = ascii_encode(s);
    if enc.len() >= len {
        let part = vstd::slice::slice_subrange(enc.as_slice(), 0, len);
        append_bytes(out, part);
    } else {
        append_bytes(out, enc.as_slice());
        append_zeros(out, len - enc.len());
    }
}

/// Read a `len`-byte text field from the front of `bytes`.
pub fn read_ascii_len(len: usize, bytes: &[u8]) -> (r: Result<(String, usize), SerialError>)
    ensures
        match read_ascii_field(bytes@, len as nat) {
            Ok((cs, n)) => r matches Ok((s, m)) && s@ == cs && m == n,
            Err(e) => r == Err::<(String, usize), SerialError>(e),
        },
{
    if bytes.len() < len {
        return Err(SerialError::UnexpectedEof);
    }
    let ghost f = bytes@.take(len as int);
    let mut k: usize = 0;
    while k < len && bytes[k] != 0
        invariant
            k <= len,
            len <= bytes@.len(),
            f == bytes@.take(len as int),
            forall|j: int| 0 <= j < k ==> f[j] != 0,
        decreases len - k,
    {
        k = k + 1;
    }
    proof {
        lemma_text_len_skip(f, k as nat);
        if k < len {
            assert(f.skip(k as int)[0] == 0);
        }
        assert(f.take(k as int) =~= bytes@.subrange(0, k as int));
    }
    let text = vstd::slice::slice_subrange(bytes, 0, k);
    Ok((ascii_decode(text), len))
}

/// A fitted field has exactly the length asked for.
pub proof fn lemma_fit_len(b: Seq<u8>, n: nat)
    ensures
        fit(b, n).len() == n,
{
}

/// Skipping `k` non-zero bytes shortens the text by `k`.
pub proof fn lemma_text_len_skip(s: Seq<u8>, k: nat)
    requires
        k <= s.len(),
        forall|j: int| 0 <= j < k ==> s[j] != 0,
    ensures
        text_len(s) == k + text_len(s.skip(k as int)),
    decreases k,
{
    if k == 0 {
        assert(s.skip(0) =~= s);
    } else {
        let d = s.drop_first();
        lemma_text_len_skip(d, (k - 1) as nat);
        assert(d.skip(k - 1) =~= s.skip(k as int));
    }
}

/// A text field read back gives the string it was written from, when the
/// string fits the field.
pub proof fn lemma_ascii_field_roundtrip(cs: Seq<char>, n: nat, rest: Seq<u8>)
    requires
        ascii_text_fits(cs, n),
    ensures
        ascii_field(cs, n).len() == n,
        read_ascii_field(ascii_field(cs, n) + rest, n) == Ok::<(Seq<char>, nat), SerialError>(
            (cs, n),
        ),
{
    let enc = ascii_encoded(cs);
    let field = ascii_field(cs, n);
    assert forall|i: int| 0 <= i < enc.len() implies #[trigger] enc[i] != 0 && (((enc[i]
        as u32) as char) == cs[i]) by {
        let c = cs[i];
        assert(0 < (c as u32) < 128);
        let x = c as u32;
        assert(x < 128 ==> (x as u8) as u32 == x) by (bit_vector);
        assert(enc[i] as u32 == c as u32);
        assert(enc[i] != 0);
        vstd::utf8::char_u32_cast(c, c as u32);
    }
    if enc.len() >= n {
        assert(field =~= enc);
    }
    assert(field.len() == n);
    let f = (field + rest).take(n as int);
    assert(f =~= field);
    assert forall|j: int| 0 <= j < enc.len() implies f[j] != 0 by {
        assert(f[j] == enc[j]);
    }
    lemma_text_len_skip(f, enc.len());
    if enc.len() < n {
        assert(f.skip(enc.len() as int)[0] == 0);
    }
    assert(text_len(f) == enc.len());
    assert(f.take(enc.len() as int) =~= enc);
    assert(ascii_decoded(enc) =~= cs);
}

} // verus!
