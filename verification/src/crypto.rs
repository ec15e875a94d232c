//! PSO GameCube's cryptography functions.
//!
//! The cipher is a stream cipher: a table of 521 live 32-bit keys, filled
//! from a 32-bit seed, hands out one key per 32-bit word of data. Data is
//! XORed with the keys, byte by byte in little-endian order, so applying the
//! same key stream twice gives the data back. Keys handed out one at a time
//! (`next_key`, `encode_word`) are converted to little endian from the
//! target's byte order.
use vstd::prelude::*;

verus! {

/// Number of live entries in the key table.
pub const NUM_KEYS: usize = 521;

/// Length of the stored key table; entries past `NUM_KEYS` stay zero.
pub const TABLE_LEN: usize = 528;

/// The abstract state of a cipher: the read position, the key table and the seed.
pub struct CipherView {
    pub pos: int,
    pub keys: Seq<u32>,
    pub seed: u32,
}

// ---------------------------------------------------------------------------
// Key schedule
// ---------------------------------------------------------------------------

/// One step of the seed generator: `seed * 0x5D588B65 + 1`, wrapping.
pub open spec fn lcg_next(s: u32) -> u32 {
    vstd::wrapping::u32_specs::wrapping_add(
        vstd::wrapping::u32_specs::wrapping_mul(s, 0x5D588B65u32),
        1u32,
    )
}

/// One step of the bit collector: advance the seed, shift the collected key
/// right and put the top bit of the new seed in its top bit.
pub open spec fn collect_step(st: (u32, u32)) -> (u32, u32) {
    let s = lcg_next(st.0);
    let b = st.1 >> 1u32;
    (s, if s & 0x80000000u32 != 0 { b | 0x80000000u32 } else { b & 0x7FFFFFFFu32 })
}

/// The (seed, collected key) pair after `n` steps from `(seed, 0)`.
pub open spec fn collect(seed: u32, n: nat) -> (u32, u32)
    decreases n,
{
    if n == 0 {
        (seed, 0u32)
    } else {
        collect_step(collect(seed, (n - 1) as nat))
    }
}

/// The `j`-th key drawn from the seed: the collected key after `32 * (j + 1)` steps.
pub open spec fn seed_key(seed: u32, j: nat) -> u32 {
    collect(seed, 32 * (j + 1)).1
}

/// The first entries of the key table, before mixing: keys 0 to 15 come from
/// the seed, key 16 combines seed keys 0, 15 and 16, and each later key
/// combines the keys 1, 17 and 16 places before it.
pub open spec fn expand(seed: u32, n: nat) -> Seq<u32>
    decreases n,
{
    if n <= 16 {
        Seq::new(n, |j: int| seed_key(seed, j as nat))
    } else if n == 17 {
        Seq::new(16, |j: int| seed_key(seed, j as nat)).push(
            ((seed_key(seed, 0) >> 9u32) ^ (seed_key(seed, 16) << 23u32)) ^ seed_key(seed, 15),
        )
    } else {
        let t = expand(seed, (n - 1) as nat);
        t.push(
            t[n - 2] ^ (((t[n - 18] << 23u32) & 0xFF800000u32) ^ ((t[n - 17] >> 9u32)
                & 0x007FFFFFu32)),
        )
    }
}

/// A sequence of `n` zeros.
pub open spec fn zeros(n: nat) -> Seq<u32> {
    Seq::new(n, |i: int| 0u32)
}

/// The entry that key `i` is XORed with when the table is mixed.
pub open spec fn mix_source(i: int) -> int {
    if i < 32 {
        i + 489
    } else {
        i - 32
    }
}

/// The table after the first `n` live entries have been mixed, in order:
/// entry `i` becomes `entry[mix_source(i)] ^ entry[i]`, where entries below
/// `i` already hold their mixed value.
pub open spec fn mix_prefix(k: Seq<u32>, n: nat) -> Seq<u32>
    decreases n,
{
    if n == 0 {
        k
    } else {
        let p = mix_prefix(k, (n - 1) as nat);
        p.update(n - 1, p[mix_source(n - 1)] ^ p[n - 1])
    }
}

/// The table after one full mix of its 521 live entries.
pub open spec fn mixed(k: Seq<u32>) -> Seq<u32> {
    mix_prefix(k, NUM_KEYS as nat)
}

/// The key table filled from `seed` over a table whose entries past the live
/// ones are `tail`: the expanded keys followed by `tail`, mixed three times.
pub open spec fn keyed_table(seed: u32, tail: Seq<u32>) -> Seq<u32> {
    mixed(mixed(mixed(expand(seed, NUM_KEYS as nat) + tail)))
}

/// The state of a cipher freshly made from `seed` (its table starts zeroed).
pub open spec fn initial_state(seed: u32) -> CipherView {
    CipherView { pos: 520, keys: keyed_table(seed, zeros(7)), seed }
}

// ---------------------------------------------------------------------------
// Key stream
// ---------------------------------------------------------------------------

/// Drawing one key: move to the next entry; past the last live entry, mix the
/// table and start over at entry 0. Returns the new state and the key.
pub open spec fn next_key_step(st: CipherView) -> (CipherView, u32) {
    if st.pos + 1 >= NUM_KEYS {
        let k = mixed(st.keys);
        (CipherView { pos: 0, keys: k, seed: st.seed }, k[0])
    } else {
        (CipherView { pos: st.pos + 1, keys: st.keys, seed: st.seed }, st.keys[st.pos + 1])
    }
}

/// The state after drawing `n` keys.
pub open spec fn advance(st: CipherView, n: nat) -> CipherView
    decreases n,
{
    if n == 0 {
        st
    } else {
        next_key_step(advance(st, (n - 1) as nat)).0
    }
}

/// The `i`-th key drawn from `st` (counting from 0).
pub open spec fn key_at(st: CipherView, i: nat) -> u32 {
    next_key_step(advance(st, i)).1
}

/// The first `n` keys drawn from `st`.
pub open spec fn keystream(st: CipherView, n: nat) -> Seq<u32> {
    Seq::new(n, |i: int| key_at(st, i as nat))
}

/// Byte `b` (0 to 3) of key `k` in little-endian order.
pub open spec fn key_byte(k: u32, b: int) -> u8 {
    ((k >> ((8 * b) as u32)) & 0xffu32) as u8
}

/// `buf` with byte `i` XORed with byte `i % 4` of key `i / 4`.
pub open spec fn apply_keystream(buf: Seq<u8>, ks: Seq<u32>) -> Seq<u8> {
    Seq::new(buf.len(), |i: int| buf[i] ^ key_byte(ks[i / 4], i % 4))
}

/// What `codec` makes of `buf` from state `st`.
pub open spec fn codec_output(st: CipherView, buf: Seq<u8>) -> Seq<u8> {
    apply_keystream(buf, keystream(st, buf.len() / 4))
}

/// The state `codec` leaves after coding `buf` from state `st`.
pub open spec fn codec_state(st: CipherView, buf: Seq<u8>) -> CipherView {
    advance(st, buf.len() / 4)
}

// ---------------------------------------------------------------------------
// Byte order of a drawn key
// ---------------------------------------------------------------------------

/// `x` with its four bytes in the opposite order.
pub open spec fn swap_word_bytes(x: u32) -> u32 {
    ((x & 0xffu32) << 24u32) | (((x >> 8u32) & 0xffu32) << 16u32) | (((x >> 16u32) & 0xffu32)
        << 8u32) | (x >> 24u32)
}

/// `x` converted to little endian from the byte order of the machine that
/// runs the code: `x` itself on a little-endian machine, `x` with its bytes
/// swapped on a big-endian one.
pub open spec fn word_to_le_spec(x: u32) -> u32 {
    match vstd::endian::endianness() {
        vstd::endian::Endian::Little => x,
        vstd::endian::Endian::Big => swap_word_bytes(x),
    }
}

/// `u32::to_le`: on a little-endian target it returns `x`; on a big-endian
/// target it returns `x` with its bytes swapped.
#[verifier::external_body]
fn word_to_le(x: u32) -> (r: u32)
    ensures
        r == word_to_le_spec(x),
{
    x.to_le()
}

// ---------------------------------------------------------------------------
// The cipher
// ---------------------------------------------------------------------------

/// An instance of a PSOGC cipher.
pub struct Cipher {
    pos: usize,
    keys: [u32; TABLE_LEN],
    seed: u32,
}

impl View for Cipher {
    type V = CipherView;

    closed spec fn view(&self) -> CipherView {
        CipherView { pos: self.pos as int, keys: self.keys@, seed: self.seed }
    }
}

/// An error in Cipher::codec.
#[derive(Debug, Clone, Copy, PartialEq, Eq)]
pub enum CodecError {
    /// The buffer given was not a multiple of 4 bytes long.
    IllegalBufferSize,
}

impl Cipher {
    /// Make the cipher for `seed`.
    pub fn new(seed: u32) -> (ret: Cipher)
        ensures
            ret@ == initial_state(seed),
    {
        let mut ret = Cipher { pos: 0, keys: [0u32; TABLE_LEN], seed: seed };
        assert(ret@.keys.skip(NUM_KEYS as int) =~= zeros(7));
        ret.initialize();
        ret
    }

    /// The stored key table (its live part and the zero tail).
    pub fn key_table(&self) -> (r: &[u32])
        ensures
            r@ == self@.keys,
    {
        self.keys.as_slice()
    }

    /// Use the cipher over the given buffer, mutating in-place, and updating
    /// the cipher state in the process. The buffer's length must be a
    /// multiple of 4; otherwise nothing changes and an error is returned.
    pub fn codec(&mut self, buf: &mut [u8]) -> (r: Result<(), CodecError>)
        ensures
            old(buf)@.len() % 4 != 0 ==> {
                &&& r == Err::<(), CodecError>(CodecError::IllegalBufferSize)
                &&& final(buf)@ == old(buf)@
                &&& final(self)@ == old(self)@
            },
            old(buf)@.len() % 4 == 0 ==> {
                &&& r == Ok::<(), CodecError>(())
                &&& final(buf)@ == codec_output(old(self)@, old(buf)@)
                &&& final(self)@ == codec_state(old(self)@, old(buf)@)
            },
    {
        if buf.len() % 4 != 0 {
            return Err(CodecError::IllegalBufferSize);
        }
        let ghost st0 = self@;
        let ghost b0 = buf@;
        if buf.len() == 0 {
            assert(buf@ =~= codec_output(st0, b0));
            return Ok(());
        }
        let blen = buf.len();
        let n = blen / 4;
        let mut j: usize = 0;
        while j < n
            invariant
                b0.len() % 4 == 0,
                n == b0.len() / 4,
                4 * n == b0.len(),
                blen == b0.len(),
                j <= n,
                buf@.len() == b0.len(),
                self@ == advance(st0, j as nat),
                forall|i: int|
                    0 <= i < 4 * j ==> #[trigger] buf@[i] == b0[i] ^ key_byte(
                        key_at(st0, (i / 4) as nat),
                        i % 4,
                    ),
                forall|i: int| 4 * j <= i < b0.len() ==> #[trigger] buf@[i] == b0[i],
            decreases n - j,
        {
            let key = self.draw_key();
            let i = 4 * j;
            proof {
                assert(key == key_at(st0, j as nat));
                assert(key >> 0u32 == key) by (bit_vector);
                assert(key & 0xff <= 0xff && (key >> 8) & 0xff <= 0xff && (key >> 16) & 0xff
                    <= 0xff && (key >> 24) & 0xff <= 0xff) by (bit_vector);
            }
            buf[i] = buf[i] ^ ((key & 0xff) as u8);
            buf[i + 1] = buf[i + 1] ^ (((key >> 8) & 0xff) as u8);
            buf[i + 2] = buf[i + 2] ^ (((key >> 16) & 0xff) as u8);
            buf[i + 3] = buf[i + 3] ^ (((key >> 24) & 0xff) as u8);
            j = j + 1;
            proof {
                assert forall|i2: int| 0 <= i2 < 4 * j implies #[trigger] buf@[i2] == b0[i2]
                    ^ key_byte(key_at(st0, (i2 / 4) as nat), i2 % 4) by {
                    if i2 >= 4 * (j - 1) {
                        assert(i2 / 4 == j - 1);
                    }
                }
            }
        }
        assert(buf@ =~= codec_output(st0, b0));
        Ok(())
    }

    /// XOR one word with the next key (as `next_key` gives it).
    pub fn encode_word(&mut self, v: u32) -> (r: u32)
        ensures
            r == v ^ word_to_le_spec(next_key_step(old(self)@).1),
            final(self)@ == next_key_step(old(self)@).0,
    {
        v ^ self.next_key()
    }

    /// Fill the live entries of the key table from the seed, then mix it
    /// three times; the entries past the live ones stay as they were.
    fn initialize(&mut self)
        ensures
            final(self)@ == (CipherView {
                pos: 520,
                keys: keyed_table(old(self)@.seed, old(self)@.keys.skip(NUM_KEYS as int)),
                seed: old(self)@.seed,
            }),
            forall|i: int|
                NUM_KEYS <= i < TABLE_LEN ==> #[trigger] final(self)@.keys[i] == old(self)@.keys[i],
            final(self)@.keys.take(NUM_KEYS as int) == initial_state(old(self)@.seed).keys.take(
                NUM_KEYS as int,
            ),
    {
        let ghost s0 = self.seed;
        let ghost k0 = self.keys@;
        let mut base_key: u32 = 0;
        let mut seed = self.seed;
        let mut pos: usize = 0;
        while pos < 17
            invariant
                pos <= 17,
                self.seed == s0,
                self.keys@.len() == TABLE_LEN,
                k0.len() == TABLE_LEN,
                (seed, base_key) == collect(s0, 32 * pos as nat),
                forall|j: int| 0 <= j < pos ==> self.keys@[j] == seed_key(s0, j as nat),
                forall|j: int| pos <= j < TABLE_LEN ==> self.keys@[j] == k0[j],
            decreases 17 - pos,
        {
            let mut y: usize = 0;
            while y < 32
                invariant
                    y <= 32,
                    (seed, base_key) == collect(s0, (32 * pos + y) as nat),
                decreases 32 - y,
            {
                seed = seed.wrapping_mul(0x5D588B65);
                base_key = base_key >> 1;
                seed = seed.wrapping_add(1);
                base_key = if seed & 0x80000000 != 0 {
                    base_key | 0x80000000
                } else {
                    base_key & 0x7FFFFFFF
                };
                y = y + 1;
            }
            self.keys[pos] = base_key;
            pos = pos + 1;
        }
        let mut source1: usize = 0;
        let mut source2: usize = 1;
        pos = pos - 1;
        let v = ((self.keys[0] >> 9) ^ (self.keys[pos] << 23)) ^ self.keys[15];
        self.keys[pos] = v;
        let mut source3: usize = pos;
        pos = pos + 1;
        assert(self.keys@ =~= expand(s0, 17) + k0.skip(17));
        while pos != NUM_KEYS
            invariant
                17 <= pos <= NUM_KEYS,
                source1 == pos - 17,
                source2 == pos - 16,
                source3 == pos - 1,
                self.seed == s0,
                self.keys@.len() == TABLE_LEN,
                k0.len() == TABLE_LEN,
                self.keys@ == expand(s0, pos as nat) + k0.skip(pos as int),
            decreases NUM_KEYS - pos,
        {
            proof {
                lemma_expand_len(s0, pos as nat);
            }
            let v = self.keys[source3] ^ (((self.keys[source1] << 23) & 0xFF800000) ^ ((
            self.keys[source2] >> 9) & 0x007FFFFF));
            self.keys[pos] = v;
            pos = pos + 1;
            source1 = source1 + 1;
            source2 = source2 + 1;
            source3 = source3 + 1;
            proof {
                lemma_expand_len(s0, (pos - 1) as nat);
                assert(self.keys@ =~= expand(s0, pos as nat) + k0.skip(pos as int));
            }
        }
        mix_table(&mut self.keys);
        mix_table(&mut self.keys);
        mix_table(&mut self.keys);
        self.pos = 520;
        proof {
            lemma_expand_len(s0, NUM_KEYS as nat);
            let t0 = expand(s0, NUM_KEYS as nat) + k0.skip(NUM_KEYS as int);
            lemma_mixed_keeps_tail(t0);
            lemma_mixed_keeps_tail(mixed(t0));
            lemma_mixed_keeps_tail(mixed(mixed(t0)));
            assert forall|i: int| NUM_KEYS <= i < TABLE_LEN implies #[trigger] self@.keys[i]
                == k0[i] by {
                assert(t0[i] == k0[i]);
            }
            lemma_keyed_table_live_only(s0, k0.skip(NUM_KEYS as int), zeros(7));
        }
    }

    /// Mix the key table and return to its start.
    fn mix(&mut self)
        ensures
            final(self)@ == (CipherView { pos: 0, keys: mixed(old(self)@.keys), seed: old(self)@.seed }),
    {
        self.pos = 0;
        mix_table(&mut self.keys);
    }

    /// Draw the next table entry, as stored.
    fn draw_key(&mut self) -> (key: u32)
        ensures
            (final(self)@, key) == next_key_step(old(self)@),
    {
        if self.pos >= NUM_KEYS - 1 {
            self.mix();
        } else {
            self.pos = self.pos + 1;
        }
        self.keys[self.pos]
    }

    /// Draw the next key, converted to little endian from the target's byte
    /// order (unchanged on a little-endian target, bytes swapped on a
    /// big-endian one).
    pub fn next_key(&mut self) -> (key: u32)
        ensures
            final(self)@ == next_key_step(old(self)@).0,
            key == word_to_le_spec(next_key_step(old(self)@).1),
    {
        word_to_le(self.draw_key())
    }
}

/// Mix the 521 live entries of a table in place.
fn mix_table(keys: &mut [u32; TABLE_LEN])
    ensures
        final(keys)@ == mixed(old(keys)@),
{
    let ghost k0 = keys@;
    let mut r5: usize = 0;
    let mut r6: usize = 489;
    let mut r7: usize = 0;
    while r6 != NUM_KEYS
        invariant
            r6 == r5 + 489,
            r5 <= 32,
            keys@.len() == TABLE_LEN,
            keys@ == mix_prefix(k0, r5 as nat),
        decreases NUM_KEYS - r6,
    {
        let r0 = keys[r6] ^ keys[r5];
        keys[r5] = r0;
        r6 = r6 + 1;
        r5 = r5 + 1;
    }
    while r5 != NUM_KEYS
        invariant
            r7 + 32 == r5,
            32 <= r5 <= NUM_KEYS,
            keys@.len() == TABLE_LEN,
            keys@ == mix_prefix(k0, r5 as nat),
        decreases NUM_KEYS - r5,
    {
        let r0 = keys[r7] ^ keys[r5];
        keys[r5] = r0;
        r7 = r7 + 1;
        r5 = r5 + 1;
    }
}

// ---------------------------------------------------------------------------
// Laws
// ---------------------------------------------------------------------------

/// Coding is its own inverse: coding a buffer twice from the same cipher
/// state gives the buffer back. Two ciphers made from the same seed are in the
/// same state, so one of them decodes what the other encoded.
pub proof fn lemma_codec_involution(st: CipherView, buf: Seq<u8>)
    ensures
        codec_output(st, codec_output(st, buf)) == buf,
{
    let once = codec_output(st, buf);
    let twice = codec_output(st, once);
    assert forall|i: int| 0 <= i < buf.len() implies #[trigger] twice[i] == buf[i] by {
        let x = buf[i];
        let k = key_byte(keystream(st, buf.len() / 4)[i / 4], i % 4);
        assert((x ^ k) ^ k == x) by (bit_vector);
    }
    assert(twice =~= buf);
}

/// Drawing `a` keys and then `b` keys is drawing `a + b` keys.
pub proof fn lemma_advance_add(st: CipherView, a: nat, b: nat)
    ensures
        advance(st, a + b) == advance(advance(st, a), b),
    decreases b,
{
    if b > 0 {
        lemma_advance_add(st, a, (b - 1) as nat);
    }
}

/// The key stream continues where it left off: the keys drawn after the
/// first `a` keys are the keys drawn from the state those `a` keys leave.
pub proof fn lemma_keystream_split(st: CipherView, a: nat, b: nat)
    ensures
        keystream(st, a + b) == keystream(st, a) + keystream(advance(st, a), b),
{
    assert forall|i: int| a <= i < a + b implies #[trigger] keystream(st, a + b)[i] == keystream(
        advance(st, a),
        b,
    )[i - a] by {
        lemma_advance_add(st, a, (i - a) as nat);
    }
    assert(keystream(st, a + b) =~= keystream(st, a) + keystream(advance(st, a), b));
}

/// Coding a buffer in two pieces, the first a whole number of words long,
/// (both pieces a whole number of words long) gives the same bytes and the
/// same final state as coding it in one go.
/// This is what lets a reader decode a message header and its body
/// separately while the writer encoded the whole message at once.
pub proof fn lemma_codec_in_pieces(st: CipherView, b1: Seq<u8>, b2: Seq<u8>)
    requires
        b1.len() % 4 == 0,
        b2.len() % 4 == 0,
    ensures
        codec_output(st, b1 + b2) == codec_output(st, b1) + codec_output(
            codec_state(st, b1),
            b2,
        ),
        codec_state(st, b1 + b2) == codec_state(codec_state(st, b1), b2),
{
    let a = b1.len() / 4;
    let b = b2.len() / 4;
    let whole = b1 + b2;
    assert(whole.len() / 4 == a + b);
    lemma_keystream_split(st, a, b);
    lemma_advance_add(st, a, b);
    let ks = keystream(st, a + b);
    let left = codec_output(st, b1);
    let right = codec_output(codec_state(st, b1), b2);
    assert forall|i: int| 0 <= i < whole.len() implies #[trigger] codec_output(st, whole)[i] == (
    left + right)[i] by {
        if i >= b1.len() {
            let j = i - b1.len();
            assert(i / 4 == a + j / 4);
            assert(i % 4 == j % 4);
            assert(j / 4 < b);
            assert(ks[i / 4] == keystream(advance(st, a), b)[j / 4]);
            assert(whole[i] == b2[j]);
        } else {
            assert(i / 4 < a);
            assert(ks[i / 4] == keystream(st, a)[i / 4]);
            assert(whole[i] == b1[i]);
        }
    }
    assert(codec_output(st, whole) =~= left + right);
}

/// A state a cipher can be in: its position on a live entry and its table at
/// full length.
pub open spec fn live_state(st: CipherView) -> bool {
    0 <= st.pos < NUM_KEYS && st.keys.len() == TABLE_LEN
}

/// A fresh cipher is in a live state with its seed.
pub proof fn lemma_initial_state_live(seed: u32)
    ensures
        live_state(initial_state(seed)),
        initial_state(seed).seed == seed,
{
    lemma_expand_len(seed, NUM_KEYS as nat);
    let t0 = expand(seed, NUM_KEYS as nat) + zeros(7);
    lemma_mixed_keeps_tail(t0);
    lemma_mixed_keeps_tail(mixed(t0));
    lemma_mixed_keeps_tail(mixed(mixed(t0)));
}

/// Drawing any number of keys keeps a cipher in a live state and keeps its
/// seed: the position stays at most 520 and the table keeps its 528 entries,
/// so every later draw reads inside the table. With
/// `lemma_initial_state_live`, this holds of every cipher made by `new` and
/// then used through `next_key`, `encode_word` and `codec`, whose new states
/// are `advance`s of the old.
pub proof fn lemma_advance_stays_live(st: CipherView, n: nat)
    requires
        live_state(st),
    ensures
        live_state(advance(st, n)),
        advance(st, n).seed == st.seed,
    decreases n,
{
    if n > 0 {
        lemma_advance_stays_live(st, (n - 1) as nat);
        lemma_mixed_keeps_tail(advance(st, (n - 1) as nat).keys);
    }
}

/// One draw from a position short of the last live entry moves one entry on
/// and hands out that entry as it stands, without mixing the table; only a
/// draw from the last live entry (position 520) mixes the table, starts over
/// at entry 0 and hands out entry 0 of the mixed table.
pub proof fn lemma_draw_mixes_only_at_end(st: CipherView)
    requires
        0 <= st.pos < NUM_KEYS,
    ensures
        st.pos < NUM_KEYS - 1 ==> next_key_step(st) == (
        CipherView { pos: st.pos + 1, keys: st.keys, seed: st.seed },
        st.keys[st.pos + 1],
        ),
        st.pos == NUM_KEYS - 1 ==> next_key_step(st) == (
        CipherView { pos: 0, keys: mixed(st.keys), seed: st.seed },
        mixed(st.keys)[0],
        ),
{
}

/// From the last live entry, the next `n` draws (`1 <= n <= 521`) mix the
/// table once and then walk it: they leave the cipher at entry `n - 1` of the
/// once-mixed table.
proof fn lemma_advance_after_mix(st: CipherView, n: nat)
    requires
        st.pos == NUM_KEYS - 1,
        1 <= n <= NUM_KEYS,
    ensures
        advance(st, n) == (CipherView { pos: n - 1, keys: mixed(st.keys), seed: st.seed }),
    decreases n,
{
    if n > 1 {
        lemma_advance_after_mix(st, (n - 1) as nat);
    } else {
        assert(advance(st, 0) == st);
    }
}

/// The key stream walks all 521 live entries between two mixes. From the last
/// live entry (where a fresh cipher stands), the first 521 keys drawn are
/// entries 0 to 520 of the once-mixed table, in order; the 522nd draw is the
/// first to mix again and hands out entry 0 of the twice-mixed table. After
/// 521 draws the cipher stands again on the last live entry, so the pattern
/// repeats with each further mix.
pub proof fn lemma_keystream_walks_table(st: CipherView)
    requires
        st.pos == NUM_KEYS - 1,
    ensures
        forall|i: nat| i < NUM_KEYS ==> #[trigger] key_at(st, i) == mixed(st.keys)[i as int],
        key_at(st, NUM_KEYS as nat) == mixed(mixed(st.keys))[0],
        advance(st, NUM_KEYS as nat) == (CipherView {
            pos: NUM_KEYS - 1,
            keys: mixed(st.keys),
            seed: st.seed,
        }),
{
    assert forall|i: nat| i < NUM_KEYS implies #[trigger] key_at(st, i) == mixed(st.keys)[i as int] by {
        if i > 0 {
            lemma_advance_after_mix(st, i);
        }
    }
    lemma_advance_after_mix(st, NUM_KEYS as nat);
}

proof fn lemma_mix_prefix_live_only(k1: Seq<u32>, k2: Seq<u32>, n: nat, i: int)
    requires
        n <= NUM_KEYS,
        k1.len() >= NUM_KEYS,
        k2.len() >= NUM_KEYS,
        k1.take(NUM_KEYS as int) == k2.take(NUM_KEYS as int),
        0 <= i < NUM_KEYS,
    ensures
        mix_prefix(k1, n)[i] == mix_prefix(k2, n)[i],
    decreases n,
{
    assert(k1[i] == k1.take(NUM_KEYS as int)[i]);
    assert(k2[i] == k2.take(NUM_KEYS as int)[i]);
    if n > 0 {
        lemma_mix_prefix_live_only(k1, k2, (n - 1) as nat, i);
        lemma_mix_prefix_live_only(k1, k2, (n - 1) as nat, (n - 1) as int);
        lemma_mix_prefix_live_only(k1, k2, (n - 1) as nat, mix_source(n - 1));
        lemma_mix_prefix_keeps(k1, (n - 1) as nat, 0);
        lemma_mix_prefix_keeps(k2, (n - 1) as nat, 0);
    }
}

/// Mixing reads and writes only the live entries: tables that agree on their
/// live entries still agree on them after mixing.
pub proof fn lemma_mixed_live_only(k1: Seq<u32>, k2: Seq<u32>)
    requires
        k1.len() >= NUM_KEYS,
        k2.len() >= NUM_KEYS,
        k1.take(NUM_KEYS as int) == k2.take(NUM_KEYS as int),
    ensures
        mixed(k1).take(NUM_KEYS as int) == mixed(k2).take(NUM_KEYS as int),
{
    lemma_mixed_keeps_tail(k1);
    lemma_mixed_keeps_tail(k2);
    assert forall|i: int| 0 <= i < NUM_KEYS implies #[trigger] mixed(k1).take(
        NUM_KEYS as int,
    )[i] == mixed(k2).take(NUM_KEYS as int)[i] by {
        lemma_mix_prefix_live_only(k1, k2, NUM_KEYS as nat, i);
    }
    assert(mixed(k1).take(NUM_KEYS as int) =~= mixed(k2).take(NUM_KEYS as int));
}

/// The live entries of a table filled from a seed depend on the seed only,
/// not on what the table held past its live entries; filling keeps the
/// table's length.
pub proof fn lemma_keyed_table_live_only(seed: u32, t1: Seq<u32>, t2: Seq<u32>)
    ensures
        keyed_table(seed, t1).take(NUM_KEYS as int) == keyed_table(seed, t2).take(
            NUM_KEYS as int,
        ),
        keyed_table(seed, t1).len() == NUM_KEYS + t1.len(),
{
    lemma_expand_len(seed, NUM_KEYS as nat);
    let a1 = expand(seed, NUM_KEYS as nat) + t1;
    let a2 = expand(seed, NUM_KEYS as nat) + t2;
    assert(a1.take(NUM_KEYS as int) =~= a2.take(NUM_KEYS as int));
    lemma_mixed_live_only(a1, a2);
    lemma_mixed_keeps_tail(a1);
    lemma_mixed_keeps_tail(a2);
    lemma_mixed_live_only(mixed(a1), mixed(a2));
    lemma_mixed_keeps_tail(mixed(a1));
    lemma_mixed_keeps_tail(mixed(a2));
    lemma_mixed_live_only(mixed(mixed(a1)), mixed(mixed(a2)));
    lemma_mixed_keeps_tail(mixed(mixed(a1)));
}

proof fn lemma_mix_prefix_keeps(k: Seq<u32>, n: nat, i: int)
    requires
        n <= NUM_KEYS,
        k.len() >= NUM_KEYS,
        0 <= i < k.len(),
    ensures
        mix_prefix(k, n).len() == k.len(),
        i >= n ==> mix_prefix(k, n)[i] == k[i],
    decreases n,
{
    if n > 0 {
        lemma_mix_prefix_keeps(k, (n - 1) as nat, i);
        lemma_mix_prefix_keeps(k, (n - 1) as nat, (n - 1) as int);
    }
}

/// Mixing keeps the table's length and leaves the entries past the live ones
/// as they are.
pub proof fn lemma_mixed_keeps_tail(k: Seq<u32>)
    requires
        k.len() >= NUM_KEYS,
    ensures
        mixed(k).len() == k.len(),
        forall|i: int| NUM_KEYS <= i < k.len() ==> #[trigger] mixed(k)[i] == k[i],
{
    lemma_mix_prefix_keeps(k, NUM_KEYS as nat, 0);
    assert forall|i: int| NUM_KEYS <= i < k.len() implies #[trigger] mixed(k)[i] == k[i] by {
        lemma_mix_prefix_keeps(k, NUM_KEYS as nat, i);
    }
}

proof fn lemma_expand_len(seed: u32, n: nat)
    ensures
        expand(seed, n).len() == n,
    decreases n,
{
    if n > 17 {
        lemma_expand_len(seed, (n - 1) as nat);
    }
}

} // verus!
