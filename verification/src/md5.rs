//! MD5 message digest (RFC 1321), as a streaming hasher.
//!
//! The specification part of this module states the algorithm the way the
//! RFC does: pad the message, split it into 64-byte blocks, and run the
//! four-round compression function over them starting from the standard
//! initial state. The executable part buffers partial blocks so that data
//! can be fed in pieces of any size.
use vstd::prelude::*;

verus! {

// ---------------------------------------------------------------------------
// Specification
// ---------------------------------------------------------------------------

/// Addition modulo 2^32.
pub open spec fn wadd(x: u32, y: u32) -> u32 {
    vstd::wrapping::u32_specs::wrapping_add(x, y)
}

/// Left rotation of a 32-bit word by `s` bits (0 < s < 32).
pub open spec fn rotl(x: u32, s: u32) -> u32 {
    (x << s) | (x >> ((32 - s) as u32))
}

/// The table T of RFC 1321: floor(2^32 * |sin(i + 1)|).
pub open spec fn sine_table() -> [u32; 64] {
    [
        0xd76aa478, 0xe8c7b756, 0x242070db, 0xc1bdceee, 0xf57c0faf, 0x4787c62a, 0xa8304613, 0xfd469501,
        0x698098d8, 0x8b44f7af, 0xffff5bb1, 0x895cd7be, 0x6b901122, 0xfd987193, 0xa679438e, 0x49b40821,
        0xf61e2562, 0xc040b340, 0x265e5a51, 0xe9b6c7aa, 0xd62f105d, 0x02441453, 0xd8a1e681, 0xe7d3fbc8,
        0x21e1cde6, 0xc33707d6, 0xf4d50d87, 0x455a14ed, 0xa9e3e905, 0xfcefa3f8, 0x676f02d9, 0x8d2a4c8a,
        0xfffa3942, 0x8771f681, 0x6d9d6122, 0xfde5380c, 0xa4beea44, 0x4bdecfa9, 0xf6bb4b60, 0xbebfbc70,
        0x289b7ec6, 0xeaa127fa, 0xd4ef3085, 0x04881d05, 0xd9d4d039, 0xe6db99e5, 0x1fa27cf8, 0xc4ac5665,
        0xf4292244, 0x432aff97, 0xab9423a7, 0xfc93a039, 0x655b59c3, 0x8f0ccc92, 0xffeff47d, 0x85845dd1,
        0x6fa87e4f, 0xfe2ce6e0, 0xa3014314, 0x4e0811a1, 0xf7537e82, 0xbd3af235, 0x2ad7d2bb, 0xeb86d391,
    ]
}

/// Per-step rotation amounts: each of the four rounds cycles through four
/// fixed amounts.
pub open spec fn shift_amount(i: int) -> u32 {
    let r = i % 4;
    if i < 16 {
        if r == 0 { 7 } else if r == 1 { 12 } else if r == 2 { 17 } else { 22 }
    } else if i < 32 {
        if r == 0 { 5 } else if r == 1 { 9 } else if r == 2 { 14 } else { 20 }
    } else if i < 48 {
        if r == 0 { 4 } else if r == 1 { 11 } else if r == 2 { 16 } else { 23 }
    } else {
        if r == 0 { 6 } else if r == 1 { 10 } else if r == 2 { 15 } else { 21 }
    }
}

/// The auxiliary functions F, G, H, I of the four rounds.
pub open spec fn round_fn(i: int, b: u32, c: u32, d: u32) -> u32 {
    if i < 16 {
        (b & c) | (!b & d)
    } else if i < 32 {
        (d & b) | (!d & c)
    } else if i < 48 {
        b ^ c ^ d
    } else {
        c ^ (b | !d)
    }
}

/// Which message word step `i` reads.
pub open spec fn word_index(i: int) -> int {
    if i < 16 {
        i
    } else if i < 32 {
        (5 * i + 1) % 16
    } else if i < 48 {
        (3 * i + 5) % 16
    } else {
        (7 * i) % 16
    }
}

/// A little-endian 32-bit word from four bytes.
pub open spec fn le_word(b0: u8, b1: u8, b2: u8, b3: u8) -> u32 {
    (b0 as u32) | ((b1 as u32) << 8u32) | ((b2 as u32) << 16u32) | ((b3 as u32) << 24u32)
}

/// The sixteen message words of a 64-byte block.
pub open spec fn block_words(block: Seq<u8>) -> Seq<u32> {
    Seq::new(
        16,
        |j: int| le_word(block[4 * j], block[4 * j + 1], block[4 * j + 2], block[4 * j + 3]),
    )
}

/// One of the 64 steps of the compression function.
pub open spec fn step(i: int, st: (u32, u32, u32, u32), m: Seq<u32>) -> (u32, u32, u32, u32) {
    let (a, b, c, d) = st;
    let f = round_fn(i, b, c, d);
    let sum = wadd(wadd(wadd(a, f), sine_table()@[i]), m[word_index(i)]);
    (d, wadd(b, rotl(sum, shift_amount(i))), b, c)
}

/// The first `n` steps of the compression function.
pub open spec fn steps(n: nat, st: (u32, u32, u32, u32), m: Seq<u32>) -> (u32, u32, u32, u32)
    decreases n,
{
    if n == 0 {
        st
    } else {
        step(n - 1, steps((n - 1) as nat, st, m), m)
    }
}

/// The compression function: 64 steps over the block, added into the state.
pub open spec fn compress(state: Seq<u32>, block: Seq<u8>) -> Seq<u32> {
    let r = steps(64, (state[0], state[1], state[2], state[3]), block_words(block));
    seq![wadd(state[0], r.0), wadd(state[1], r.1), wadd(state[2], r.2), wadd(state[3], r.3)]
}

/// The standard initial state A, B, C, D.
pub open spec fn initial_state() -> Seq<u32> {
    seq![0x67452301u32, 0xefcdab89u32, 0x98badcfeu32, 0x10325476u32]
}

/// The state after compressing the first `n` 64-byte blocks of `data`.
pub open spec fn hash_blocks(state: Seq<u32>, data: Seq<u8>, n: nat) -> Seq<u32>
    decreases n,
{
    if n == 0 {
        state
    } else {
        let prev = hash_blocks(state, data, (n - 1) as nat);
        compress(prev, data.subrange(64 * (n - 1), 64 * (n as int)))
    }
}

/// Number of zero bytes between the 0x80 marker and the length field.
pub open spec fn pad_zeros(len: nat) -> nat {
    ((119 - (len % 64) as int) % 64) as nat
}

/// The 64-bit message length in bits, modulo 2^64.
pub open spec fn bit_length(len: nat) -> u64 {
    ((len * 8) % 0x1_0000_0000_0000_0000) as u64
}

/// The eight little-endian bytes of a 64-bit value.
pub open spec fn le_bytes_u64(v: u64) -> Seq<u8> {
    Seq::new(8, |i: int| ((v >> (8 * i) as u64) & 0xff) as u8)
}

/// The padded message: the data, a 0x80 byte, zeros up to 56 mod 64, and
/// the bit length.
pub open spec fn pad(msg: Seq<u8>) -> Seq<u8> {
    msg + seq![0x80u8] + Seq::new(pad_zeros(msg.len()), |i: int| 0u8) + le_bytes_u64(
        bit_length(msg.len()),
    )
}

/// The 16 output bytes: the four state words, each little-endian.
pub open spec fn state_bytes(state: Seq<u32>) -> Seq<u8> {
    Seq::new(16, |i: int| ((state[i / 4] >> (8 * (i % 4)) as u32) & 0xff) as u8)
}

/// The MD5 digest of a message.
pub open spec fn md5(msg: Seq<u8>) -> Seq<u8> {
    let p = pad(msg);
    state_bytes(hash_blocks(initial_state(), p, p.len() / 64))
}

// ---------------------------------------------------------------------------
// Lemmas
// ---------------------------------------------------------------------------

/// Compressing blocks only depends on the blocks compressed.
pub proof fn lemma_hash_blocks_prefix(state: Seq<u32>, d1: Seq<u8>, d2: Seq<u8>, n: nat)
    requires
        64 * n <= d1.len(),
        64 * n <= d2.len(),
        d1.subrange(0, 64 * (n as int)) == d2.subrange(0, 64 * (n as int)),
    ensures
        hash_blocks(state, d1, n) == hash_blocks(state, d2, n),
    decreases n,
{
    if n > 0 {
        let k = (n - 1) as nat;
        let e = 64 * (n as int);
        let b = 64 * (k as int);
        assert(d1.subrange(0, b) == d1.subrange(0, e).subrange(0, b));
        assert(d2.subrange(0, b) == d2.subrange(0, e).subrange(0, b));
        lemma_hash_blocks_prefix(state, d1, d2, k);
        assert(d1.subrange(b, e) == d1.subrange(0, e).subrange(b, e));
        assert(d2.subrange(b, e) == d2.subrange(0, e).subrange(b, e));
    }
}

// ---------------------------------------------------------------------------
// Executable code
// ---------------------------------------------------------------------------

fn sine_constants() -> (t: [u32; 64])
    ensures
        t == sine_table(),
{
    [
        0xd76aa478, 0xe8c7b756, 0x242070db, 0xc1bdceee, 0xf57c0faf, 0x4787c62a, 0xa8304613, 0xfd469501,
        0x698098d8, 0x8b44f7af, 0xffff5bb1, 0x895cd7be, 0x6b901122, 0xfd987193, 0xa679438e, 0x49b40821,
        0xf61e2562, 0xc040b340, 0x265e5a51, 0xe9b6c7aa, 0xd62f105d, 0x02441453, 0xd8a1e681, 0xe7d3fbc8,
        0x21e1cde6, 0xc33707d6, 0xf4d50d87, 0x455a14ed, 0xa9e3e905, 0xfcefa3f8, 0x676f02d9, 0x8d2a4c8a,
        0xfffa3942, 0x8771f681, 0x6d9d6122, 0xfde5380c, 0xa4beea44, 0x4bdecfa9, 0xf6bb4b60, 0xbebfbc70,
        0x289b7ec6, 0xeaa127fa, 0xd4ef3085, 0x04881d05, 0xd9d4d039, 0xe6db99e5, 0x1fa27cf8, 0xc4ac5665,
        0xf4292244, 0x432aff97, 0xab9423a7, 0xfc93a039, 0x655b59c3, 0x8f0ccc92, 0xffeff47d, 0x85845dd1,
        0x6fa87e4f, 0xfe2ce6e0, 0xa3014314, 0x4e0811a1, 0xf7537e82, 0xbd3af235, 0x2ad7d2bb, 0xeb86d391,
    ]
}

fn shift_for(i: usize) -> (s: u32)
    requires
        i < 64,
    ensures
        s == shift_amount(i as int),
        4 <= s <= 23,
{
    let r = i % 4;
    if i < 16 {
        if r == 0 { 7 } else if r == 1 { 12 } else if r == 2 { 17 } else { 22 }
    } else if i < 32 {
        if r == 0 { 5 } else if r == 1 { 9 } else if r == 2 { 14 } else { 20 }
    } else if i < 48 {
        if r == 0 { 4 } else if r == 1 { 11 } else if r == 2 { 16 } else { 23 }
    } else {
        if r == 0 { 6 } else if r == 1 { 10 } else if r == 2 { 15 } else { 21 }
    }
}

/// Compress one 64-byte little-endian block into the running state.
pub fn digest_block(state: &mut [u32; 4], block: &[u8])
    requires
        block@.len() == 64,
    ensures
        final(state)@ == compress(old(state)@, block@),
{
    let ghost words = block_words(block@);
    let mut m: [u32; 16] = [0u32; 16];
    let mut j: usize = 0;
    while j < 16
        invariant
            j <= 16,
            block@.len() == 64,
            words == block_words(block@),
            forall|k: int| 0 <= k < j ==> m[k] == words[k],
        decreases 16 - j,
    {
        let w = (block[4 * j] as u32) | ((block[4 * j + 1] as u32) << 8u32) | ((block[4 * j + 2] as u32) << 16u32)
            | ((block[4 * j + 3] as u32) << 24u32);
        m[j] = w;
        j = j + 1;
    }
    assert(m@ =~= words);

    let k_table = sine_constants();
    let mut a = state[0];
    let mut b = state[1];
    let mut c = state[2];
    let mut d = state[3];
    let ghost init = (a, b, c, d);
    let mut i: usize = 0;
    while i < 64
        invariant
            i <= 64,
            m@ == words,
            words.len() == 16,
            k_table == sine_table(),
            (a, b, c, d) == steps(i as nat, init, words),
        decreases 64 - i,
    {
        let f;
        let g: usize;
        if i < 16 {
            f = (b & c) | (!b & d);
            g = i;
        } else if i < 32 {
            f = (d & b) | (!d & c);
            g = (5 * i + 1) % 16;
        } else if i < 48 {
            f = b ^ c ^ d;
            g = (3 * i + 5) % 16;
        } else {
            f = c ^ (b | !d);
            g = (7 * i) % 16;
        }
        let s = shift_for(i);
        let sum = a.wrapping_add(f).wrapping_add(k_table[i]).wrapping_add(m[g]);
        let rotated = (sum << s) | (sum >> (32 - s));
        let temp = d;
        d = c;
        c = b;
        b = b.wrapping_add(rotated);
        a = temp;
        i = i + 1;
    }
    state[0] = state[0].wrapping_add(a);
    state[1] = state[1].wrapping_add(b);
    state[2] = state[2].wrapping_add(c);
    state[3] = state[3].wrapping_add(d);
    assert(state@ =~= compress(old(state)@, block@));
}

/// Overwrites `count` bytes of `buf` starting at `at` with `src[from..from + count]`.
fn copy_into(buf: &mut [u8; 64], at: usize, src: &[u8], from: usize, count: usize)
    requires
        at + count <= 64,
        from + count <= src.len(),
    ensures
        forall|i: int| 0 <= i < 64 ==> #[trigger] final(buf)@[i] == if at <= i < at + count {
            src@[from + i - at]
        } else {
            old(buf)@[i]
        },
{
    let mut k: usize = 0;
    while k < count
        invariant
            k <= count,
            at + count <= 64,
            from + count <= src.len(),
            forall|i: int| 0 <= i < 64 ==> #[trigger] buf@[i] == if at <= i < at + k {
                src@[from + i - at]
            } else {
                old(buf)@[i]
            },
        decreases count - k,
    {
        buf[at + k] = src[from + k];
        k = k + 1;
    }
}

/// Sets `buf[from..to]` to zero.
fn zero_fill(buf: &mut [u8; 64], from: usize, to: usize)
    requires
        from <= to <= 64,
    ensures
        forall|i: int| 0 <= i < 64 ==> #[trigger] final(buf)@[i] == if from <= i < to {
            0u8
        } else {
            old(buf)@[i]
        },
{
    let mut k: usize = from;
    while k < to
        invariant
            from <= k <= to <= 64,
            forall|i: int| 0 <= i < 64 ==> #[trigger] buf@[i] == if from <= i < k {
                0u8
            } else {
                old(buf)@[i]
            },
        decreases to - k,
    {
        buf[k] = 0;
        k = k + 1;
    }
}

/// A streaming MD5 hasher. Its view is the sequence of bytes fed in so far.
pub struct Md5 {
    state: [u32; 4],
    buffer: [u8; 64],
    buffer_len: usize,
    /// Count of bytes absorbed, modulo 2^64, used for the trailing length field.
    length: u64,
    absorbed: Ghost<Seq<u8>>,
}

impl View for Md5 {
    type V = Seq<u8>;

    closed spec fn view(&self) -> Seq<u8> {
        self.absorbed@
    }
}

impl Md5 {
    /// The hasher's internal state agrees with the bytes it has absorbed:
    /// all complete blocks are compressed into `state`, the rest wait in
    /// `buffer`.
    pub closed spec fn wf(&self) -> bool {
        let abs = self.absorbed@;
        let full = abs.len() - self.buffer_len;
        &&& self.buffer_len < 64
        &&& abs.len() % 64 == self.buffer_len
        &&& forall|i: int| 0 <= i < self.buffer_len ==> #[trigger] self.buffer@[i] == abs[full + i]
        &&& self.state@ == hash_blocks(initial_state(), abs, (abs.len() / 64) as nat)
        &&& self.length == abs.len() % 0x1_0000_0000_0000_0000
    }

    /// A hasher that has absorbed nothing.
    pub fn new() -> (h: Self)
        ensures
            h.wf(),
            h@ == Seq::<u8>::empty(),
    {
        let h = Md5 {
            state: [0x67452301, 0xefcdab89, 0x98badcfe, 0x10325476],
            buffer: [0; 64],
            buffer_len: 0,
            length: 0,
            absorbed: Ghost(Seq::empty()),
        };
        assert(h.state@ =~= initial_state());
        h
    }

    /// The MD5 digest of `data` in one call.
    pub fn digest(data: &[u8]) -> (out: [u8; 16])
        ensures
            out@ == md5(data@),
    {
        let mut hasher = Md5::new();
        hasher.update(data);
        assert(hasher@ =~= data@);
        hasher.finalize()
    }

    /// Absorbs `data`, compressing every block that becomes complete.
    pub fn update(&mut self, data: &[u8])
        requires
            old(self).wf(),
        ensures
            final(self).wf(),
            final(self)@ == old(self)@ + data@,
    {
        let ghost base = old(self)@;
        let ghost abs = base + data@;
        let ghost n0: int = (base.len() / 64) as int;
        self.length = self.length.wrapping_add(data.len() as u64);
        self.absorbed = Ghost(abs);
        proof {
            vstd::arithmetic::div_mod::lemma_add_mod_noop(
                base.len() as int,
                data@.len() as int,
                0x1_0000_0000_0000_0000,
            );
            assert(abs.subrange(0, 64 * n0) =~= base.subrange(0, 64 * n0));
            lemma_hash_blocks_prefix(initial_state(), abs, base, n0 as nat);
        }
        let mut pos: usize = 0;
        if self.buffer_len > 0 {
            let need = 64 - self.buffer_len;
            if data.len() < need {
                let ghost old_buf = self.buffer@;
                copy_into(&mut self.buffer, self.buffer_len, data, 0, data.len());
                self.buffer_len = self.buffer_len + data.len();
                proof {
                    assert(abs.len() / 64 == n0);
                    assert forall|i: int| 0 <= i < self.buffer_len implies #[trigger] self.buffer@[i]
                        == abs[abs.len() - self.buffer_len + i] by {
                        if i >= self.buffer_len - data@.len() {
                            assert(abs[abs.len() - self.buffer_len + i] == data@[i - (self.buffer_len - data@.len())]);
                        }
                    }
                }
                return;
            }
            copy_into(&mut self.buffer, self.buffer_len, data, 0, need);
            proof {
                assert(self.buffer@ =~= abs.subrange(64 * n0, 64 * n0 + 64));
            }
            digest_block(&mut self.state, self.buffer.as_slice());
            self.buffer_len = 0;
            pos = need;
            proof {
                assert(hash_blocks(initial_state(), abs, (n0 + 1) as nat) == self.state@);
                assert(base.len() + pos == 64 * (n0 + 1));
            }
        } else {
            proof {
                assert(base.len() == 64 * n0);
            }
        }
        while data.len() - pos >= 64
            invariant
                pos <= data@.len(),
                abs == base + data@,
                self.absorbed@ == abs,
                self.length == abs.len() % 0x1_0000_0000_0000_0000,
                (base.len() + pos) % 64 == 0,
                self.state@ == hash_blocks(initial_state(), abs, ((base.len() + pos) / 64) as nat),
            decreases data.len() - pos,
        {
            let ghost k: int = (base.len() + pos) / 64;
            proof {
                assert(data@.subrange(pos as int, pos + 64) =~= abs.subrange(64 * k, 64 * k + 64));
            }
            digest_block(&mut self.state, &data[pos..pos + 64]);
            pos = pos + 64;
            proof {
                assert((base.len() + pos) / 64 == k + 1);
            }
        }
        let rest = data.len() - pos;
        copy_into(&mut self.buffer, 0, data, pos, rest);
        self.buffer_len = rest;
        proof {
            assert(abs.len() / 64 == (base.len() + pos) / 64);
            assert(abs.len() % 64 == rest);
        }
    }

    /// Pads the absorbed message and returns its MD5 digest.
    pub fn finalize(self) -> (out: [u8; 16])
        requires
            self.wf(),
        ensures
            out@ == md5(self@),
    {
        let ghost msg = self@;
        let ghost len = msg.len();
        let ghost n: int = (len / 64) as int;
        let ghost p = pad(msg);
        let ghost z = pad_zeros(len);
        let bit_len = self.length.wrapping_mul(8);
        proof {
            vstd::arithmetic::div_mod::lemma_mul_mod_noop_left(
                len as int,
                8,
                0x1_0000_0000_0000_0000,
            );
            assert(bit_len == bit_length(len));
            assert(p.len() == len + 1 + z + 8);
            assert(p.subrange(0, 64 * n) =~= msg.subrange(0, 64 * n));
            lemma_hash_blocks_prefix(initial_state(), p, msg, n as nat);
            assert forall|j: int| 0 <= j < p.len() implies #[trigger] p[j] == if j < len {
                msg[j]
            } else if j == len {
                0x80u8
            } else if j < len + 1 + z {
                0u8
            } else {
                le_bytes_u64(bit_len)[j - (len + 1 + z)]
            } by {}
        }
        let mut buf = self.buffer;
        let mut state = self.state;
        let r = self.buffer_len;
        let mut used = r + 1;
        buf[r] = 0x80;
        let ghost mut blocks_done: int = n;
        proof {
            assert(len == 64 * n + r);
            assert(state@ == hash_blocks(initial_state(), p, n as nat));
        }
        if used > 56 {
            zero_fill(&mut buf, used, 64);
            proof {
                assert forall|i: int| 0 <= i < 64 implies #[trigger] buf@[i] == p[64 * n + i] by {
                    if i < r {
                        assert(buf@[i] == msg[64 * n + i]);
                    }
                }
                assert(buf@ =~= p.subrange(64 * n, 64 * n + 64));
            }
            digest_block(&mut state, buf.as_slice());
            used = 0;
            proof {
                blocks_done = n + 1;
            }
        }
        zero_fill(&mut buf, used, 56);
        let ghost pre = buf@;
        let mut k: usize = 0;
        while k < 8
            invariant
                k <= 8,
                buf@.len() == 64,
                forall|i: int| 0 <= i < 56 ==> #[trigger] buf@[i] == pre[i],
                forall|t: int| 0 <= t < k ==> #[trigger] buf@[56 + t] == le_bytes_u64(bit_len)[t],
            decreases 8 - k,
        {
            buf[56 + k] = ((bit_len >> (8 * k) as u64) & 0xff) as u8;
            k = k + 1;
        }
        proof {
            assert(p.len() == 64 * blocks_done + 64);
            assert forall|i: int| 0 <= i < 64 implies #[trigger] buf@[i] == p[64 * blocks_done + i] by {
                if i >= 56 {
                    assert(buf@[56 + (i - 56)] == le_bytes_u64(bit_len)[i - 56]);
                } else if blocks_done == n && i < r {
                    assert(buf@[i] == msg[64 * n + i]);
                }
            }
            assert(buf@ =~= p.subrange(64 * blocks_done, 64 * blocks_done + 64));
            assert(state@ == hash_blocks(initial_state(), p, blocks_done as nat));
        }
        digest_block(&mut state, buf.as_slice());
        proof {
            assert(p.len() / 64 == blocks_done + 1);
            assert(state@ == hash_blocks(initial_state(), p, (blocks_done + 1) as nat));
        }
        let mut out: [u8; 16] = [0u8; 16];
        let mut i: usize = 0;
        while i < 16
            invariant
                i <= 16,
                forall|j: int| 0 <= j < i ==> #[trigger] out@[j] == state_bytes(state@)[j],
            decreases 16 - i,
        {
            out[i] = ((state[i / 4] >> (8 * (i % 4)) as u32) & 0xff) as u8;
            i = i + 1;
        }
        assert(out@ =~= state_bytes(state@));
        out
    }
}

impl Md5 {
    /// The four state words: the initial state compressed over every
    /// complete block absorbed so far.
    pub closed spec fn state_words(&self) -> Seq<u32> {
        self.state@
    }

    /// The bytes that wait for their block to complete.
    pub closed spec fn pending_bytes(&self) -> Seq<u8> {
        self.buffer@.subrange(0, self.buffer_len as int)
    }

    /// The count of bytes absorbed, modulo 2^64.
    pub closed spec fn length_counter(&self) -> u64 {
        self.length
    }
}

/// What a well-formed hasher holds, in terms of the bytes it has absorbed
/// (`new` makes one and `update` keeps it so): every complete 64-byte block
/// compressed in order into the state, the last `len % 64` bytes waiting,
/// and the length counted modulo 2^64.
pub proof fn law_state_follows_absorbed(h: Md5)
    requires
        h.wf(),
    ensures
        h.state_words() == hash_blocks(initial_state(), h@, (h@.len() / 64) as nat),
        h.pending_bytes() == h@.subrange(h@.len() - h@.len() % 64, h@.len() as int),
        h.length_counter() == h@.len() % 0x1_0000_0000_0000_0000,
{
    let abs = h@;
    let full = abs.len() - h.buffer_len;
    assert forall|i: int| 0 <= i < h.buffer_len implies #[trigger] h.pending_bytes()[i]
        == abs.subrange(full, abs.len() as int)[i] by {
        assert(h.buffer@[i] == abs[full + i]);
    }
    assert(h.pending_bytes() =~= abs.subrange(full, abs.len() as int));
}

/// The bytes a hasher holds after absorbing `chunks` one `update` at a
/// time, having held `start` before.
pub open spec fn after_updates(start: Seq<u8>, chunks: Seq<Seq<u8>>) -> Seq<u8>
    decreases chunks.len(),
{
    if chunks.len() == 0 {
        start
    } else {
        after_updates(start + chunks[0], chunks.drop_first())
    }
}

proof fn lemma_after_updates(start: Seq<u8>, chunks: Seq<Seq<u8>>)
    ensures
        after_updates(start, chunks) == start + chunks.flatten(),
    decreases chunks.len(),
{
    if chunks.len() == 0 {
        assert(start + chunks.flatten() =~= start);
    } else {
        lemma_after_updates(start + chunks[0], chunks.drop_first());
        assert(start + chunks[0] + chunks.drop_first().flatten() =~= start + chunks.flatten());
    }
}

/// Hashing in pieces gives the one-shot digest: a new hasher fed `chunks`
/// by successive `update` calls (empty ones allowed) finalizes to the MD5
/// of all the bytes, in order.
pub proof fn law_streaming_matches_one_shot(chunks: Seq<Seq<u8>>)
    ensures
        md5(after_updates(Seq::empty(), chunks)) == md5(chunks.flatten()),
{
    lemma_after_updates(Seq::empty(), chunks);
    assert(Seq::<u8>::empty() + chunks.flatten() =~= chunks.flatten());
}

} // verus!
