//! The streaming partition-token hasher.
//!
//! A hasher is created fresh for each partition key, fed the key's bytes in
//! any number of writes, and asked once for the token. Its view is the byte
//! stream written so far; the token is [`token_of`] of that stream, however the
//! stream was cut into writes.

use super::murmur3::{
    finalize, fmix, hash128, lane, mix_block, mix_blocks, mix_tail, reduce, rotl64, scramble1,
    scramble2, tail_byte, tail_lane, token_of, C1, C2,
};
use scylla::routing::Token;
use scylla::statement::prepared::TokenCalculationError;
use vstd::prelude::*;

verus! {

/// The driver's token: a 64-bit value in which the least `i64` never occurs.
#[verifier::external_type_specification]
#[verifier::external_body]
pub struct ExToken(scylla::routing::Token);

/// The driver's error type for token calculation.
#[verifier::external_type_specification]
#[verifier::external_body]
pub struct ExTokenCalculationError(scylla::statement::prepared::TokenCalculationError);

/// The value that a driver token holds.
pub uninterp spec fn token_value(token: Token) -> i64;

/// What the driver makes of a raw 64-bit hash when it wraps it in a token: the
/// least `i64` stands for infinity in the cluster's token ring, so it is
/// replaced by the greatest.
pub open spec fn normalized(raw: i64) -> i64 {
    if raw == i64::MIN {
        i64::MAX
    } else {
        raw
    }
}

/// Calls `scylla::routing::Token::new`. Trusted: the token it returns holds the
/// normalized value, as the constructor's source shows.
#[verifier::external_body]
fn new_token(raw: i64) -> (token: Token)
    ensures
        token_value(token) == normalized(raw),
{
    Token::new(raw)
}

/// The partitioners a cluster may use.
#[derive(Clone, Copy, PartialEq, Eq, Debug)]
pub enum PartitionerName {
    Murmur3,
}

impl Default for PartitionerName {
    fn default() -> (name: Self)
        ensures
            name == PartitionerName::Murmur3,
    {
        PartitionerName::Murmur3
    }
}

/// A source of fresh hashers.
pub trait Partitioner {
    type Hasher: PartitionerHasher;

    fn build_hasher(&self) -> (hasher: Self::Hasher)
        ensures
            hasher.stream() == Seq::<u8>::empty(),
    ;
}

/// A streaming hasher: bytes go in through any number of writes, one token
/// comes out.
pub trait PartitionerHasher {
    /// Every byte written so far, in order.
    spec fn stream(&self) -> Seq<u8>;

    /// The token that this kind of hasher gives to a byte stream.
    spec fn token(bytes: Seq<u8>) -> i64;

    fn write(&mut self, pk_part: &[u8])
        requires
            old(self).stream().len() + pk_part@.len() <= usize::MAX,
        ensures
            final(self).stream() == old(self).stream() + pk_part@,
    ;

    fn finish(&self) -> (token: i64)
        ensures
            token == Self::token(self.stream()),
    ;
}

/// The partitioner that hashes with the 128-bit, two-lane hash of
/// [`super::murmur3`].
pub struct Murmur3Partitioner;

/// The streaming state: the number of bytes consumed, the carry buffer for an
/// incomplete block, and the two accumulators.
pub struct Murmur3PartitionerHasher {
    total_len: usize,
    buf: [u8; 16],
    h1: u64,
    h2: u64,
    stream: Ghost<Seq<u8>>,
}

impl View for Murmur3PartitionerHasher {
    type V = Seq<u8>;

    /// Every byte written so far, in order.
    closed spec fn view(&self) -> Seq<u8> {
        self.stream@
    }
}

fn read_lane(b: &[u8], at: usize) -> (r: u64)
    requires
        at + 8 <= b@.len(),
    ensures
        r == lane(b@, at as int),
{
    (b[at] as u64) | ((b[at + 1] as u64) << 8) | ((b[at + 2] as u64) << 16) | ((b[at + 3] as u64)
        << 24) | ((b[at + 4] as u64) << 32) | ((b[at + 5] as u64) << 40) | ((b[at + 6] as u64)
        << 48) | ((b[at + 7] as u64) << 56)
}

fn sign_extended(x: u8, pos: usize) -> (r: u64)
    requires
        pos < 8,
    ensures
        r == tail_byte(x, pos as int),
{
    ((x as i8) as i64 as u64) << ((8 * pos) as u64)
}

/// Folds the bytes `b[from..upto]` into one lane, highest byte first.
fn fold_tail(b: &[u8; 16], from: usize, upto: usize) -> (k: u64)
    requires
        from <= upto <= 16,
        upto - from <= 8,
    ensures
        k == tail_lane(b@, from as int, upto as int, from as int),
{
    let mut k: u64 = 0;
    let mut i: usize = upto;
    while i > from
        invariant
            from <= i <= upto <= 16,
            upto - from <= 8,
            k == tail_lane(b@, from as int, upto as int, i as int),
        decreases i,
    {
        i = i - 1;
        k = k ^ sign_extended(b[i], i - from);
    }
    k
}

/// The accumulators after the first `n` blocks depend only on the first
/// `16 * n` bytes.
proof fn lemma_mix_blocks_agree(a: Seq<u8>, b: Seq<u8>, n: nat)
    requires
        16 * n <= a.len(),
        16 * n <= b.len(),
        forall|i: int| 0 <= i < 16 * n ==> a[i] == b[i],
    ensures
        mix_blocks(a, n) == mix_blocks(b, n),
    decreases n,
{
    if n > 0 {
        lemma_mix_blocks_agree(a, b, (n - 1) as nat);
    }
}

/// A folded lane depends only on the bytes it folds.
proof fn lemma_tail_lane_agree(a: Seq<u8>, b: Seq<u8>, from: int, upto: int, i: int)
    requires
        0 <= from <= i <= upto,
        upto <= a.len(),
        upto <= b.len(),
        forall|j: int| from <= j < upto ==> a[j] == b[j],
    ensures
        tail_lane(a, from, upto, i) == tail_lane(b, from, upto, i),
    decreases upto - i,
{
    if i < upto {
        lemma_tail_lane_agree(a, b, from, upto, i + 1);
    }
}

/// Two lanes read from equal bytes are equal.
proof fn lemma_lane_agree(a: Seq<u8>, at_a: int, b: Seq<u8>, at_b: int)
    requires
        0 <= at_a,
        at_a + 8 <= a.len(),
        0 <= at_b,
        at_b + 8 <= b.len(),
        forall|i: int| at_a <= i < at_a + 8 ==> a[i] == b[i - at_a + at_b],
    ensures
        lane(a, at_a) == lane(b, at_b),
{
    assert(a[at_a + 0] == b[at_b + 0]);
    assert(a[at_a + 1] == b[at_b + 1]);
    assert(a[at_a + 2] == b[at_b + 2]);
    assert(a[at_a + 3] == b[at_b + 3]);
    assert(a[at_a + 4] == b[at_b + 4]);
    assert(a[at_a + 5] == b[at_b + 5]);
    assert(a[at_a + 6] == b[at_b + 6]);
    assert(a[at_a + 7] == b[at_b + 7]);
}

/// Mixing in block number `q` extends the accumulators from `q` to `q + 1` blocks.
proof fn lemma_absorb(s: Seq<u8>, q: nat, h: (u64, u64), k1: u64, k2: u64)
    requires
        h == mix_blocks(s, q),
        k1 == lane(s, (16 * q) as int),
        k2 == lane(s, (16 * q + 8) as int),
    ensures
        mix_block(h, k1, k2) == mix_blocks(s, q + 1),
{
}

/// Whether the first `count` bytes of the carry buffer `buf` are the bytes of
/// the stream `s` from `base` on.
spec fn carried(buf: Seq<u8>, s: Seq<u8>, base: int, count: int) -> bool {
    forall|i: int| 0 <= i < count ==> buf[i] == s[base + i]
}

/// Copying the next bytes of a write behind the carried bytes carries them
/// too.
proof fn lemma_carry_extends(
    before: Seq<u8>,
    after: Seq<u8>,
    s0: Seq<u8>,
    part: Seq<u8>,
    base: int,
    carry: int,
    from: int,
    count: int,
)
    requires
        before.len() == 16,
        after.len() == 16,
        0 <= base,
        0 <= carry,
        0 <= count,
        carry + count <= 16,
        0 <= from,
        from + count <= part.len(),
        base + carry == s0.len() + from,
        carried(before, s0 + part, base, carry),
        forall|i: int|
            0 <= i < 16 ==> after[i] == if carry <= i < carry + count {
                part[from + i - carry]
            } else {
                before[i]
            },
    ensures
        carried(after, s0 + part, base, carry + count),
{
    let s = s0 + part;
    assert forall|i: int| 0 <= i < carry + count implies after[i] == s[base + i] by {
        if i >= carry {
            assert(s[base + i] == part[base + i - s0.len()]);
        }
    }
}

/// A length is split into full blocks and a rest in one way only.
proof fn lemma_blocks_and_carry(len: nat, q: nat, rest: int)
    requires
        len == 16 * q + rest,
        0 <= rest < 16,
    ensures
        len / 16 == q,
        len % 16 == rest,
{
}

impl Partitioner for Murmur3Partitioner {
    type Hasher = Murmur3PartitionerHasher;

    /// A hasher that has consumed nothing.
    fn build_hasher(&self) -> (hasher: Murmur3PartitionerHasher) {
        Murmur3PartitionerHasher {
            total_len: 0,
            buf: [0u8; 16],
            h1: 0,
            h2: 0,
            stream: Ghost(Seq::empty()),
        }
    }
}

impl PartitionerName {
    /// The partitioner that goes by this name.
    pub fn get_partitioner(&self) -> Murmur3Partitioner {
        match self {
            PartitionerName::Murmur3 => Murmur3Partitioner,
        }
    }
}

impl Murmur3PartitionerHasher {
    /// The accumulators cover every full block of the stream, and the carry
    /// buffer holds the bytes after the last full block.
    #[verifier::type_invariant]
    spec fn inv(&self) -> bool {
        let s = self.stream@;
        let q = s.len() / 16;
        &&& self.total_len == s.len()
        &&& (self.h1, self.h2) == mix_blocks(s, q)
        &&& carried(self.buf@, s, (16 * q) as int, (s.len() % 16) as int)
    }

    /// Rotates `v` to the left by `n` bits.
    fn rotl64(v: u64, n: u32) -> (r: u64)
        requires
            0 < n < 64,
        ensures
            r == rotl64(v, n),
    {
        (v << n) | (v >> (64 - n))
    }

    /// The finalization mix of one accumulator.
    fn fmix(k: u64) -> (r: u64)
        ensures
            r == fmix(k),
    {
        let a = (k ^ (k >> 33)).wrapping_mul(0xff51_afd7_ed55_8ccd);
        let b = (a ^ (a >> 33)).wrapping_mul(0xc4ce_b9fe_1a85_ec53);
        b ^ (b >> 33)
    }

    /// Scrambles the first lane of a block or of the tail.
    fn scramble_first(k: u64) -> (r: u64)
        ensures
            r == scramble1(k),
    {
        Self::rotl64(k.wrapping_mul(C1), 31).wrapping_mul(C2)
    }

    /// Scrambles the second lane of a block or of the tail.
    fn scramble_second(k: u64) -> (r: u64)
        ensures
            r == scramble2(k),
    {
        Self::rotl64(k.wrapping_mul(C2), 33).wrapping_mul(C1)
    }

    /// Mixes one block, given as its two lanes, into the accumulators.
    fn hash_16_bytes(h1: u64, h2: u64, k1: u64, k2: u64) -> (h: (u64, u64))
        ensures
            h == mix_block((h1, h2), k1, k2),
    {
        let a = Self::rotl64(h1 ^ Self::scramble_first(k1), 27).wrapping_add(h2).wrapping_mul(
            5,
        ).wrapping_add(0x52dce729);
        let b = Self::rotl64(h2 ^ Self::scramble_second(k2), 31).wrapping_add(a).wrapping_mul(
            5,
        ).wrapping_add(0x38495ab5);
        (a, b)
    }

    /// Copies `src[from..from + count]` into the carry buffer at `at`.
    fn copy_to_carry(buf: &mut [u8; 16], at: usize, src: &[u8], from: usize, count: usize)
        requires
            at + count <= 16,
            from + count <= src.len(),
        ensures
            forall|i: int|
                0 <= i < 16 ==> final(buf)@[i] == if at <= i < at + count {
                    src@[from + i - at]
                } else {
                    old(buf)@[i]
                },
    {
        let mut j: usize = 0;
        while j < count
            invariant
                j <= count,
                at + count <= 16,
                from + count <= src.len(),
                forall|i: int|
                    0 <= i < 16 ==> buf@[i] == if at <= i < at + j {
                        src@[from + i - at]
                    } else {
                        old(buf)@[i]
                    },
            decreases count - j,
        {
            buf[at + j] = src[from + j];
            j = j + 1;
        }
    }

    /// Mixes every full block of `src[from..]` into the accumulators `h` and
    /// returns them with the position after the last full block. The bytes
    /// `src[from..]` are the bytes of the stream `s` from block `q` on.
    fn absorb_blocks(
        h: (u64, u64),
        src: &[u8],
        from: usize,
        Ghost(s): Ghost<Seq<u8>>,
        Ghost(q): Ghost<nat>,
    ) -> (r: ((u64, u64), usize))
        requires
            from <= src.len(),
            h == mix_blocks(s, q),
            s.len() == 16 * q + (src.len() - from),
            forall|j: int| from <= j < src.len() ==> src@[j] == s[16 * q + j - from],
        ensures
            r.1 == from + 16 * ((src.len() - from) / 16),
            r.0 == mix_blocks(s, q + ((src.len() - from) / 16) as nat),
    {
        let n = src.len();
        let mut h = h;
        let mut pos = from;
        let ghost mut done: nat = 0;
        while n - pos >= 16
            invariant
                from <= pos <= n,
                n == src.len(),
                pos == from + 16 * done,
                h == mix_blocks(s, q + done),
                s.len() == 16 * q + (n - from),
                forall|j: int| from <= j < n ==> src@[j] == s[16 * q + j - from],
            decreases n - pos,
        {
            let k = Self::fetch_16_bytes_from_buf(src, pos);
            proof {
                lemma_lane_agree(src@, pos as int, s, (16 * (q + done)) as int);
                lemma_lane_agree(src@, pos as int + 8, s, (16 * (q + done) + 8) as int);
                lemma_absorb(s, q + done, h, k.0, k.1);
                done = done + 1;
            }
            h = Self::hash_16_bytes(h.0, h.1, k.0, k.1);
            pos = pos + 16;
        }
        assert(done == (n - from) / 16);
        (h, pos)
    }

    /// Reads the two lanes of the block that starts at `at`.
    fn fetch_16_bytes_from_buf(b: &[u8], at: usize) -> (k: (u64, u64))
        requires
            at + 16 <= b.len(),
        ensures
            k.0 == lane(b@, at as int),
            k.1 == lane(b@, at as int + 8),
    {
        (read_lane(b, at), read_lane(b, at + 8))
    }
}

impl PartitionerHasher for Murmur3PartitionerHasher {
    open spec fn stream(&self) -> Seq<u8> {
        self@
    }

    open spec fn token(bytes: Seq<u8>) -> i64 {
        token_of(bytes)
    }

    /// Appends `pk_part` to the stream.
    fn write(&mut self, pk_part: &[u8]) {
        proof {
            use_type_invariant(&*self);
        }
        let ghost s0 = self.stream@;
        let ghost s = s0 + pk_part@;
        let n = pk_part.len();
        let mut buf = self.buf;
        let mut h = (self.h1, self.h2);
        let mut buf_len = self.total_len % 16;
        let total_len = self.total_len + n;
        let mut pos: usize = 0;
        let ghost mut q: nat = s0.len() / 16;
        proof {
            lemma_mix_blocks_agree(s0, s, q);
            assert(carried(buf@, s, (16 * q) as int, buf_len as int));
        }

        if buf_len > 0 && 16 - buf_len <= n {
            let ghost before = buf@;
            pos = 16 - buf_len;
            Self::copy_to_carry(&mut buf, buf_len, pk_part, 0, pos);
            proof {
                lemma_carry_extends(
                    before,
                    buf@,
                    s0,
                    pk_part@,
                    (16 * q) as int,
                    buf_len as int,
                    0,
                    pos as int,
                );
            }
            let k = Self::fetch_16_bytes_from_buf(buf.as_slice(), 0);
            proof {
                lemma_lane_agree(buf@, 0, s, (16 * q) as int);
                lemma_lane_agree(buf@, 8, s, (16 * q + 8) as int);
                lemma_absorb(s, q, h, k.0, k.1);
                q = q + 1;
            }
            h = Self::hash_16_bytes(h.0, h.1, k.0, k.1);
            buf_len = 0;
        }
        if buf_len == 0 {
            let ghost blocks = ((n - pos) / 16) as nat;
            let r = Self::absorb_blocks(h, pk_part, pos, Ghost(s), Ghost(q));
            h = r.0;
            pos = r.1;
            proof {
                q = q + blocks;
            }
        }
        let ghost before = buf@;
        Self::copy_to_carry(&mut buf, buf_len, pk_part, pos, n - pos);
        proof {
            lemma_carry_extends(
                before,
                buf@,
                s0,
                pk_part@,
                (16 * q) as int,
                buf_len as int,
                pos as int,
                n - pos,
            );
            lemma_blocks_and_carry(s.len(), q, buf_len + (n - pos));
        }
        *self = Murmur3PartitionerHasher { total_len, buf, h1: h.0, h2: h.1, stream: Ghost(s) };
    }

    /// The token of the stream written so far. The hasher is left as it was.
    fn finish(&self) -> (token: i64) {
        proof {
            use_type_invariant(self);
        }
        let ghost s = self.stream@;
        let ghost q = s.len() / 16;
        let ghost t = s.skip((16 * q) as int);
        let mut h1 = self.h1;
        let mut h2 = self.h2;
        let buf_len = self.total_len % 16;

        if buf_len > 8 {
            let k2 = fold_tail(&self.buf, 8, buf_len);
            proof {
                lemma_tail_lane_agree(self.buf@, t, 8, buf_len as int, 8);
            }
            h2 = h2 ^ Self::scramble_second(k2);
        }
        if buf_len > 0 {
            let upto = if buf_len < 8 { buf_len } else { 8 };
            let k1 = fold_tail(&self.buf, 0, upto);
            proof {
                lemma_tail_lane_agree(self.buf@, t, 0, upto as int, 0);
            }
            h1 = h1 ^ Self::scramble_first(k1);
        }
        assert((h1, h2) == mix_tail(mix_blocks(s, q), t));

        h1 = h1 ^ (self.total_len as u64);
        h2 = h2 ^ (self.total_len as u64);

        h1 = h1.wrapping_add(h2);
        h2 = h2.wrapping_add(h1);

        h1 = Self::fmix(h1);
        h2 = Self::fmix(h2);

        h1 = h1.wrapping_add(h2);
        h2 = h2.wrapping_add(h1);

        ((((h2 as i64) as i128) << 64) | ((h1 as i64) as i128)) as i64
    }
}

/// The stream of a hasher after `chunks` have been written to it, one after
/// the other, when its stream was `s` before.
pub open spec fn written(s: Seq<u8>, chunks: Seq<Seq<u8>>) -> Seq<u8>
    decreases chunks.len(),
{
    if chunks.len() == 0 {
        s
    } else {
        written(s + chunks.first(), chunks.drop_first())
    }
}

/// Writing chunks one after the other appends their concatenation.
pub proof fn lemma_written_appends(s: Seq<u8>, chunks: Seq<Seq<u8>>)
    ensures
        written(s, chunks) == s + chunks.flatten(),
    decreases chunks.len(),
{
    if chunks.len() > 0 {
        lemma_written_appends(s + chunks.first(), chunks.drop_first());
        assert((s + chunks.first()) + chunks.drop_first().flatten() =~= s + chunks.flatten());
    } else {
        assert(s + chunks.flatten() =~= s);
    }
}

/// Chunk invariance: however a byte sequence is cut into writes, a fresh hasher
/// ends with the same stream, and so with the same token, as after one write
/// of the whole sequence.
pub proof fn lemma_chunk_invariance(chunks: Seq<Seq<u8>>)
    ensures
        written(Seq::empty(), chunks) == chunks.flatten(),
        written(Seq::empty(), chunks) == written(Seq::empty(), seq![chunks.flatten()]),
        token_of(written(Seq::empty(), chunks)) == token_of(chunks.flatten()),
{
    lemma_written_appends(Seq::empty(), chunks);
    assert(Seq::<u8>::empty() + chunks.flatten() =~= chunks.flatten());
    let whole = seq![chunks.flatten()];
    lemma_written_appends(Seq::empty(), whole);
    whole.lemma_flatten_one_element();
}

/// The token of the empty byte sequence is zero.
pub proof fn lemma_token_of_empty()
    ensures
        token_of(Seq::<u8>::empty()) == 0,
{
    let e = Seq::<u8>::empty();
    assert(mix_blocks(e, 0) == (0u64, 0u64));
    assert(e.skip(0) =~= e);
    assert(mix_tail((0u64, 0u64), e) == (0u64, 0u64));
    assert(0u64 ^ 0u64 == 0u64) by (bit_vector);
    assert(0u64 >> 33 == 0u64) by (bit_vector);
    assert(fmix(0u64) == 0u64);
    assert(finalize((0u64, 0u64), 0) == (0u64, 0u64));
    assert(reduce(0u64, 0u64) == 0i64) by (bit_vector);
}

/// The token is the low half of the 128-bit hash, read as a signed integer.
pub proof fn lemma_token_is_low_half(b: Seq<u8>)
    ensures
        token_of(b) == hash128(b).0 as i64,
{
    let h = hash128(b);
    let low = h.0;
    let high = h.1;
    assert(reduce(low, high) == low as i64) by (bit_vector);
}

/// The token under which the cluster places the partition key `bytes`: the
/// hash of the key, wrapped in the driver's token type. It never fails.
pub fn calculate_token_for_partition_key(bytes: &[u8], partitioner: &PartitionerName) -> (result:
    Result<Token, TokenCalculationError>)
    ensures
        result matches Ok(token) && token_value(token) == normalized(token_of(bytes@)),
{
    let partitioner = partitioner.get_partitioner();
    let mut hasher = partitioner.build_hasher();
    assert(bytes@.len() == bytes.len());
    hasher.write(bytes);
    assert(hasher.stream() == bytes@);
    Ok(new_token(hasher.finish()))
}

} // verus!
