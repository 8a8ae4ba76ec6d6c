//! Pseudo-random test data: a xorshift64 generator, the bytes it fills a
//! buffer with and the printable text made from them.
use crate::bytes::u64_bytes;
use vstd::prelude::*;

verus! {

/// One step of xorshift64: shifts of 13 left, 7 right and 17 left, each
/// folded in with exclusive or.
pub open spec fn xs_step(x: u64) -> u64 {
    let a = x ^ (x << 13u64);
    let b = a ^ (a >> 7u64);
    b ^ (b << 17u64)
}

/// The state after `k` steps from `x`.
pub open spec fn xs_iter(x: u64, k: nat) -> u64
    decreases k,
{
    if k == 0 {
        x
    } else {
        xs_step(xs_iter(x, (k - 1) as nat))
    }
}

/// The bytes that filling `n` bytes from state `x` gives: the
/// little-endian bytes of the successive outputs, the last one cut short.
pub open spec fn xs_bytes(x: u64, n: int) -> Seq<u8> {
    Seq::new(n as nat, |i: int| u64_bytes(xs_iter(x, (i / 8 + 1) as nat))[i % 8])
}

/// The characters of random text: the printable ASCII characters from
/// space to tilde, and the line feed; 96 in all.
pub open spec fn text_char(k: int) -> u8 {
    if k < 95 {
        (0x20 + k) as u8
    } else {
        0x0A
    }
}

/// Byte `i` of random text from state `x`: byte `i % 8` of output
/// `i / 8 + 1`, reduced modulo 96 to a text character.
pub open spec fn xs_text(x: u64, n: int) -> Seq<u8> {
    Seq::new(n as nat, |i: int| text_char((u64_bytes(xs_iter(x, (i / 8 + 1) as nat))[i % 8] as int) % 96))
}

/// The seed made from a time: the nanoseconds, exclusive-or the seconds
/// times 0x9e3779b97f4a7c15 modulo 2^64.
pub open spec fn spec_seed(secs: i64, nanos: u32) -> u64 {
    (nanos as u64) ^ vstd::wrapping::u64_specs::wrapping_mul(secs as u64, 0x9e37_79b9_7f4a_7c15u64)
}

/// A xorshift64 generator. Not cryptographically secure; enough for test
/// data that does not repeat.
pub struct Xorshift64 {
    pub state: u64,
}

impl Xorshift64 {
    /// A generator seeded from a time; a zero seed, which xorshift cannot
    /// leave, is replaced by 0xdeadbeefcafef00d.
    pub fn from_time(secs: i64, nanos: u32) -> (r: Self)
        ensures
            r.state == (if spec_seed(secs, nanos) == 0 { 0xdead_beef_cafe_f00du64 } else { spec_seed(secs, nanos) }),
            r.state != 0,
    {
        let s = secs as u64;
        let n = nanos as u64;
        let seed = n ^ s.wrapping_mul(0x9e37_79b9_7f4a_7c15);
        Xorshift64 {
            state: if seed == 0 {
                0xdead_beef_cafe_f00d
            } else {
                seed
            },
        }
    }

    /// A generator seeded from the current time. Its state is not zero.
    pub fn from_system_time() -> (r: Self)
        ensures
            r.state != 0,
    {
        let (secs, nanos) = crate::clock::local_now();
        Self::from_time(secs, nanos)
    }

    /// The next output, which is also the new state.
    pub fn next_u64(&mut self) -> (r: u64)
        ensures
            r == xs_step(old(self).state),
            final(self).state == r,
    {
        let mut x = self.state;
        x ^= x << 13;
        x ^= x >> 7;
        x ^= x << 17;
        self.state = x;
        x
    }

    /// Fill `buf` with the bytes of the next outputs, eight per output, the
    /// last output cut to the bytes left.
    pub fn fill(&mut self, buf: &mut [u8])
        ensures
            final(buf)@ == xs_bytes(old(self).state, old(buf)@.len() as int),
            final(self).state == xs_iter(old(self).state, ((old(buf)@.len() + 7) / 8) as nat),
    {
        let ghost s0 = self.state;
        let n = buf.len();
        let mut i: usize = 0;
        while i < n
            invariant
                n == buf@.len(),
                n == old(buf)@.len(),
                i <= n,
                i % 8 == 0 || i == n,
                self.state == xs_iter(s0, ((i + 7) / 8) as nat),
                forall|j: int| 0 <= j < i ==> buf@[j] == xs_bytes(s0, n as int)[j],
            decreases n - i,
        {
            assert(i % 8 == 0);
            let v = self.next_u64();
            let ghost k = (i / 8) as nat;
            assert(v == xs_iter(s0, k + 1));
            let mut b: usize = 0;
            let ghost before = buf@;
            while b < 8 && i + b < n
                invariant
                    n == buf@.len(),
                    i + 8 <= n + 8,
                    i % 8 == 0,
                    b <= 8,
                    i + b <= n,
                    v == xs_iter(s0, (i / 8 + 1) as nat),
                    forall|j: int| 0 <= j < i ==> buf@[j] == before[j],
                    forall|j: int| 0 <= j < i ==> before[j] == xs_bytes(s0, n as int)[j],
                    forall|j: int| i <= j < i + b ==> buf@[j] == u64_bytes(v)[j - i],
                decreases 8 - b,
            {
                buf[i + b] = byte_of(v, b);
                b += 1;
            }
            proof {
                assert forall|j: int| 0 <= j < i + b implies buf@[j] == xs_bytes(s0, n as int)[j] by {
                    if j >= i {
                        assert(j / 8 == i / 8 && j % 8 == j - i);
                    }
                }
            }
            i = i + b;
            if i < n {
                assert(b == 8);
            }
            assert((i + 7) / 8 == k + 1);
        }
        assert(buf@ =~= xs_bytes(s0, n as int));
    }
}

/// Byte `b` of the little-endian bytes of `v`.
fn byte_of(v: u64, b: usize) -> (r: u8)
    requires
        b < 8,
    ensures
        r == u64_bytes(v)[b as int],
{
    let lo = (v & 0xffff_ffff) as u32;
    let hi = (v >> 32) as u32;
    let w = if b < 4 {
        lo
    } else {
        hi
    };
    let s = if b < 4 {
        b
    } else {
        b - 4
    };
    (if s == 0 {
        w & 0xff
    } else if s == 1 {
        (w >> 8) & 0xff
    } else if s == 2 {
        (w >> 16) & 0xff
    } else {
        (w >> 24) & 0xff
    }) as u8
}

/// `n` bytes of random printable text from `rng`: each output gives up to
/// eight characters, byte by byte, each byte reduced modulo 96 to a
/// printable ASCII character or a line feed.
pub fn random_text(rng: &mut Xorshift64, n: usize) -> (r: Vec<u8>)
    ensures
        r@ == xs_text(old(rng).state, n as int),
        final(rng).state == xs_iter(old(rng).state, ((n + 7) / 8) as nat),
{
    let mut buf: Vec<u8> = crate::bytes::zeros(n);
    rng.fill(buf.as_mut_slice());
    let ghost raw = buf@;
    let mut i: usize = 0;
    while i < n
        invariant
            buf@.len() == n,
            raw.len() == n,
            i <= n,
            forall|j: int| 0 <= j < i ==> buf@[j] == text_char((raw[j] as int) % 96),
            forall|j: int| i <= j < n ==> buf@[j] == raw[j],
        decreases n - i,
    {
        let b = buf[i];
        let k = b % 96;
        let c: u8 = if k < 95 {
            0x20 + k
        } else {
            0x0A
        };
        buf.set(i, c);
        i += 1;
    }
    proof {
        assert(raw =~= xs_bytes(old(rng).state, n as int));
        assert(buf@ =~= xs_text(old(rng).state, n as int));
    }
    buf
}

} // verus!
