//! Bitmap data structure.
//!
//! Most file systems keep bitmaps of taken and free inodes and blocks. Bit `k`
//! of the bitmap is bit `k % 8` (least significant first) of byte `k / 8`; a
//! set bit means "taken".
use crate::error::FsError;
use vstd::prelude::*;

verus! {

/// Whether bit `j` (0..8, least significant first) of `b` is set.
pub open spec fn bit_of(b: u8, j: u8) -> bool {
    b & (1u8 << j) != 0
}

/// The bits of `map`, byte by byte, least significant bit first.
pub open spec fn bits_of(map: Seq<u8>) -> Seq<bool> {
    Seq::new(8 * map.len(), |k: int| bit_of(map[k / 8], (k % 8) as u8))
}

/// The number of `true` entries of `s`.
pub open spec fn count_true(s: Seq<bool>) -> nat
    decreases s.len(),
{
    if s.len() == 0 {
        0
    } else {
        count_true(s.drop_last()) + if s.last() { 1nat } else { 0nat }
    }
}

/// The number of `false` entries of `s`.
pub open spec fn count_false(s: Seq<bool>) -> nat
    decreases s.len(),
{
    if s.len() == 0 {
        0
    } else {
        count_false(s.drop_last()) + if s.last() { 0nat } else { 1nat }
    }
}

/// How many leading bits of a bitmap of `len` bytes and limit `max` the
/// counting operations look at: every bit of every byte whose last bit is at
/// most `max`, and in a last byte that reaches past `max`, the bits below
/// `max`.
pub open spec fn counted_len(len: nat, max: nat) -> nat {
    if 8 * len <= max + 1 {
        8 * len
    } else {
        max
    }
}

/// Whether `k` is the lowest clear bit of `bits`.
pub open spec fn is_first_clear(bits: Seq<bool>, k: int) -> bool {
    &&& 0 <= k < bits.len()
    &&& !bits[k]
    &&& forall|m: int| 0 <= m < k ==> #[trigger] bits[m]
}

pub struct Bitmap {
    pub map: Vec<u8>,
    pub max: usize,
}

proof fn lemma_byte_full(b: u8)
    ensures
        (b == 0xFFu8) <==> (bit_of(b, 0) && bit_of(b, 1) && bit_of(b, 2) && bit_of(b, 3)
            && bit_of(b, 4) && bit_of(b, 5) && bit_of(b, 6) && bit_of(b, 7)),
{
    assert((b == 0xFFu8) <==> (b & 1u8 != 0 && b & 2u8 != 0 && b & 4u8 != 0 && b & 8u8 != 0
        && b & 16u8 != 0 && b & 32u8 != 0 && b & 64u8 != 0 && b & 128u8 != 0)) by (bit_vector);
    assert(1u8 << 0u8 == 1u8 && 1u8 << 1u8 == 2u8 && 1u8 << 2u8 == 4u8 && 1u8 << 3u8 == 8u8
        && 1u8 << 4u8 == 16u8 && 1u8 << 5u8 == 32u8 && 1u8 << 6u8 == 64u8 && 1u8 << 7u8
        == 128u8) by (bit_vector);
}

proof fn lemma_byte_full_forall(b: u8)
    ensures
        (b == 0xFFu8) <==> (forall|j: u8| j < 8 ==> #[trigger] bit_of(b, j)),
{
    lemma_byte_full(b);
    if forall|j: u8| j < 8 ==> #[trigger] bit_of(b, j) {
        assert(bit_of(b, 0) && bit_of(b, 1) && bit_of(b, 2) && bit_of(b, 3));
        assert(bit_of(b, 4) && bit_of(b, 5) && bit_of(b, 6) && bit_of(b, 7));
    }
    if b == 0xFFu8 {
        assert forall|j: u8| j < 8 implies #[trigger] bit_of(b, j) by {
            assert(j == 0 || j == 1 || j == 2 || j == 3 || j == 4 || j == 5 || j == 6 || j == 7);
        }
    }
}

/// The lowest clear bit of a byte that is not full.
spec fn lowest_clear(b: u8) -> u8 {
    if !bit_of(b, 0) {
        0
    } else if !bit_of(b, 1) {
        1
    } else if !bit_of(b, 2) {
        2
    } else if !bit_of(b, 3) {
        3
    } else if !bit_of(b, 4) {
        4
    } else if !bit_of(b, 5) {
        5
    } else if !bit_of(b, 6) {
        6
    } else {
        7
    }
}

proof fn lemma_lowest_clear(b: u8)
    requires
        b != 0xFFu8,
    ensures
        lowest_clear(b) < 8,
        !bit_of(b, lowest_clear(b)),
        forall|j: u8| j < lowest_clear(b) ==> #[trigger] bit_of(b, j),
{
    lemma_byte_full(b);
    assert forall|j: u8| j < lowest_clear(b) implies #[trigger] bit_of(b, j) by {
        assert(j == 0 || j == 1 || j == 2 || j == 3 || j == 4 || j == 5 || j == 6);
    }
}

proof fn lemma_bit_or(b: u8, j: u8, i: u8)
    requires
        j < 8,
        i < 8,
    ensures
        bit_of(b | (1u8 << j), i) == (i == j || bit_of(b, i)),
{
    assert(j < 8 && i < 8 ==> ((b | (1u8 << j)) & (1u8 << i) != 0) == (i == j || b & (1u8 << i)
        != 0)) by (bit_vector);
}

proof fn lemma_bit_clear(b: u8, j: u8, i: u8)
    requires
        j < 8,
        i < 8,
    ensures
        bit_of(b & !(1u8 << j), i) == (i != j && bit_of(b, i)),
{
    assert(j < 8 && i < 8 ==> ((b & !(1u8 << j)) & (1u8 << i) != 0) == (i != j && b & (1u8 << i)
        != 0)) by (bit_vector);
}

proof fn lemma_count_step(s: Seq<bool>, k: int)
    requires
        0 <= k < s.len(),
    ensures
        count_true(s.take(k + 1)) == count_true(s.take(k)) + if s[k] { 1nat } else { 0nat },
        count_false(s.take(k + 1)) == count_false(s.take(k)) + if s[k] { 0nat } else { 1nat },
{
    assert(s.take(k + 1).drop_last() =~= s.take(k));
}

/// The bits of a bitmap after one byte changed: outside that byte nothing
/// changed.
proof fn lemma_bits_update(map: Seq<u8>, byte: int, nb: u8, k: int)
    requires
        0 <= byte < map.len(),
        0 <= k < 8 * map.len(),
        k / 8 != byte,
    ensures
        bits_of(map.update(byte, nb))[k] == bits_of(map)[k],
{
}

impl Bitmap {
    /// The bits of the bitmap.
    pub open spec fn bits(&self) -> Seq<bool> {
        bits_of(self.map@)
    }

    /// The bitmap's bits are addressable by `usize` arithmetic.
    pub open spec fn addressable(&self) -> bool {
        8 * self.map.len() <= usize::MAX
    }

    pub fn take(map: Vec<u8>, max: usize) -> (r: Self)
        ensures
            r.map@ == map@,
            r.max == max,
    {
        Self { map, max }
    }

    pub fn len(&self) -> (r: usize)
        ensures
            r == self.map.len(),
    {
        self.map.len()
    }

    pub fn is_index_ok(&self, index: usize) -> (r: bool)
        ensures
            r == (index / 8 <= self.map.len()),
    {
        let byte_index = index / 8;
        byte_index <= self.len()
    }

    /// The lowest clear bit, or `None` when every bit is set.
    pub fn next(&self) -> (r: Option<usize>)
        requires
            self.addressable(),
            forall|k: int| is_first_clear(self.bits(), k) ==> 8 * (k / 8) <= self.max,
        ensures
            match r {
                None => forall|k: int| 0 <= k < self.bits().len() ==> #[trigger] self.bits()[k],
                Some(k) => is_first_clear(self.bits(), k as int),
            },
    {
        let ghost bits = self.bits();
        let mut i: usize = 0;
        while i < self.len()
            invariant
                i <= self.map.len(),
                self.addressable(),
                bits == self.bits(),
                forall|k: int| is_first_clear(bits, k) ==> 8 * (k / 8) <= self.max,
                forall|k: int| 0 <= k < 8 * i ==> #[trigger] bits[k],
            decreases self.map.len() - i,
        {
            if self.map[i] != 0xFF {
                proof {
                    lemma_lowest_clear(self.map@[i as int]);
                    let jj = lowest_clear(self.map@[i as int]);
                    let k: int = 8 * i + jj;
                    assert(k / 8 == i && k % 8 == jj);
                    assert(0 <= k < bits.len());
                    assert(bits[k] == bit_of(self.map@[k / 8], (k % 8) as u8));
                    assert(!bits[k]);
                    assert forall|m: int| 0 <= m < k implies #[trigger] bits[m] by {
                        if m >= 8 * i {
                            assert(m / 8 == i);
                            assert(((m % 8) as u8) < jj);
                        }
                    }
                    assert(is_first_clear(bits, k));
                }
                let end = if 8 * i > self.max {
                    self.max - 8 * i
                } else {
                    8
                };
                let mut j: usize = 0;
                while j < end
                    invariant
                        j <= end,
                        end == 8,
                        i < self.map.len(),
                        8 * i + 8 <= usize::MAX,
                        bits == self.bits(),
                        forall|k: int| 0 <= k < 8 * i ==> #[trigger] bits[k],
                        forall|k: int| 8 * i <= k < 8 * i + j ==> #[trigger] bits[k],
                    decreases end - j,
                {
                    if (self.map[i] & (1u8 << (j as u8))) == 0 {
                        proof {
                            let k = 8 * i + j;
                            assert(k / 8 == i && k % 8 == j);
                            assert(!bits[k as int]);
                        }
                        return Some((i * 8) + j);
                    }
                    proof {
                        let k = 8 * i + j;
                        assert(k / 8 == i && k % 8 == j);
                        assert(bits[k as int]);
                    }
                    j = j + 1;
                }
                proof {
                    assert forall|j: u8| j < 8 implies #[trigger] bit_of(self.map[i as int], j) by {
                        let k = 8 * i + j;
                        assert(k / 8 == i && k % 8 == j);
                        assert(bits[k]);
                    }
                    lemma_byte_full_forall(self.map[i as int]);
                }
            }
            proof {
                assert forall|k: int| 0 <= k < 8 * (i + 1) implies #[trigger] bits[k] by {
                    if k >= 8 * i {
                        lemma_byte_full_forall(self.map[i as int]);
                        assert(k / 8 == i);
                        assert(bit_of(self.map[i as int], (k % 8) as u8));
                    }
                }
            }
            i = i + 1;
        }
        None
    }

    /// Take the lowest clear bit: set it and return its index.
    pub fn take_next(&mut self) -> (r: Option<usize>)
        requires
            old(self).addressable(),
            forall|k: int| is_first_clear(old(self).bits(), k) ==> 8 * (k / 8) <= old(self).max,
        ensures
            final(self).max == old(self).max,
            final(self).map.len() == old(self).map.len(),
            match r {
                None => {
                    &&& forall|k: int|
                        0 <= k < old(self).bits().len() ==> #[trigger] old(self).bits()[k]
                    &&& final(self).map@ == old(self).map@
                },
                Some(k) => {
                    &&& is_first_clear(old(self).bits(), k as int)
                    &&& final(self).bits() == old(self).bits().update(k as int, true)
                },
            },
    {
        if let Some(index) = self.next() {
            if let Err(_) = self.set(index) {
                return None;
            }
            return Some(index);
        }
        None
    }

    /// Whether bit `index` is set.
    pub fn is_set(&self, index: usize) -> (r: Result<bool, FsError>)
        requires
            index / 8 < self.map.len(),
        ensures
            r == Ok::<bool, FsError>(self.bits()[index as int]),
    {
        let byte_index = index / 8;
        let bit_index = index % 8;
        Ok((self.map[byte_index] & (1u8 << (bit_index as u8))) != 0)
    }

    /// Set bit `index`; an index whose byte lies past the end of the map is
    /// refused.
    pub fn set(&mut self, index: usize) -> (r: Result<(), FsError>)
        requires
            index / 8 != old(self).map.len(),
        ensures
            final(self).max == old(self).max,
            final(self).map.len() == old(self).map.len(),
            index / 8 > old(self).map.len() ==> r == Err::<(), FsError>(FsError::IndexOutOfBounds)
                && final(self).map@ == old(self).map@,
            index / 8 < old(self).map.len() ==> r is Ok && final(self).bits() == old(
                self,
            ).bits().update(index as int, true),
    {
        let byte_index = index / 8;
        let bit_index = index % 8;
        if !self.is_index_ok(index) {
            return Err(FsError::IndexOutOfBounds);
        }
        let ghost old_map = self.map@;
        let nb = self.map[byte_index] | (1u8 << (bit_index as u8));
        self.map.set(byte_index, nb);
        proof {
            assert forall|k: int| 0 <= k < 8 * old_map.len() implies #[trigger] bits_of(
                self.map@,
            )[k] == bits_of(old_map).update(index as int, true)[k] by {
                if k / 8 == byte_index {
                    lemma_bit_or(old_map[byte_index as int], bit_index as u8, (k % 8) as u8);
                } else {
                    lemma_bits_update(old_map, byte_index as int, nb, k);
                }
            }
            assert(bits_of(self.map@) =~= bits_of(old_map).update(index as int, true));
        }
        Ok(())
    }

    /// Clear bit `index`; an index whose byte lies past the end of the map is
    /// refused.
    pub fn clear(&mut self, index: usize) -> (r: Result<(), FsError>)
        requires
            index / 8 != old(self).map.len(),
        ensures
            final(self).max == old(self).max,
            final(self).map.len() == old(self).map.len(),
            index / 8 > old(self).map.len() ==> r == Err::<(), FsError>(FsError::IndexOutOfBounds)
                && final(self).map@ == old(self).map@,
            index / 8 < old(self).map.len() ==> r is Ok && final(self).bits() == old(
                self,
            ).bits().update(index as int, false),
    {
        let byte_index = index / 8;
        let bit_index = index % 8;
        if !self.is_index_ok(index) {
            return Err(FsError::IndexOutOfBounds);
        }
        let ghost old_map = self.map@;
        let nb = self.map[byte_index] & !(1u8 << (bit_index as u8));
        self.map.set(byte_index, nb);
        proof {
            assert forall|k: int| 0 <= k < 8 * old_map.len() implies #[trigger] bits_of(
                self.map@,
            )[k] == bits_of(old_map).update(index as int, false)[k] by {
                if k / 8 == byte_index {
                    lemma_bit_clear(old_map[byte_index as int], bit_index as u8, (k % 8) as u8);
                } else {
                    lemma_bits_update(old_map, byte_index as int, nb, k);
                }
            }
            assert(bits_of(self.map@) =~= bits_of(old_map).update(index as int, false));
        }
        Ok(())
    }

    /// The number of set bits among the first `counted_len` bits.
    pub fn count_taken(&self) -> (r: usize)
        requires
            self.addressable(),
            8 * self.map.len() <= self.max + 8,
        ensures
            r == count_true(self.bits().take(counted_len(self.map.len() as nat, self.max as nat) as int)),
    {
        let ghost bits = self.bits();
        let mut ret: usize = 0;
        let mut i: usize = 0;
        while i < self.map.len()
            invariant
                i <= self.map.len(),
                self.addressable(),
                8 * self.map.len() <= self.max + 8,
                bits == self.bits(),
                8 * i <= counted_len(self.map.len() as nat, self.max as nat),
                ret == count_true(bits.take(8 * i)),
                ret <= 8 * i,
            decreases self.map.len() - i,
        {
            let end = if (8 * i + 7) > self.max {
                self.max - 8 * i
            } else {
                8
            };
            assert(end <= 8);
            let mut j: usize = 0;
            while j < end
                invariant
                    j <= end <= 8,
                    i < self.map.len(),
                    self.addressable(),
                    bits == self.bits(),
                    ret == count_true(bits.take(8 * i + j)),
                    ret <= 8 * i + j,
                decreases end - j,
            {
                proof {
                    let k: int = 8 * i + j;
                    assert(k / 8 == i && k % 8 == j);
                    lemma_count_step(bits, k);
                }
                if (self.map[i] & (1u8 << (j as u8))) != 0 {
                    ret += 1;
                }
                j = j + 1;
            }
            if end < 8 {
                proof {
                    assert(i + 1 == self.map.len());
                    assert(counted_len(self.map.len() as nat, self.max as nat) == 8 * i + end);
                    assert(bits.take(8 * i + end) =~= bits.take(counted_len(self.map.len() as nat, self.max as nat) as int));
                }
                return ret;
            }
            i = i + 1;
        }
        proof {
            assert(bits.take(8 * i) =~= bits.take(counted_len(self.map.len() as nat, self.max as nat) as int));
        }
        ret
    }

    /// The number of clear bits among the first `counted_len` bits.
    pub fn count_free(&self) -> (r: usize)
        requires
            self.addressable(),
            8 * self.map.len() <= self.max + 8,
        ensures
            r == count_false(self.bits().take(counted_len(self.map.len() as nat, self.max as nat) as int)),
    {
        let ghost bits = self.bits();
        let mut ret: usize = 0;
        let mut i: usize = 0;
        while i < self.map.len()
            invariant
                i <= self.map.len(),
                self.addressable(),
                8 * self.map.len() <= self.max + 8,
                bits == self.bits(),
                8 * i <= counted_len(self.map.len() as nat, self.max as nat),
                ret == count_false(bits.take(8 * i)),
                ret <= 8 * i,
            decreases self.map.len() - i,
        {
            let end = if (8 * i + 7) > self.max {
                self.max - 8 * i
            } else {
                8
            };
            assert(end <= 8);
            let mut j: usize = 0;
            while j < end
                invariant
                    j <= end <= 8,
                    i < self.map.len(),
                    self.addressable(),
                    bits == self.bits(),
                    ret == count_false(bits.take(8 * i + j)),
                    ret <= 8 * i + j,
                decreases end - j,
            {
                proof {
                    let k: int = 8 * i + j;
                    assert(k / 8 == i && k % 8 == j);
                    lemma_count_step(bits, k);
                }
                if (self.map[i] & (1u8 << (j as u8))) == 0 {
                    ret += 1;
                }
                j = j + 1;
            }
            if end < 8 {
                proof {
                    assert(i + 1 == self.map.len());
                    assert(counted_len(self.map.len() as nat, self.max as nat) == 8 * i + end);
                    assert(bits.take(8 * i + end) =~= bits.take(counted_len(self.map.len() as nat, self.max as nat) as int));
                }
                return ret;
            }
            i = i + 1;
        }
        proof {
            assert(bits.take(8 * i) =~= bits.take(counted_len(self.map.len() as nat, self.max as nat) as int));
        }
        ret
    }

    pub fn get_map(&self) -> (r: &[u8])
        ensures
            r@ == self.map@,
    {
        self.map.as_slice()
    }

    pub fn get_map_mut(&mut self) -> (r: &mut [u8])
        ensures
            r@ == old(self).map@,
            final(self).map@ == final(r)@,
            final(self).max == old(self).max,
    {
        self.map.as_mut_slice()
    }
}

/// Every counted bit is either taken or free: the two counts of a bitmap add
/// up to the number of bits counted.
pub proof fn law_taken_plus_free(s: Seq<bool>)
    ensures
        count_true(s) + count_false(s) == s.len(),
    decreases s.len(),
{
    if s.len() > 0 {
        law_taken_plus_free(s.drop_last());
    }
}

/// After `set(k)` the bit tests as set, and every other bit tests as before;
/// after `clear(k)` it tests as clear, and every other bit as before.
pub proof fn law_set_clear_then_test(bits: Seq<bool>, k: int, m: int)
    requires
        0 <= k < bits.len(),
        0 <= m < bits.len(),
    ensures
        bits.update(k, true)[k],
        !bits.update(k, false)[k],
        m != k ==> bits.update(k, true)[m] == bits[m] && bits.update(k, false)[m] == bits[m],
{
}

/// Taking a free bit leaves one free bit less.
pub proof fn lemma_count_false_take(s: Seq<bool>, t: int)
    requires
        0 <= t < s.len(),
        !s[t],
    ensures
        count_false(s.update(t, true)) + 1 == count_false(s),
    decreases s.len(),
{
    if t == s.len() - 1 {
        assert(s.update(t, true).drop_last() =~= s.drop_last());
    } else {
        assert(s.update(t, true).drop_last() =~= s.drop_last().update(t, true));
        lemma_count_false_take(s.drop_last(), t);
    }
}

/// A bitmap whose every bit is taken has no free bit.
pub proof fn lemma_count_false_full(s: Seq<bool>)
    requires
        forall|k: int| 0 <= k < s.len() ==> #[trigger] s[k],
    ensures
        count_false(s) == 0,
    decreases s.len(),
{
    if s.len() > 0 {
        assert forall|k: int| 0 <= k < s.drop_last().len() implies #[trigger] s.drop_last()[k] by {
            assert(s[k]);
        }
        lemma_count_false_full(s.drop_last());
    }
}

/// Two bytes with the same eight bits are the same byte.
proof fn lemma_byte_from_bits(a: u8, b: u8)
    requires
        bit_of(a, 0) == bit_of(b, 0),
        bit_of(a, 1) == bit_of(b, 1),
        bit_of(a, 2) == bit_of(b, 2),
        bit_of(a, 3) == bit_of(b, 3),
        bit_of(a, 4) == bit_of(b, 4),
        bit_of(a, 5) == bit_of(b, 5),
        bit_of(a, 6) == bit_of(b, 6),
        bit_of(a, 7) == bit_of(b, 7),
    ensures
        a == b,
{
    assert(a == b) by (bit_vector)
        requires
            (a & (1u8 << 0u8) != 0) == (b & (1u8 << 0u8) != 0),
            (a & (1u8 << 1u8) != 0) == (b & (1u8 << 1u8) != 0),
            (a & (1u8 << 2u8) != 0) == (b & (1u8 << 2u8) != 0),
            (a & (1u8 << 3u8) != 0) == (b & (1u8 << 3u8) != 0),
            (a & (1u8 << 4u8) != 0) == (b & (1u8 << 4u8) != 0),
            (a & (1u8 << 5u8) != 0) == (b & (1u8 << 5u8) != 0),
            (a & (1u8 << 6u8) != 0) == (b & (1u8 << 6u8) != 0),
            (a & (1u8 << 7u8) != 0) == (b & (1u8 << 7u8) != 0),
    ;
}

/// Bit `j` of byte `i` of two maps with the same bits is the same.
proof fn lemma_bit_at(a: Seq<u8>, b: Seq<u8>, i: int, j: int)
    requires
        a.len() == b.len(),
        bits_of(a) == bits_of(b),
        0 <= i < a.len(),
        0 <= j < 8,
    ensures
        bit_of(a[i], j as u8) == bit_of(b[i], j as u8),
{
    let k = 8 * i + j;
    assert(k / 8 == i && k % 8 == j);
    assert(0 <= k < 8 * a.len());
    assert(bits_of(a)[k] == bit_of(a[k / 8], (k % 8) as u8));
    assert(bits_of(b)[k] == bit_of(b[k / 8], (k % 8) as u8));
    assert(bits_of(a)[k] == bits_of(b)[k]);
}

/// Maps of one length with the same bits are the same bytes.
proof fn lemma_map_from_bits(a: Seq<u8>, b: Seq<u8>)
    requires
        a.len() == b.len(),
        bits_of(a) == bits_of(b),
    ensures
        a == b,
{
    assert forall|i: int| 0 <= i < a.len() implies a[i] == b[i] by {
        lemma_bit_at(a, b, i, 0);
        lemma_bit_at(a, b, i, 1);
        lemma_bit_at(a, b, i, 2);
        lemma_bit_at(a, b, i, 3);
        lemma_bit_at(a, b, i, 4);
        lemma_bit_at(a, b, i, 5);
        lemma_bit_at(a, b, i, 6);
        lemma_bit_at(a, b, i, 7);
        lemma_byte_from_bits(a[i], b[i]);
    }
    assert(a =~= b);
}

/// Clearing a bit that `set` has just taken gives back the map as it was,
/// byte for byte: `before` is the map, `after_set` the map that `set(k)`
/// left, `after_clear` the one that `clear(k)` left after it.
pub proof fn law_clear_undoes_set(before: Seq<u8>, after_set: Seq<u8>, after_clear: Seq<u8>, k: int)
    requires
        0 <= k < bits_of(before).len(),
        !bits_of(before)[k],
        after_set.len() == before.len(),
        bits_of(after_set) == bits_of(before).update(k, true),
        after_clear.len() == before.len(),
        bits_of(after_clear) == bits_of(after_set).update(k, false),
    ensures
        after_clear == before,
{
    assert(bits_of(after_clear) =~= bits_of(before));
    lemma_map_from_bits(after_clear, before);
}

/// `take_next` takes the bit that `next` names: both name the lowest clear
/// bit, of which there is at most one.
pub proof fn law_take_next_is_next(bits: Seq<bool>, a: int, b: int)
    requires
        is_first_clear(bits, a),
        is_first_clear(bits, b),
    ensures
        a == b,
{
    if a < b {
        assert(bits[a]);
    } else if b < a {
        assert(bits[b]);
    }
}

/// The number of set bits of the byte `b` (its `count_ones`).
pub open spec fn byte_ones(b: u8) -> nat {
    (if bit_of(b, 0) { 1nat } else { 0nat }) + (if bit_of(b, 1) { 1nat } else { 0nat }) + (if bit_of(b, 2) { 1nat } else {
        0nat
    }) + (if bit_of(b, 3) { 1nat } else { 0nat }) + (if bit_of(b, 4) { 1nat } else { 0nat }) + (if bit_of(b, 5) { 1nat } else {
        0nat
    }) + (if bit_of(b, 6) { 1nat } else { 0nat }) + (if bit_of(b, 7) { 1nat } else { 0nat })
}

/// The set bits of all bytes of `m`, byte by byte.
pub open spec fn map_ones(m: Seq<u8>) -> nat
    decreases m.len(),
{
    if m.len() == 0 {
        0
    } else {
        map_ones(m.drop_last()) + byte_ones(m.last())
    }
}

proof fn lemma_count_true_concat(a: Seq<bool>, b: Seq<bool>)
    ensures
        count_true(a + b) == count_true(a) + count_true(b),
    decreases b.len(),
{
    if b.len() > 0 {
        assert((a + b).drop_last() =~= a + b.drop_last());
        lemma_count_true_concat(a, b.drop_last());
    }
}

/// The number of set bits of a bitmap is the sum of the `count_ones` of
/// its bytes; `count_taken` counts them where the limit covers every byte,
/// and with `count_free` it adds up to the number of bits.
pub proof fn law_taken_is_sum_of_ones(m: Seq<u8>)
    ensures
        count_true(bits_of(m)) == map_ones(m),
        count_true(bits_of(m)) + count_false(bits_of(m)) == 8 * m.len(),
    decreases m.len(),
{
    law_taken_plus_free(bits_of(m));
    if m.len() > 0 {
        let init = m.drop_last();
        let x = m.last();
        let last_bits = Seq::new(8, |j: int| bit_of(x, j as u8));
        assert(bits_of(m) =~= bits_of(init) + last_bits) by {
            assert forall|k: int| 0 <= k < bits_of(m).len() implies #[trigger] bits_of(m)[k] == (bits_of(init) + last_bits)[k] by {
                if k < 8 * init.len() {
                    assert(k / 8 < init.len());
                    assert(m[k / 8] == init[k / 8]);
                } else {
                    assert(k / 8 == init.len());
                }
            }
        }
        lemma_count_true_concat(bits_of(init), last_bits);
        law_taken_is_sum_of_ones(init);
        assert(count_true(last_bits) == byte_ones(x)) by {
            reveal_with_fuel(count_true, 9);
            assert(last_bits.drop_last().drop_last().drop_last().drop_last().drop_last().drop_last().drop_last().drop_last()
                =~= Seq::<bool>::empty());
        }
    }
}

/// Where the limit of a bitmap is its number of bits, what `count_taken`
/// and `count_free` count adds up to that limit.
pub proof fn law_count_taken_plus_free(b: Bitmap)
    requires
        b.max == 8 * b.map.len(),
    ensures
        count_true(b.bits().take(counted_len(b.map.len() as nat, b.max as nat) as int)) + count_false(
            b.bits().take(counted_len(b.map.len() as nat, b.max as nat) as int),
        ) == b.max,
{
    assert(b.bits().take(counted_len(b.map.len() as nat, b.max as nat) as int) =~= b.bits());
    law_taken_plus_free(b.bits());
}

} // verus!
