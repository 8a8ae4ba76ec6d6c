//! Minix 3 directory entries.
use crate::bytes::{le_u32, push_u32, read_u32, u32_bytes, utf8_to_string};
use crate::minix::consts::{DIR_ENTRY_BYTES, DIR_ENTRY_NAME_SIZE};
use vstd::prelude::*;
use vstd::string::StringSliceAdditionalSpecFns;
use vstd::utf8::{decode_utf8, encode_utf8, valid_utf8};

verus! {

/// An on-disk directory entry: an inode number and a zero-padded name
/// (64 bytes).
#[derive(Debug, Copy, Clone)]
pub struct DirEntry {
    pub inode: u32,
    pub name: [u8; 60],
}

/// The first `n` bytes of `bs`, padded with zeros (or cut) to 60 bytes.
pub open spec fn padded_name(bs: Seq<u8>) -> Seq<u8> {
    Seq::new(60, |i: int| if i < bs.len() { bs[i] } else { 0u8 })
}

/// The index of the first zero byte of `bs`, or its length.
pub open spec fn first_zero(bs: Seq<u8>, i: int) -> int
    decreases bs.len() - i,
{
    if i < 0 || i >= bs.len() || bs[i] == 0 {
        i
    } else {
        first_zero(bs, i + 1)
    }
}

/// The name bytes of an entry: those before the first zero.
pub open spec fn name_bytes(name: Seq<u8>) -> Seq<u8> {
    name.take(first_zero(name, 0))
}

/// The name an entry shows: its name bytes as UTF-8, or `<invalid utf-8>`.
pub open spec fn spec_entry_name(name: Seq<u8>) -> Seq<char> {
    if valid_utf8(name_bytes(name)) {
        decode_utf8(name_bytes(name))
    } else {
        "<invalid utf-8>"@
    }
}

proof fn lemma_first_zero(bs: Seq<u8>, i: int)
    requires
        0 <= i <= bs.len(),
    ensures
        i <= first_zero(bs, i) <= bs.len(),
        first_zero(bs, i) < bs.len() ==> bs[first_zero(bs, i)] == 0,
        forall|k: int| i <= k < first_zero(bs, i) ==> bs[k] != 0,
    decreases bs.len() - i,
{
    if i < bs.len() && bs[i] != 0 {
        lemma_first_zero(bs, i + 1);
    }
}

impl DirEntry {
    /// An entry for `inode` named by the first 60 bytes of `name`.
    pub fn new(inode: u32, name: &str) -> (r: Self)
        ensures
            r.inode == inode,
            r.name@ == padded_name(name.spec_bytes()),
    {
        let mut name_bytes = [0u8; 60];
        let bytes = name.as_bytes();
        let n = if bytes.len() < DIR_ENTRY_NAME_SIZE { bytes.len() } else { DIR_ENTRY_NAME_SIZE };
        let mut k: usize = 0;
        while k < n
            invariant
                n <= 60,
                n <= bytes@.len(),
                k <= n,
                name_bytes@.len() == 60,
                forall|i: int| 0 <= i < k ==> name_bytes@[i] == bytes@[i],
                forall|i: int| k <= i < 60 ==> name_bytes@[i] == 0,
            decreases n - k,
        {
            name_bytes[k] = bytes[k];
            k += 1;
        }
        assert(name_bytes@ =~= padded_name(name.spec_bytes()));
        Self { inode, name: name_bytes }
    }

    /// The entry stored at `bs[off..off + 64]`.
    pub fn from_bytes(bs: &[u8], off: usize) -> (r: Self)
        requires
            off + DIR_ENTRY_BYTES <= bs@.len(),
        ensures
            r.inode == le_u32(bs@, off as int),
            r.name@ == bs@.subrange(off + 4, off + 64),
    {
        let n = bs.len();
        let inode = read_u32(bs, off);
        let mut name = [0u8; 60];
        let mut k: usize = 0;
        while k < 60
            invariant
                off + 64 <= bs@.len(),
                n == bs@.len(),
                k <= 60,
                name@.len() == 60,
                forall|i: int| 0 <= i < k ==> name@[i] == bs@[off + 4 + i],
            decreases 60 - k,
        {
            name[k] = bs[off + 4 + k];
            k += 1;
        }
        assert(name@ =~= bs@.subrange(off + 4, off + 64));
        DirEntry { inode, name }
    }

    /// The 64 on-disk bytes of the entry.
    pub fn to_bytes(&self) -> (r: Vec<u8>)
        ensures
            r@ == u32_bytes(self.inode) + self.name@,
            r@.len() == DIR_ENTRY_BYTES,
    {
        let mut v: Vec<u8> = Vec::new();
        push_u32(&mut v, self.inode);
        let mut k: usize = 0;
        while k < 60
            invariant
                k <= 60,
                self.name@.len() == 60,
                v@ == u32_bytes(self.inode) + self.name@.take(k as int),
            decreases 60 - k,
        {
            v.push(self.name[k]);
            k += 1;
            assert(v@ =~= u32_bytes(self.inode) + self.name@.take(k as int));
        }
        assert(self.name@.take(60) =~= self.name@);
        v
    }

    /// The entry's name: the bytes before the first zero, as UTF-8, or
    /// `<invalid utf-8>` when they are not.
    pub fn name(&self) -> (r: String)
        ensures
            r@ == spec_entry_name(self.name@),
    {
        let mut cleaned: Vec<u8> = Vec::new();
        let mut k: usize = 0;
        proof {
            lemma_first_zero(self.name@, 0);
        }
        while k < 60 && self.name[k] != 0
            invariant
                k <= 60,
                self.name@.len() == 60,
                first_zero(self.name@, 0) == first_zero(self.name@, k as int),
                cleaned@ == self.name@.take(k as int),
            decreases 60 - k,
        {
            cleaned.push(self.name[k]);
            k += 1;
            assert(cleaned@ =~= self.name@.take(k as int));
        }
        assert(first_zero(self.name@, k as int) == k);
        match utf8_to_string(cleaned.as_slice()) {
            Some(s) => s,
            None => {
                let s = String::from_str("<invalid utf-8>");
                proof {
                    reveal_strlit("<invalid utf-8>");
                }
                s
            },
        }
    }
}

/// A name of at most 60 bytes with no zero byte comes back unchanged from
/// an entry made with it: `DirEntry::new(i, s).name()` is `s`.
pub proof fn law_entry_name_round_trip(s: Seq<char>)
    requires
        encode_utf8(s).len() <= 60,
        forall|k: int| 0 <= k < encode_utf8(s).len() ==> #[trigger] encode_utf8(s)[k] != 0,
    ensures
        spec_entry_name(padded_name(encode_utf8(s))) == s,
{
    let b = encode_utf8(s);
    let name = padded_name(b);
    lemma_first_zero(name, 0);
    let z = first_zero(name, 0);
    if z < b.len() {
        assert(name[z] == b[z]);
    }
    if b.len() < 60 {
        assert(name[b.len() as int] == 0);
        if z > b.len() {
            assert(name[b.len() as int] != 0);
        }
    }
    assert(z == b.len());
    assert(name_bytes(name) =~= b);
    vstd::utf8::encode_utf8_valid_utf8(s);
    vstd::utf8::encode_utf8_decode_utf8(s);
}

/// An ASCII name of more than 60 bytes with no NUL comes back cut to its
/// first 60 characters: the name field holds 60 bytes.
pub proof fn law_long_ascii_name_is_cut(s: Seq<char>)
    requires
        vstd::utf8::is_ascii_chars(s),
        s.len() > 60,
        forall|k: int| 0 <= k < s.len() ==> #[trigger] s[k] != '\0',
    ensures
        spec_entry_name(padded_name(encode_utf8(s))) == s.take(60),
{
    let t = s.take(60);
    assert(vstd::utf8::is_ascii_chars(t));
    vstd::utf8::is_ascii_chars_encode_utf8(s);
    vstd::utf8::is_ascii_chars_encode_utf8(t);
    assert forall|k: int| 0 <= k < 60 implies #[trigger] encode_utf8(t)[k] == encode_utf8(s)[k] by {
        assert(t[k] == s[k]);
    }
    assert(padded_name(encode_utf8(s)) =~= encode_utf8(t));
    assert forall|k: int| 0 <= k < encode_utf8(t).len() implies #[trigger] encode_utf8(t)[k] != 0 by {
        assert(t[k] == s[k]);
        assert(s[k] != '\0');
        assert((t[k] as u8) != 0);
    }
    assert(padded_name(encode_utf8(t)) =~= encode_utf8(t));
    law_entry_name_round_trip(t);
}

} // verus!
