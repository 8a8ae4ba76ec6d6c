//! In-memory file metadata (stats) and Unix permission handling.
use crate::bytes::push_char;
use crate::filetype::{spec_type_of_mode, FileType};
use crate::fs::InodeOperations;
use chrono::TimeZone;
use vstd::prelude::*;
use vstd::string::{StringExecFns, StringSliceAdditionalSpecFns};

verus! {

/// POSIX file type and permission constants.
pub const S_IFMT: u16 = 0o170000;
pub const S_IFSOCK: u16 = 0o140000;
pub const S_IFLNK: u16 = 0o120000;
pub const S_IFREG: u16 = 0o100000;
pub const S_IFBLK: u16 = 0o60000;
pub const S_IFDIR: u16 = 0o40000;
pub const S_IFCHR: u16 = 0o20000;
pub const S_IFIFO: u16 = 0o10000;

pub const S_IRWXU: u16 = 0o700;
pub const S_IRUSR: u16 = 0o400;
pub const S_IWUSR: u16 = 0o200;
pub const S_IXUSR: u16 = 0o100;

pub const S_IRWXG: u16 = 0o70;
pub const S_IRGRP: u16 = 0o40;
pub const S_IWGRP: u16 = 0o20;
pub const S_IXGRP: u16 = 0o10;

pub const S_IRWXO: u16 = 0o7;
pub const S_IROTH: u16 = 0o4;
pub const S_IWOTH: u16 = 0o2;
pub const S_IXOTH: u16 = 0o1;

pub struct Stat {
    pub dev: u64,
    pub ino: u64,
    pub mode: u32,
    pub nlink: u64,
    pub uid: u32,
    pub gid: u32,
    pub rdev: u64,
    pub size: u64,
    pub blksize: u64,
    pub blocks: u64,
    pub atime: u64,
    pub mtime: u64,
    pub ctime: u64,
}

impl Stat {
    pub fn permissions(&self) -> (r: u32)
        ensures
            r == self.mode & 0o777u32,
    {
        self.mode & 0o777
    }

    pub fn file_type(&self) -> (r: FileType)
        ensures
            r == spec_type_of_mode(self.mode as u16),
    {
        FileType::from_mode(self.mode as u16)
    }

    pub fn major(&self) -> (r: u32)
        ensures
            r == (self.rdev >> 8u64) as u32,
    {
        (self.rdev >> 8) as u32
    }

    pub fn minor(&self) -> (r: u32)
        ensures
            r == self.rdev & 0xFFu64,
    {
        proof {
            let rdev = self.rdev;
            assert(rdev & 0xFFu64 <= 0xFFu64) by (bit_vector);
        }
        (self.rdev & 0xFF) as u32
    }
}

/// Why a mode string was refused.
#[derive(Debug, Clone, PartialEq, Eq)]
pub enum ModeError {
    /// The string is made of octal digits only but is empty or exceeds 16 bits.
    InvalidOctal,
    /// A clause has no `+`, `-` or `=` after its "who" letters.
    MissingOperator { clause: Vec<u8> },
    /// A clause holds a byte that is no permission letter.
    InvalidPermission { clause: Vec<u8>, c: u8 },
}

/// The mathematical form of a `ModeError`.
pub enum ModeErrorView {
    InvalidOctal,
    MissingOperator { clause: Seq<u8> },
    InvalidPermission { clause: Seq<u8>, c: u8 },
}

impl View for ModeError {
    type V = ModeErrorView;

    open spec fn view(&self) -> ModeErrorView {
        match self {
            ModeError::InvalidOctal => ModeErrorView::InvalidOctal,
            ModeError::MissingOperator { clause } => ModeErrorView::MissingOperator {
                clause: clause@,
            },
            ModeError::InvalidPermission { clause, c } => ModeErrorView::InvalidPermission {
                clause: clause@,
                c: *c,
            },
        }
    }
}

/// A parse result with its error taken by its view.
pub open spec fn mode_result_view(r: Result<u16, ModeError>) -> Result<u16, ModeErrorView> {
    match r {
        Ok(v) => Ok(v),
        Err(e) => Err(e@),
    }
}

pub open spec fn is_octal_digit(b: u8) -> bool {
    0x30 <= b <= 0x37
}

pub open spec fn all_octal(bs: Seq<u8>) -> bool {
    forall|i: int| 0 <= i < bs.len() ==> is_octal_digit(#[trigger] bs[i])
}

/// The value of the octal digits `bs[i..]` appended to `acc`.
pub open spec fn octal_from(bs: Seq<u8>, i: int, acc: int) -> int
    decreases bs.len() - i,
{
    if i >= bs.len() {
        acc
    } else {
        octal_from(bs, i + 1, acc * 8 + (bs[i] - 0x30))
    }
}

/// The permission bits a "who" letter selects.
pub open spec fn who_bits(b: u8) -> Option<u16> {
    if b == 0x75 {
        Some(0o700u16)
    } else if b == 0x67 {
        Some(0o070u16)
    } else if b == 0x6f {
        Some(0o007u16)
    } else if b == 0x61 {
        Some(0o777u16)
    } else {
        None
    }
}

/// The "who" mask of the letters of `c` from `i` on, and where they end.
pub open spec fn parse_who(c: Seq<u8>, i: int, who: u16) -> (u16, int)
    decreases c.len() - i,
{
    if 0 <= i < c.len() && who_bits(c[i]) is Some {
        parse_who(c, i + 1, who | who_bits(c[i])->0)
    } else {
        (who, i)
    }
}

/// The bits a permission letter adds, given the clause's "who" mask, the
/// mode the whole mode string starts from (which `X` looks at) and whether
/// the target is a directory.
pub open spec fn perm_bits(b: u8, who: u16, base: u16, is_dir: bool) -> Option<u16> {
    if b == 0x72 {
        Some(0o444u16 & who)
    } else if b == 0x77 {
        Some(0o222u16 & who)
    } else if b == 0x78 {
        Some(0o111u16 & who)
    } else if b == 0x58 {
        Some(if is_dir || (base & 0o111u16 != 0) { 0o111u16 & who } else { 0u16 })
    } else if b == 0x73 {
        Some(
            (if who & 0o700u16 != 0 { 0o4000u16 } else { 0u16 }) | (if who & 0o070u16 != 0 {
                0o2000u16
            } else {
                0u16
            }),
        )
    } else if b == 0x74 {
        Some(0o1000u16)
    } else {
        None
    }
}

/// The permission mask of the letters of `c` from `i` on, or the first byte
/// that is no permission letter.
pub open spec fn parse_perms(c: Seq<u8>, i: int, who: u16, base: u16, is_dir: bool, mask: u16) -> Result<u16, u8>
    decreases c.len() - i,
{
    if i < 0 || i >= c.len() {
        Ok(mask)
    } else {
        match perm_bits(c[i], who, base, is_dir) {
            Some(b) => parse_perms(c, i + 1, who, base, is_dir, mask | b),
            None => Err(c[i]),
        }
    }
}

/// The bits that `=` resets for a "who" mask.
pub open spec fn clear_mask(who: u16) -> u16 {
    who | (if who & 0o700u16 != 0 { 0o4000u16 } else { 0u16 }) | (if who & 0o070u16 != 0 {
        0o2000u16
    } else {
        0u16
    }) | (if who & 0o007u16 != 0 { 0o1000u16 } else { 0u16 })
}

/// The mode after applying operator `op` with "who" mask `who` and
/// permission mask `mask` to `result`.
pub open spec fn apply_op(op: u8, who: u16, result: u16, mask: u16) -> u16 {
    if op == 0x2b {
        result | mask
    } else if op == 0x2d {
        result & !mask
    } else {
        (result & !clear_mask(who)) | mask
    }
}

pub open spec fn is_op(b: u8) -> bool {
    b == 0x2b || b == 0x2d || b == 0x3d
}

/// The mode after one symbolic clause applied to `result` (`X` looking at
/// `base`), or why the clause is refused.
pub open spec fn apply_clause(c: Seq<u8>, result: u16, base: u16, is_dir: bool) -> Result<u16, ModeErrorView> {
    if c.len() == 0 {
        Ok(result)
    } else {
        let (who0, i) = parse_who(c, 0, 0);
        let who = if who0 == 0 { 0o777u16 } else { who0 };
        if 0 <= i < c.len() && is_op(c[i]) {
            match parse_perms(c, i + 1, who, base, is_dir, 0) {
                Ok(mask) => Ok(apply_op(c[i], who, result, mask)),
                Err(b) => Err(ModeErrorView::InvalidPermission { clause: c, c: b }),
            }
        } else {
            Err(ModeErrorView::MissingOperator { clause: c })
        }
    }
}

/// Where the clause that starts at `i` ends: the next comma, or the end.
pub open spec fn clause_end(bs: Seq<u8>, i: int) -> int
    decreases bs.len() - i,
{
    if i < 0 || i >= bs.len() || bs[i] == 0x2c {
        i
    } else {
        clause_end(bs, i + 1)
    }
}

pub proof fn lemma_clause_end(bs: Seq<u8>, i: int)
    requires
        0 <= i <= bs.len(),
    ensures
        i <= clause_end(bs, i) <= bs.len(),
        clause_end(bs, i) < bs.len() ==> bs[clause_end(bs, i)] == 0x2c,
        forall|k: int| i <= k < clause_end(bs, i) ==> bs[k] != 0x2c,
    decreases bs.len() - i,
{
    if i < bs.len() && bs[i] != 0x2c {
        lemma_clause_end(bs, i + 1);
    }
}

/// The mode after the comma-separated clauses of `bs` from `start` on,
/// `X` looking at `base`.
pub open spec fn apply_clauses(bs: Seq<u8>, start: int, result: u16, base: u16, is_dir: bool) -> Result<u16, ModeErrorView>
    decreases bs.len() - start,
{
    if start < 0 || start > bs.len() {
        Ok(result)
    } else {
        let e = clause_end(bs, start);
        proof {
            lemma_clause_end(bs, start);
        }
        match apply_clause(bs.subrange(start, e), result, base, is_dir) {
            Err(err) => Err(err),
            Ok(r) => if e >= bs.len() {
                Ok(r)
            } else {
                apply_clauses(bs, e + 1, r, base, is_dir)
            },
        }
    }
}

/// The 12-bit mode that the mode string `bs` sets, starting from `current`.
pub open spec fn spec_parse_mode(bs: Seq<u8>, current: u16, is_dir: bool) -> Result<u16, ModeErrorView> {
    if all_octal(bs) {
        if bs.len() == 0 || octal_from(bs, 0, 0) > 0xFFFF {
            Err(ModeErrorView::InvalidOctal)
        } else {
            Ok((octal_from(bs, 0, 0) as u16) & 0o7777u16)
        }
    } else {
        match apply_clauses(bs, 0, current & 0o7777u16, current & 0o7777u16, is_dir) {
            Ok(r) => Ok(r & 0o7777u16),
            Err(e) => Err(e),
        }
    }
}

proof fn lemma_octal_from_grows(bs: Seq<u8>, i: int, acc: int)
    requires
        all_octal(bs),
        0 <= i,
        0 <= acc,
    ensures
        octal_from(bs, i, acc) >= acc,
    decreases bs.len() - i,
{
    if i < bs.len() {
        assert(is_octal_digit(bs[i]));
        lemma_octal_from_grows(bs, i + 1, acc * 8 + (bs[i] - 0x30));
    }
}

fn copy_bytes(bytes: &[u8], start: usize, end: usize) -> (r: Vec<u8>)
    requires
        start <= end <= bytes@.len(),
    ensures
        r@ == bytes@.subrange(start as int, end as int),
{
    let mut v: Vec<u8> = Vec::new();
    let mut k = start;
    while k < end
        invariant
            start <= k <= end <= bytes@.len(),
            v@ == bytes@.subrange(start as int, k as int),
        decreases end - k,
    {
        v.push(bytes[k]);
        k = k + 1;
        assert(v@ =~= bytes@.subrange(start as int, k as int));
    }
    v
}

/// Apply the clause `bytes[start..end]` to `result`, `X` looking at `base`.
fn apply_one_clause(bytes: &[u8], start: usize, end: usize, result: u16, base: u16, is_dir: bool) -> (r: Result<u16, ModeError>)
    requires
        start <= end <= bytes@.len(),
    ensures
        apply_clause(bytes@.subrange(start as int, end as int), result, base, is_dir) == mode_result_view(r),
{
    let ghost c = bytes@.subrange(start as int, end as int);
    if start == end {
        return Ok(result);
    }
    let len = end - start;
    let mut i: usize = 0;

    // 1. Parse the "who" prefix.
    let mut who = 0u16;
    while i < len
        invariant
            start < end <= bytes@.len(),
            len == end - start,
            c == bytes@.subrange(start as int, end as int),
            i <= len,
            parse_who(c, 0, 0) == parse_who(c, i as int, who),
        ensures
            i <= len,
            parse_who(c, 0, 0) == parse_who(c, i as int, who),
            i >= len || who_bits(c[i as int]) is None,
        decreases len - i,
    {
        let b = bytes[start + i];
        assert(b == c[i as int]);
        let added = if b == 0x75 {
            0o700u16
        } else if b == 0x67 {
            0o070u16
        } else if b == 0x6f {
            0o007u16
        } else if b == 0x61 {
            0o777u16
        } else {
            break ;
        };
        who |= added;
        i += 1;
    }
    let ghost who0 = who;
    assert(parse_who(c, 0, 0) == (who0, i as int));
    // No explicit who: treat as 'a' (all).
    if who == 0 {
        who = 0o777;
    }

    // 2. Parse the operator.
    let op: u8 = if i < len && (bytes[start + i] == 0x2b || bytes[start + i] == 0x2d
        || bytes[start + i] == 0x3d) {
        let o = bytes[start + i];
        i += 1;
        o
    } else {
        return Err(ModeError::MissingOperator { clause: copy_bytes(bytes, start, end) });
    };
    assert(op == c[i - 1]);

    // 3. Parse the permission characters.
    let mut perm_mask = 0u16;
    while i < len
        invariant
            start < end <= bytes@.len(),
            len == end - start,
            c == bytes@.subrange(start as int, end as int),
            1 <= i <= len,
            0 <= parse_who(c, 0, 0).1 < len,
            who == (if parse_who(c, 0, 0).0 == 0 { 0o777u16 } else { parse_who(c, 0, 0).0 }),
            op == c[parse_who(c, 0, 0).1],
            is_op(op),
            parse_perms(c, parse_who(c, 0, 0).1 + 1, who, base, is_dir, 0) == parse_perms(
                c,
                i as int,
                who,
                base,
                is_dir,
                perm_mask,
            ),
        decreases len - i,
    {
        let b = bytes[start + i];
        assert(b == c[i as int]);
        let bits: u16 = if b == 0x72 {
            0o444 & who
        } else if b == 0x77 {
            0o222 & who
        } else if b == 0x78 {
            0o111 & who
        } else if b == 0x58 {
            if is_dir || (base & 0o111 != 0) {
                0o111 & who
            } else {
                0
            }
        } else if b == 0x73 {
            let mut s = 0u16;
            if who & 0o700 != 0 {
                s |= 0o4000;
            }
            if who & 0o070 != 0 {
                s |= 0o2000;
            }
            proof {
                assert(0u16 | 0o4000u16 == 0o4000u16 && 0u16 | 0o2000u16 == 0o2000u16 && 0o4000u16 | 0u16 == 0o4000u16 && 0u16 | 0u16 == 0u16) by (bit_vector);
            }
            s
        } else if b == 0x74 {
            0o1000
        } else {
            assert(perm_bits(b, who, base, is_dir) is None);
            assert(parse_perms(c, i as int, who, base, is_dir, perm_mask) == Err::<u16, u8>(b));
            let cl = copy_bytes(bytes, start, end);
            assert(cl@ == c);
            return Err(ModeError::InvalidPermission { clause: cl, c: b });
        };
        perm_mask |= bits;
        i += 1;
    }

    // 4. Apply the operator.
    if op == 0x2b {
        Ok(result | perm_mask)
    } else if op == 0x2d {
        Ok(result & !perm_mask)
    } else {
        let mut clear = who;
        if who & 0o700 != 0 {
            clear |= 0o4000;
        }
        if who & 0o070 != 0 {
            clear |= 0o2000;
        }
        if who & 0o007 != 0 {
            clear |= 0o1000;
        }
        proof {
            assert(forall|x: u16| #[trigger] (x | 0u16) == x) by (bit_vector);
        }
        assert(clear == clear_mask(who));
        Ok((result & !clear) | perm_mask)
    }
}

/// Parse a chmod mode string and return the new 12-bit permission value.
///
/// Accepts both octal literals (`"755"`, `"4755"`) and one or more
/// comma-separated symbolic clauses (`"u+x"`, `"a=rw"`, `"u+s,g-w,o="`):
///
/// ```text
/// mode   ::= clause (',' clause)*
/// clause ::= who* op perm*
/// who    ::= 'u' | 'g' | 'o' | 'a'          (default: 'a' when omitted)
/// op     ::= '+' | '-' | '='
/// perm   ::= 'r' | 'w' | 'x' | 'X' | 's' | 't'
/// ```
///
/// `X` sets the execute bits only when `is_dir` is true or at least one
/// execute bit is set in `current_bits`, whatever earlier clauses did.
pub fn parse_symbolic_mode(mode_str: &str, current_bits: u16, is_dir: bool) -> (r: Result<u16, ModeError>)
    ensures
        spec_parse_mode(mode_str.spec_bytes(), current_bits, is_dir) == mode_result_view(r),
{
    let bytes = mode_str.as_bytes();
    let ghost bs = bytes@;
    let n = bytes.len();

    // Octal mode? Just parse it.
    let mut all_oct = true;
    let mut k: usize = 0;
    while k < n
        invariant
            n == bs.len(),
            bs == bytes@,
            bs == mode_str.spec_bytes(),
            k <= n,
            all_oct == (forall|m: int| 0 <= m < k ==> is_octal_digit(#[trigger] bs[m])),
        decreases n - k,
    {
        if !(0x30 <= bytes[k] && bytes[k] <= 0x37) {
            all_oct = false;
        }
        k += 1;
    }
    if all_oct {
        if n == 0 {
            return Err(ModeError::InvalidOctal);
        }
        let mut acc: u32 = 0;
        let mut k: usize = 0;
        while k < n
            invariant
                n == bs.len(),
                bs == bytes@,
                bs == mode_str.spec_bytes(),
                all_octal(bs),
                k <= n,
                acc <= 0xFFFF,
                octal_from(bs, 0, 0) == octal_from(bs, k as int, acc as int),
            decreases n - k,
        {
            assert(is_octal_digit(bs[k as int]));
            let ghost old_acc = acc;
            acc = acc * 8 + (bytes[k] - 0x30) as u32;
            assert(octal_from(bs, k as int, old_acc as int) == octal_from(bs, k + 1, acc as int));
            k += 1;
            if acc > 0xFFFF {
                proof {
                    lemma_octal_from_grows(bs, k as int, acc as int);
                }
                assert(octal_from(bs, 0, 0) > 0xFFFF);
                assert(all_octal(bs));
                assert(spec_parse_mode(bs, current_bits, is_dir) == Err::<u16, ModeErrorView>(ModeErrorView::InvalidOctal));
                return Err(ModeError::InvalidOctal);
            }
        }
        return Ok((acc as u16) & 0o7777);
    }

    // Symbolic parsing.
    let base = current_bits & 0o7777;
    let mut result = base;
    let mut start: usize = 0;
    assert(!all_octal(bs));
    loop
        invariant_except_break
            start <= n,
            apply_clauses(bs, 0, base, base, is_dir) == apply_clauses(bs, start as int, result, base, is_dir),
        invariant
            n == bs.len(),
            bs == bytes@,
            bs == mode_str.spec_bytes(),
            !all_octal(bs),
            base == current_bits & 0o7777u16,
        ensures
            apply_clauses(bs, 0, base, base, is_dir) == Ok::<u16, ModeErrorView>(result),
        decreases n - start,
    {
        proof {
            lemma_clause_end(bs, start as int);
        }
        let mut end = start;
        while end < n && bytes[end] != 0x2c
            invariant
                n == bs.len(),
                bs == bytes@,
                bs == mode_str.spec_bytes(),
                start <= end <= n,
                clause_end(bs, start as int) == clause_end(bs, end as int),
            decreases n - end,
        {
            end += 1;
        }
        assert(clause_end(bs, end as int) == end);
        match apply_one_clause(bytes, start, end, result, base, is_dir) {
            Ok(v) => {
                result = v;
            },
            Err(e) => {
                return Err(e);
            },
        }
        if end == n {
            break ;
        }
        start = end + 1;
    }
    Ok(result & 0o7777)
}

/// The letter of a file type in a long listing.
pub open spec fn type_letter(ft: FileType) -> char {
    match ft {
        FileType::Directory => 'd',
        FileType::Symlink => 'l',
        FileType::BlockDevice => 'b',
        FileType::CharacterDevice => 'c',
        FileType::Fifo => 'p',
        FileType::Socket => 's',
        _ => '-',
    }
}

/// `c` if bit `bit` of `m` is set, else `-`.
pub open spec fn perm_char(m: u16, bit: u16, c: char) -> char {
    if m & bit != 0 {
        c
    } else {
        '-'
    }
}

/// The ten characters of a long listing's mode column: the type letter,
/// then read, write and execute for the owner, the group and others.
pub open spec fn combined_list(ft: FileType, m: u16) -> Seq<char> {
    seq![
        type_letter(ft),
        perm_char(m, S_IRUSR, 'r'),
        perm_char(m, S_IWUSR, 'w'),
        perm_char(m, S_IXUSR, 'x'),
        perm_char(m, S_IRGRP, 'r'),
        perm_char(m, S_IWGRP, 'w'),
        perm_char(m, S_IXGRP, 'x'),
        perm_char(m, S_IROTH, 'r'),
        perm_char(m, S_IWOTH, 'w'),
        perm_char(m, S_IXOTH, 'x'),
    ]
}

fn push_perm(s: &mut String, m: u16, bit: u16, c: char)
    ensures
        final(s)@ == old(s)@.push(perm_char(m, bit, c)),
{
    if (m & bit) != 0 {
        push_char(s, c);
    } else {
        push_char(s, '-');
    }
}

/// The mode column of a long listing for `inode`, such as `drwxr-xr-x`.
pub fn make_combined_list<I: InodeOperations>(inode: &I) -> (r: String)
    ensures
        r@ == combined_list(inode.spec_file_type(), inode.spec_mode()),
        r@.len() == 10,
        forall|k: int|
            0 <= k < 9 ==> #[trigger] r@[k + 1] == (if inode.spec_mode() & (0o400u16 >> (k as u16)) != 0 {
                rwx_letter(k)
            } else {
                '-'
            }),
{
    let m = inode.get_mode();
    let mut s = String::new();
    let c = match inode.get_file_type() {
        FileType::Directory => 'd',
        FileType::Symlink => 'l',
        FileType::BlockDevice => 'b',
        FileType::CharacterDevice => 'c',
        FileType::Fifo => 'p',
        FileType::Socket => 's',
        _ => '-',
    };
    push_char(&mut s, c);
    push_perm(&mut s, m, S_IRUSR, 'r');
    push_perm(&mut s, m, S_IWUSR, 'w');
    push_perm(&mut s, m, S_IXUSR, 'x');
    push_perm(&mut s, m, S_IRGRP, 'r');
    push_perm(&mut s, m, S_IWGRP, 'w');
    push_perm(&mut s, m, S_IXGRP, 'x');
    push_perm(&mut s, m, S_IROTH, 'r');
    push_perm(&mut s, m, S_IWOTH, 'w');
    push_perm(&mut s, m, S_IXOTH, 'x');
    assert(s@ =~= combined_list(inode.spec_file_type(), inode.spec_mode()));
    proof {
        law_mode_column(inode.spec_file_type(), inode.spec_mode());
    }
    s
}

/// The local date and time of `secs` seconds since the Unix epoch as
/// `%Y-%m-%d %H:%M:%S %z` (`chrono::Local.timestamp_opt(secs, 0)`, taken
/// when it is a single instant, then `format`). Nothing is stated of the
/// text: it depends on the machine's time zone.
#[verifier::external_body]
fn local_time_text(secs: i64) -> Option<String> {
    match chrono::Local.timestamp_opt(secs, 0).single() {
        Some(datetime) => Some(datetime.format("%Y-%m-%d %H:%M:%S %z").to_string()),
        None => None,
    }
}

/// The text shown for a local time: the formatted time, or "invalid"
/// where there is none.
pub fn time_text_or_invalid(text: Option<String>) -> (r: String)
    ensures
        match text {
            Some(t) => r@ == t@,
            None => r@ == "invalid"@,
        },
{
    match text {
        Some(t) => t,
        None => String::from_str("invalid"),
    }
}

/// A Unix time as local date and time text, or "invalid" where the time
/// names no single local instant (see `time_text_or_invalid`; which times
/// those are depends on the machine's time zone).
pub fn unix_to_human(timestamp: u64) -> String {
    time_text_or_invalid(local_time_text(timestamp as i64))
}


/// The column letter of the `k`-th permission bit from the top: read,
/// write, execute, in turn.
pub open spec fn rwx_letter(k: int) -> char {
    if k % 3 == 0 {
        'r'
    } else if k % 3 == 1 {
        'w'
    } else {
        'x'
    }
}

proof fn lemma_column_bits()
    by (bit_vector)
    ensures
        0o400u16 >> 0u16 == 0o400u16,
        0o400u16 >> 1u16 == 0o200u16,
        0o400u16 >> 2u16 == 0o100u16,
        0o400u16 >> 3u16 == 0o40u16,
        0o400u16 >> 4u16 == 0o20u16,
        0o400u16 >> 5u16 == 0o10u16,
        0o400u16 >> 6u16 == 0o4u16,
        0o400u16 >> 7u16 == 0o2u16,
        0o400u16 >> 8u16 == 0o1u16,
{
}

/// The mode column reads each permission bit in its own column: after the
/// type letter, column `k + 1` shows its letter (`r`, `w`, `x` in turn)
/// exactly when bit `0o400 >> k` of the mode is set, else `-`.
pub proof fn law_mode_column(ft: FileType, m: u16)
    ensures
        combined_list(ft, m).len() == 10,
        combined_list(ft, m)[0] == type_letter(ft),
        forall|k: int|
            0 <= k < 9 ==> #[trigger] combined_list(ft, m)[k + 1] == (if m & (0o400u16 >> (k as u16)) != 0 {
                rwx_letter(k)
            } else {
                '-'
            }),
{
    lemma_column_bits();
    assert forall|k: int| 0 <= k < 9 implies #[trigger] combined_list(ft, m)[k + 1] == (if m & (0o400u16 >> (k as u16)) != 0 {
        rwx_letter(k)
    } else {
        '-'
    }) by {
        assert(k == 0 || k == 1 || k == 2 || k == 3 || k == 4 || k == 5 || k == 6 || k == 7 || k == 8);
    }
}

/// Whether `b` is a "who" letter of a symbolic mode: `u`, `g`, `o`, `a`.
pub open spec fn is_who_letter(b: u8) -> bool {
    b == 0x75 || b == 0x67 || b == 0x6f || b == 0x61
}

/// Whether `b` is a permission letter of a symbolic mode: `r`, `w`, `x`,
/// `X`, `s`, `t`.
pub open spec fn is_perm_letter(b: u8) -> bool {
    b == 0x72 || b == 0x77 || b == 0x78 || b == 0x58 || b == 0x73 || b == 0x74
}

proof fn lemma_who_prefix(c: Seq<u8>, wl: int, i: int, acc: u16)
    requires
        0 <= i <= wl < c.len(),
        forall|j: int| 0 <= j < wl ==> is_who_letter(#[trigger] c[j]),
        !is_who_letter(c[wl]),
    ensures
        parse_who(c, i, acc).1 == wl,
    decreases wl - i,
{
    if i < wl {
        assert(is_who_letter(c[i]));
        lemma_who_prefix(c, wl, i + 1, acc | who_bits(c[i])->0);
    }
}

proof fn lemma_or_keeps(mm: u16, mask: u16, b: u16)
    by (bit_vector)
    requires
        mm & (mask | b) == mask | b,
    ensures
        mm & mask == mask,
        mm & b == b,
{
}

proof fn lemma_perms(c: Seq<u8>, i: int, who: u16, base: u16, is_dir: bool, mask: u16)
    requires
        0 <= i <= c.len(),
        forall|j: int| i <= j < c.len() ==> is_perm_letter(#[trigger] c[j]),
    ensures
        parse_perms(c, i, who, base, is_dir, mask) matches Ok(mm) && mm & mask == mask && forall|j: int|
            i <= j < c.len() && #[trigger] c[j] == 0x74 ==> mm & 0o1000u16 == 0o1000u16,
    decreases c.len() - i,
{
    if i < c.len() {
        assert(is_perm_letter(c[i]));
        let b = perm_bits(c[i], who, base, is_dir)->0;
        lemma_perms(c, i + 1, who, base, is_dir, mask | b);
        let mm = parse_perms(c, i + 1, who, base, is_dir, mask | b)->Ok_0;
        lemma_or_keeps(mm, mask, b);
    } else {
        lemma_set_ops(0, 0, mask);
    }
}

/// The sticky bit of a symbolic clause: for every clause of "who" letters,
/// `+` or `-`, and permission letters among which is `t`, `+` gives a mode
/// with the sticky bit `0o1000` set that keeps every bit of the mode it
/// starts from, `-` gives one with the sticky bit clear, and `=` one with
/// it set, whatever the "who" letters.
pub proof fn law_sticky_clause(w: Seq<u8>, op: u8, p: Seq<u8>, m: u16, is_dir: bool)
    requires
        forall|i: int| 0 <= i < w.len() ==> is_who_letter(#[trigger] w[i]),
        op == 0x2b || op == 0x2d || op == 0x3d,
        forall|i: int| 0 <= i < p.len() ==> is_perm_letter(#[trigger] p[i]),
        exists|i: int| 0 <= i < p.len() && #[trigger] p[i] == 0x74,
    ensures
        spec_parse_mode(w + seq![op] + p, m, is_dir) matches Ok(r) && (op == 0x2b ==> r & 0o1000u16 != 0 && (m & 0o7777u16)
            & !r == 0) && (op == 0x2d ==> r & 0o1000u16 == 0) && (op == 0x3d ==> r & 0o1000u16 != 0),
{
    let bs = w + seq![op] + p;
    let wl = w.len() as int;
    let base = m & 0o7777u16;
    assert(bs[wl] == op);
    assert(!is_octal_digit(bs[wl]));
    assert(!all_octal(bs));
    assert forall|k: int| 0 <= k < bs.len() implies bs[k] != 0x2c by {
        if k < wl {
            assert(bs[k] == w[k]);
            assert(is_who_letter(w[k]));
        } else if k > wl {
            assert(bs[k] == p[k - wl - 1]);
            assert(is_perm_letter(p[k - wl - 1]));
        }
    }
    lemma_clause_end(bs, 0);
    let e = clause_end(bs, 0);
    assert(e == bs.len());
    assert(bs.subrange(0, e) =~= bs);
    assert forall|j: int| 0 <= j < wl implies is_who_letter(#[trigger] bs[j]) by {
        assert(bs[j] == w[j]);
    }
    lemma_who_prefix(bs, wl, 0, 0);
    let who0 = parse_who(bs, 0, 0).0;
    let who = if who0 == 0 { 0o777u16 } else { who0 };
    assert forall|j: int| wl + 1 <= j < bs.len() implies is_perm_letter(#[trigger] bs[j]) by {
        assert(bs[j] == p[j - wl - 1]);
    }
    lemma_perms(bs, wl + 1, who, base, is_dir, 0);
    let t = choose|i: int| 0 <= i < p.len() && #[trigger] p[i] == 0x74;
    assert(bs[wl + 1 + t] == p[t]);
    let mask = parse_perms(bs, wl + 1, who, base, is_dir, 0)->Ok_0;
    assert(mask & 0o1000u16 == 0o1000u16);
    lemma_set_ops(m, 0, mask);
    lemma_set_ops(m, clear_mask(who), mask);
}

proof fn lemma_set_ops(m: u16, cm: u16, mask: u16)
    by (bit_vector)
    ensures
        mask & 0o1000u16 == 0o1000u16 ==> (((m & 0o7777u16) & !cm) | mask) & 0o7777u16 & 0o1000u16 != 0,
        ((m & 0o7777u16) | mask) & 0o7777u16 == (m & 0o7777u16) | (mask & 0o7777u16),
        ((m & 0o7777u16) & !mask) & 0o7777u16 == (m & 0o7777u16) & !mask,
        0o444u16 & 0o700u16 == 0o400u16,
        0o222u16 & 0o700u16 == 0o200u16,
        0o111u16 & 0o700u16 == 0o100u16,
        0o444u16 & 0o070u16 == 0o040u16,
        0o222u16 & 0o070u16 == 0o020u16,
        0o111u16 & 0o070u16 == 0o010u16,
        0o444u16 & 0o007u16 == 0o004u16,
        0o222u16 & 0o007u16 == 0o002u16,
        0o111u16 & 0o007u16 == 0o001u16,
        0o444u16 & 0o777u16 == 0o444u16,
        0o222u16 & 0o777u16 == 0o222u16,
        0o111u16 & 0o777u16 == 0o111u16,
        0u16 | 0o700u16 == 0o700u16,
        0u16 | 0o070u16 == 0o070u16,
        0u16 | 0o007u16 == 0o007u16,
        0u16 | 0o777u16 == 0o777u16,
        mask <= 0o777u16 ==> mask & 0o7777u16 == mask,
        mask <= 0o7777u16 ==> ((m & 0o7777u16) | mask) & 0o7777u16 == (m & 0o7777u16) | mask,
        mask <= 0o7777u16 ==> (((m & 0o7777u16) & !cm) | mask) & 0o7777u16 == ((m & 0o7777u16) & !cm) | mask,
        (m & 0o7777u16) & 0o111u16 == m & 0o111u16,
        0u16 | mask == mask,
        mask & 0o1000u16 == 0o1000u16 ==> ((m & 0o7777u16) | mask) & 0o7777u16 & 0o1000u16 != 0,
        (m & 0o7777u16) & !(((m & 0o7777u16) | mask) & 0o7777u16) == 0,
        mask & 0o1000u16 == 0o1000u16 ==> ((m & 0o7777u16) & !mask) & 0o7777u16 & 0o1000u16 == 0,
        mask == 0o1000u16 ==> ((m & 0o7777u16) | mask) & 0o7777u16 == (m & 0o7777u16) | 0o1000u16,
        mask & mask == mask,
        m & 0o7777u16 == m % 4096,
        m <= 0o7777u16 && cm <= 0o7777u16 ==> m | cm <= 0o7777u16,
        m & cm <= m,
        m <= 0o7777u16 ==> m & !cm <= 0o7777u16,
        m <= 0o7777u16 ==> m & 0o7777u16 == m,
{
}

/// What one permission letter `q` adds for a clause of at most one "who"
/// letter `w`: the value of `r`, `w`, `x` (4, 2, 1; `X` 1 where the target
/// is a directory or `m` has an execute bit, else 0) in the owner's, the
/// group's or the others' octal digit for `u`, `g`, `o`, in all three for
/// `a` or none; `s` the set-user-ID bit for the owner and the set-group-ID
/// bit for the group; `t` the sticky bit.
pub open spec fn letter_bits(w: Seq<u8>, q: u8, m: u16, is_dir: bool) -> u16 {
    let all = w.len() == 0 || w[0] == 0x61;
    if q == 0x73 {
        if all {
            0o6000u16
        } else if w[0] == 0x75 {
            0o4000u16
        } else if w[0] == 0x67 {
            0o2000u16
        } else {
            0u16
        }
    } else if q == 0x74 {
        0o1000u16
    } else {
        let pv: int = if q == 0x72 {
            4
        } else if q == 0x77 {
            2
        } else if q == 0x78 || is_dir || m & 0o111u16 != 0 {
            1
        } else {
            0
        };
        (if all {
            pv * 0o111
        } else if w[0] == 0x75 {
            pv * 0o100
        } else if w[0] == 0x67 {
            pv * 0o10
        } else {
            pv
        }) as u16
    }
}

/// The bits `=` resets for at most one "who" letter: the octal digit it
/// names with its special bit, or all twelve bits for `a` or none.
pub open spec fn reset_bits(w: Seq<u8>) -> u16 {
    if w.len() == 0 || w[0] == 0x61 {
        0o7777u16
    } else if w[0] == 0x75 {
        0o4700u16
    } else if w[0] == 0x67 {
        0o2070u16
    } else {
        0o1007u16
    }
}

proof fn lemma_who_constants()
    by (bit_vector)
    ensures
        0o700u16 & 0o700u16 == 0o700u16,
        0o070u16 & 0o700u16 == 0u16,
        0o007u16 & 0o700u16 == 0u16,
        0o777u16 & 0o700u16 == 0o700u16,
        0o700u16 & 0o070u16 == 0u16,
        0o070u16 & 0o070u16 == 0o070u16,
        0o007u16 & 0o070u16 == 0u16,
        0o777u16 & 0o070u16 == 0o070u16,
        0o700u16 & 0o007u16 == 0u16,
        0o070u16 & 0o007u16 == 0u16,
        0o007u16 & 0o007u16 == 0o007u16,
        0o777u16 & 0o007u16 == 0o007u16,
        0o4000u16 | 0u16 == 0o4000u16,
        0u16 | 0o2000u16 == 0o2000u16,
        0u16 | 0u16 == 0u16,
        0o4000u16 | 0o2000u16 == 0o6000u16,
        0o700u16 | 0o4000u16 | 0u16 | 0u16 == 0o4700u16,
        0o070u16 | 0u16 | 0o2000u16 | 0u16 == 0o2070u16,
        0o007u16 | 0u16 | 0u16 | 0o1000u16 == 0o1007u16,
        0o777u16 | 0o4000u16 | 0o2000u16 | 0o1000u16 == 0o7777u16,
        0u16 | 0o1000u16 == 0o1000u16,
        0u16 | 0o6000u16 == 0o6000u16,
        0u16 | 0o4000u16 == 0o4000u16,
{
}

/// One clause of at most one "who" letter, an operator and one permission
/// letter: `+` sets the bits the letter stands for (`letter_bits`), `-`
/// clears them, and `=` resets the "who" letter's digit and special bit
/// (`reset_bits`) and sets them; every other bit of the mode is kept.
pub proof fn law_symbolic_clause(w: Seq<u8>, op: u8, q: u8, m: u16, is_dir: bool)
    requires
        w.len() <= 1,
        w.len() == 1 ==> is_who_letter(w[0]),
        op == 0x2b || op == 0x2d || op == 0x3d,
        is_perm_letter(q),
    ensures
        spec_parse_mode(w + seq![op] + seq![q], m, is_dir) == Ok::<u16, ModeErrorView>(
            if op == 0x2b {
                (m & 0o7777u16) | letter_bits(w, q, m, is_dir)
            } else if op == 0x2d {
                (m & 0o7777u16) & !letter_bits(w, q, m, is_dir)
            } else {
                ((m & 0o7777u16) & !reset_bits(w)) | letter_bits(w, q, m, is_dir)
            },
        ),
{
    let p = seq![q];
    let bs = w + seq![op] + p;
    let wl = w.len() as int;
    let base = m & 0o7777u16;
    assert(bs[wl] == op);
    assert(!is_octal_digit(bs[wl]));
    assert(!all_octal(bs));
    assert(bs[wl + 1] == q);
    assert forall|k: int| 0 <= k < bs.len() implies bs[k] != 0x2c by {
        if k < wl {
            assert(bs[k] == w[k]);
        }
    }
    lemma_clause_end(bs, 0);
    assert(clause_end(bs, 0) == bs.len());
    assert(bs.subrange(0, bs.len() as int) =~= bs);
    assert forall|j: int| 0 <= j < wl implies is_who_letter(#[trigger] bs[j]) by {
        assert(bs[j] == w[j]);
    }
    lemma_who_prefix(bs, wl, 0, 0);
    reveal_with_fuel(parse_who, 3);
    reveal_with_fuel(parse_perms, 3);
    lemma_who_constants();
    let who0 = parse_who(bs, 0, 0).0;
    let who = if who0 == 0 { 0o777u16 } else { who0 };
    lemma_set_ops(m, 0, 0);
    if wl == 1 {
        assert(bs[0] == w[0]);
        assert(who0 == 0u16 | who_bits(w[0])->0);
    }
    if wl == 0 {
        assert(who == 0o777u16);
    } else if w[0] == 0x75 {
        assert(who == 0o700u16);
    } else if w[0] == 0x67 {
        assert(who == 0o070u16);
    } else if w[0] == 0x6f {
        assert(who == 0o007u16);
    } else {
        assert(who == 0o777u16);
    }
    let pb = perm_bits(q, who, base, is_dir)->0;
    assert(parse_perms(bs, wl + 1, who, base, is_dir, 0) == Ok::<u16, u8>(0u16 | pb));
    lemma_set_ops(m, clear_mask(who), pb);
    assert(pb == letter_bits(w, q, m, is_dir));
    assert(clear_mask(who) == reset_bits(w));
    assert(pb <= 0o7777u16);
    assert(apply_clause(bs, base, base, is_dir) == Ok::<u16, ModeErrorView>(apply_op(op, who, base, pb)));
    assert(apply_clauses(bs, 0, base, base, is_dir) == Ok::<u16, ModeErrorView>(apply_op(op, who, base, pb)));
}

/// `+t` sets the sticky bit and nothing else: the mode string `+t` gives
/// the 12 mode bits of `m` with `0o1000` set.
pub proof fn law_plus_t(m: u16, is_dir: bool)
    ensures
        spec_parse_mode(seq![0x2bu8, 0x74u8], m, is_dir) == Ok::<u16, ModeErrorView>((m & 0o7777u16) | 0o1000u16),
{
    let bs = seq![0x2bu8, 0x74u8];
    assert(!is_octal_digit(bs[0]));
    assert(!all_octal(bs));
    lemma_clause_end(bs, 0);
    lemma_clause_end(bs, 1);
    assert(clause_end(bs, 0) == 2);
    assert(bs.subrange(0, 2) =~= bs);
    let mask = 0o1000u16;
    lemma_set_ops(m, 0, mask);
    reveal_with_fuel(parse_perms, 3);
    assert(parse_perms(bs, 1, 0o777u16, m & 0o7777u16, is_dir, 0) == Ok::<u16, u8>(0o1000u16));
}


/// The value of the octal digits `d`, the last one the ones.
pub open spec fn oct_value(d: Seq<u8>) -> int
    decreases d.len(),
{
    if d.len() == 0 {
        0
    } else {
        oct_value(d.drop_last()) * 8 + (d.last() - 0x30)
    }
}

proof fn lemma_octal_push(d: Seq<u8>, i: int, acc: int, c: u8)
    requires
        0 <= i <= d.len(),
    ensures
        octal_from(d.push(c), i, acc) == octal_from(d, i, acc) * 8 + (c - 0x30),
    decreases d.len() - i,
{
    if i < d.len() {
        assert(d.push(c)[i] == d[i]);
        lemma_octal_push(d, i + 1, acc * 8 + (d[i] - 0x30), c);
    } else {
        assert(d.push(c)[i] == c);
        assert(octal_from(d.push(c), i + 1, acc * 8 + (c - 0x30)) == acc * 8 + (c - 0x30));
    }
}

proof fn lemma_octal_value(d: Seq<u8>)
    ensures
        octal_from(d, 0, 0) == oct_value(d),
    decreases d.len(),
{
    if d.len() > 0 {
        let dl = d.drop_last();
        lemma_octal_value(dl);
        lemma_octal_push(dl, 0, 0, d.last());
        assert(dl.push(d.last()) =~= d);
    }
}

/// An octal mode string sets the mode to its value, kept to the low 12
/// bits, whatever the mode was; a value past 16 bits, or an empty string,
/// is refused.
pub proof fn law_octal_mode(d: Seq<u8>, m: u16, is_dir: bool)
    requires
        forall|i: int| 0 <= i < d.len() ==> 0x30 <= #[trigger] d[i] <= 0x37,
    ensures
        spec_parse_mode(d, m, is_dir) == (if d.len() == 0 || oct_value(d) > 0xFFFF {
            Err::<u16, ModeErrorView>(ModeErrorView::InvalidOctal)
        } else {
            Ok::<u16, ModeErrorView>((oct_value(d) % 4096) as u16)
        }),
{
    assert(all_octal(d));
    lemma_octal_value(d);
    if d.len() > 0 && oct_value(d) <= 0xFFFF {
        lemma_octal_from_grows(d, 0, 0);
        lemma_set_ops(oct_value(d) as u16, 0, 0);
    }
}


/// Whether no byte of `c` is a comma.
pub open spec fn no_comma(c: Seq<u8>) -> bool {
    forall|i: int| 0 <= i < c.len() ==> #[trigger] c[i] != 0x2c
}

/// Whether no byte of `c` is `X`.
pub open spec fn no_big_x(c: Seq<u8>) -> bool {
    forall|i: int| 0 <= i < c.len() ==> #[trigger] c[i] != 0x58
}

proof fn lemma_one_clause(bs: Seq<u8>, res: u16, base: u16, is_dir: bool)
    requires
        no_comma(bs),
    ensures
        apply_clauses(bs, 0, res, base, is_dir) == apply_clause(bs, res, base, is_dir),
{
    lemma_clause_end(bs, 0);
    if clause_end(bs, 0) < bs.len() {
        assert(bs[clause_end(bs, 0)] != 0x2c);
    }
    assert(bs.subrange(0, bs.len() as int) =~= bs);
}

proof fn lemma_two_clauses(c1: Seq<u8>, c2: Seq<u8>, res: u16, base: u16, is_dir: bool)
    requires
        no_comma(c1),
        no_comma(c2),
    ensures
        apply_clauses(c1 + seq![0x2cu8] + c2, 0, res, base, is_dir) == match apply_clause(c1, res, base, is_dir) {
            Ok(r) => apply_clause(c2, r, base, is_dir),
            Err(e) => Err(e),
        },
{
    let bs = c1 + seq![0x2cu8] + c2;
    let n1 = c1.len() as int;
    lemma_clause_end(bs, 0);
    let e = clause_end(bs, 0);
    assert(bs[n1] == 0x2c);
    if e < n1 {
        assert(bs[e] == c1[e]);
    }
    if e > n1 {
        assert(bs[n1] != 0x2c);
    }
    assert(e == n1);
    assert(bs.subrange(0, n1) =~= c1);
    lemma_clause_end(bs, n1 + 1);
    let e2 = clause_end(bs, n1 + 1);
    if e2 < bs.len() {
        assert(bs[e2] == c2[e2 - n1 - 1]);
    }
    assert(e2 == bs.len());
    assert(bs.subrange(n1 + 1, e2) =~= c2);
    if let Ok(r) = apply_clause(c1, res, base, is_dir) {
        assert(apply_clauses(bs, n1 + 1, r, base, is_dir) == apply_clause(c2, r, base, is_dir));
    }
}

proof fn lemma_perms_base_free(c: Seq<u8>, i: int, who: u16, b1: u16, b2: u16, is_dir: bool, mask: u16)
    requires
        0 <= i,
        no_big_x(c),
    ensures
        parse_perms(c, i, who, b1, is_dir, mask) == parse_perms(c, i, who, b2, is_dir, mask),
    decreases c.len() - i,
{
    if i < c.len() {
        assert(c[i] != 0x58);
        assert(perm_bits(c[i], who, b1, is_dir) == perm_bits(c[i], who, b2, is_dir));
        if let Some(b) = perm_bits(c[i], who, b1, is_dir) {
            lemma_perms_base_free(c, i + 1, who, b1, b2, is_dir, mask | b);
        }
    }
}

proof fn lemma_perm_bits_bound(b: u8, who: u16, base: u16, is_dir: bool)
    ensures
        perm_bits(b, who, base, is_dir) matches Some(x) ==> x <= 0o7777u16,
{
    lemma_set_ops(0o444u16, who, 0);
    lemma_set_ops(0o222u16, who, 0);
    lemma_set_ops(0o111u16, who, 0);
    lemma_set_ops(0o4000u16, 0o2000u16, 0);
    lemma_set_ops(0o4000u16, 0u16, 0);
    lemma_set_ops(0u16, 0o2000u16, 0);
    lemma_set_ops(0u16, 0u16, 0);
}

proof fn lemma_perms_bound(c: Seq<u8>, i: int, who: u16, base: u16, is_dir: bool, mask: u16)
    requires
        0 <= i,
        mask <= 0o7777u16,
    ensures
        parse_perms(c, i, who, base, is_dir, mask) matches Ok(mm) ==> mm <= 0o7777u16,
    decreases c.len() - i,
{
    if i < c.len() {
        lemma_perm_bits_bound(c[i], who, base, is_dir);
        if let Some(b) = perm_bits(c[i], who, base, is_dir) {
            lemma_set_ops(mask, b, 0);
            lemma_perms_bound(c, i + 1, who, base, is_dir, mask | b);
        }
    }
}

/// A clause keeps a mode within the 12 mode bits, and does not look at
/// the mode the string started from unless it has `X`.
proof fn lemma_clause_facts(c: Seq<u8>, res: u16, b1: u16, b2: u16, is_dir: bool)
    requires
        res <= 0o7777u16,
    ensures
        apply_clause(c, res, b1, is_dir) matches Ok(x) ==> x <= 0o7777u16,
        no_big_x(c) ==> apply_clause(c, res, b1, is_dir) == apply_clause(c, res, b2, is_dir),
{
    if c.len() > 0 {
        let (who0, i) = parse_who(c, 0, 0);
        let who = if who0 == 0 { 0o777u16 } else { who0 };
        if 0 <= i < c.len() && is_op(c[i]) {
            lemma_perms_bound(c, i + 1, who, b1, is_dir, 0);
            if no_big_x(c) {
                lemma_perms_base_free(c, i + 1, who, b1, b2, is_dir, 0);
            }
            if let Ok(mask) = parse_perms(c, i + 1, who, b1, is_dir, 0) {
                lemma_set_ops(res, mask, 0);
                lemma_set_ops(res, clear_mask(who), 0);
                lemma_set_ops(res & !clear_mask(who), mask, 0);
            }
        }
    }
}

/// Clauses apply in turn: a mode string of two clauses joined by a comma
/// gives what the second clause gives from the mode the first one gave
/// (the second without `X`, which looks at the mode the whole string
/// started from), and the first clause's error where it has one.
pub proof fn law_clauses_in_turn(c1: Seq<u8>, c2: Seq<u8>, m: u16, is_dir: bool)
    requires
        no_comma(c1),
        no_comma(c2),
        !all_octal(c1),
        !all_octal(c2),
        no_big_x(c2),
    ensures
        spec_parse_mode(c1 + seq![0x2cu8] + c2, m, is_dir) == match spec_parse_mode(c1, m, is_dir) {
            Ok(r1) => spec_parse_mode(c2, r1, is_dir),
            Err(e) => Err(e),
        },
{
    let bs = c1 + seq![0x2cu8] + c2;
    let base = m & 0o7777u16;
    assert(bs[c1.len() as int] == 0x2c);
    assert(!is_octal_digit(bs[c1.len() as int]));
    assert(!all_octal(bs));
    lemma_set_ops(m, 0, 0);
    assert(base <= 0o7777u16) by {
        lemma_set_ops(m, 0o7777u16, 0);
    }
    lemma_two_clauses(c1, c2, base, base, is_dir);
    lemma_one_clause(c1, base, base, is_dir);
    lemma_clause_facts(c1, base, base, base, is_dir);
    if let Ok(r) = apply_clause(c1, base, base, is_dir) {
        lemma_set_ops(r, 0, 0);
        assert(r & 0o7777u16 == r);
        lemma_one_clause(c2, r, r, is_dir);
        lemma_clause_facts(c2, r, r, base, is_dir);
    }
}


/// The type letter of a long listing, read from a mode's file type bits as
/// `ls` reads them: `d` for 0o040000, `l` for 0o120000, `b` for 0o060000,
/// `c` for 0o020000, `p` for 0o010000, `s` for 0o140000, `-` otherwise.
pub proof fn law_type_letter_of_mode(m: u16)
    ensures
        combined_list(spec_type_of_mode(m), m)[0] == (if m & 0o170000u16 == 0o040000u16 {
            'd'
        } else if m & 0o170000u16 == 0o120000u16 {
            'l'
        } else if m & 0o170000u16 == 0o060000u16 {
            'b'
        } else if m & 0o170000u16 == 0o020000u16 {
            'c'
        } else if m & 0o170000u16 == 0o010000u16 {
            'p'
        } else if m & 0o170000u16 == 0o140000u16 {
            's'
        } else {
            '-'
        }),
{
}

} // verus!
