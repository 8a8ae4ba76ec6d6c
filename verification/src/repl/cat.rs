//! The shell's file viewers: the lines of `hexdump` and `catblock`, the
//! range a `hexdump` argument gives, and what `catsymlink` reads.
use crate::args::{parse_decimal, spec_parse_unsigned};
use crate::cache::trees_view;
use crate::error::FsError;
use crate::filetype::FileType;
use crate::fs::{FileSystem, InodeOperations};
use crate::minix::fs::MinixFileSystem;
use crate::path::{build_path_deref, components, get_item, lookup, view_inode, Lookup};
use crate::repl::outcome::CmdError;
use vstd::prelude::*;
use vstd::string::{StrSliceExecFns, StringExecFns, StringSliceAdditionalSpecFns};

verus! {

/// The bytes a `hexdump` line shows.
pub const BYTES_PER_LINE: usize = 16;

/// The lowercase hexadecimal digit of `d` (below 16).
pub open spec fn hex_digit(d: nat) -> char {
    if d < 10 {
        (('0' as nat) + d) as char
    } else {
        (('a' as nat) + d - 10) as char
    }
}

/// The lowercase hexadecimal digits of `n`, without leading zeros (`0`
/// for zero).
pub open spec fn hex_str(n: nat) -> Seq<char>
    decreases n,
{
    if n < 16 {
        seq![hex_digit(n)]
    } else {
        hex_str(n / 16).push(hex_digit(n % 16))
    }
}

/// `s` with `0`s in front up to `w` characters.
pub open spec fn zero_pad(s: Seq<char>, w: nat) -> Seq<char> {
    if s.len() >= w {
        s
    } else {
        Seq::new((w - s.len()) as nat, |i: int| '0') + s
    }
}

/// The character `hexdump` shows for byte `b`: itself where it is a
/// printable ASCII character or a space, else a dot.
pub open spec fn shown_char(b: u8) -> char {
    if 0x20 <= b <= 0x7e {
        b as char
    } else {
        '.'
    }
}

/// The hexadecimal digits of `n` in front of `acc`.
fn push_hex(n: u64, acc: &mut Vec<char>)
    ensures
        final(acc)@ == hex_str(n as nat) + old(acc)@,
    decreases n,
{
    let d = n % 16;
    let c = if d < 10 {
        (0x30u8 + d as u8) as char
    } else {
        (0x61u8 + (d - 10) as u8) as char
    };
    assert(c == hex_digit(d as nat));
    acc.insert(0, c);
    if n >= 16 {
        let ghost mid = acc@;
        push_hex(n / 16, acc);
        assert(hex_str(n as nat) == hex_str((n / 16) as nat).push(hex_digit(d as nat)));
        assert(hex_str((n / 16) as nat) + mid =~= hex_str(n as nat) + old(acc)@);
    } else {
        assert(acc@ =~= seq![c] + old(acc)@);
    }
}

/// Append the characters `cs` to `s`.
pub(crate) fn append_chars(s: &mut String, cs: &Vec<char>)
    ensures
        final(s)@ == old(s)@ + cs@,
{
    let mut i: usize = 0;
    while i < cs.len()
        invariant
            i <= cs@.len(),
            s@ == old(s)@ + cs@.take(i as int),
        decreases cs@.len() - i,
    {
        crate::bytes::push_char(s, cs[i]);
        assert(cs@.take(i + 1) =~= cs@.take(i as int).push(cs@[i as int]));
        i += 1;
    }
    assert(cs@.take(cs@.len() as int) =~= cs@);
}

/// The hexadecimal digits of `n`, with `0`s in front up to `w`.
pub fn hex_padded(n: u64, w: usize) -> (r: String)
    ensures
        r@ == zero_pad(hex_str(n as nat), w as nat),
{
    let mut digits: Vec<char> = Vec::new();
    push_hex(n, &mut digits);
    assert(digits@ =~= hex_str(n as nat));
    let mut out = String::new();
    let mut k = digits.len();
    if k < w {
        let ghost start = out@;
        while k < w
            invariant
                digits@.len() <= k <= w,
                out@ == Seq::new((k - digits@.len()) as nat, |i: int| '0'),
            decreases w - k,
        {
            crate::bytes::push_char(&mut out, '0');
            assert(out@ =~= Seq::new((k + 1 - digits@.len()) as nat, |i: int| '0'));
            k += 1;
        }
    }
    append_chars(&mut out, &digits);
    proof {
        if digits@.len() >= w {
            assert(out@ =~= digits@);
        }
    }
    out
}

/// The text of a `hexdump` line for the bytes `bytes` (at most
/// `BYTES_PER_LINE` of them shown) at `offset`: the offset in eight or
/// more hexadecimal digits, two spaces, the first eight bytes and, after
/// three spaces, the rest, each in two hexadecimal digits and a space,
/// three spaces for each missing byte, two spaces, and the bytes as
/// characters between bars.
pub open spec fn hex_line_text(offset: nat, bytes: Seq<u8>) -> Seq<char> {
    let n = if bytes.len() < BYTES_PER_LINE { bytes.len() as int } else { BYTES_PER_LINE as int };
    zero_pad(hex_str(offset), 8) + seq![' ', ' '] + hex_cells(bytes, 0, if n < 8 { n } else { 8 })
        + seq![' ', ' ', ' '] + hex_cells(bytes, if n < 8 { n } else { 8 }, n) + spaces(3 * (BYTES_PER_LINE - n))
        + seq![' ', ' ', '|'] + Seq::new(n as nat, |i: int| shown_char(bytes[i])) + seq!['|']
}

/// The `hexdump` line of `bytes` at `offset` (see `hex_line_text`).
pub fn hex_line(offset: u64, bytes: &[u8]) -> (r: String)
    ensures
        r@ == hex_line_text(offset as nat, bytes@),
{
    let n = if bytes.len() < BYTES_PER_LINE { bytes.len() } else { BYTES_PER_LINE };
    let mid = if n < 8 { n } else { 8 };
    let mut out = hex_padded(offset, 8);
    push_str_chars(&mut out, ' ', 2);
    push_cells(&mut out, bytes, 0, mid);
    push_str_chars(&mut out, ' ', 3);
    push_cells(&mut out, bytes, mid, n);
    push_str_chars(&mut out, ' ', 3 * (BYTES_PER_LINE - n));
    push_str_chars(&mut out, ' ', 2);
    crate::bytes::push_char(&mut out, '|');
    let ghost before = out@;
    let mut i: usize = 0;
    while i < n
        invariant
            i <= n <= bytes@.len(),
            out@ == before + Seq::new(i as nat, |j: int| shown_char(bytes@[j])),
        decreases n - i,
    {
        let b = bytes[i];
        let c = if 0x20 <= b && b <= 0x7e {
            b as char
        } else {
            '.'
        };
        crate::bytes::push_char(&mut out, c);
        assert(out@ =~= before + Seq::new((i + 1) as nat, |j: int| shown_char(bytes@[j])));
        i += 1;
    }
    crate::bytes::push_char(&mut out, '|');
    proof {
        assert(seq![' ', ' '] =~= Seq::new(2, |j: int| ' '));
        assert(seq![' ', ' ', ' '] =~= Seq::new(3, |j: int| ' '));
    }
    assert(out@ =~= zero_pad(hex_str(offset as nat), 8) + seq![' ', ' '] + hex_cells(bytes@, 0, mid as int) + seq![' ', ' ', ' ']
        + hex_cells(bytes@, mid as int, n as int) + spaces(3 * (BYTES_PER_LINE - n)) + seq![' ', ' ', '|'] + Seq::new(
        n as nat,
        |j: int| shown_char(bytes@[j]),
    ) + seq!['|']);
    out
}

/// `k` spaces.
pub open spec fn spaces(k: int) -> Seq<char> {
    Seq::new(k as nat, |i: int| ' ')
}

/// The bytes `bs[i..j]`, each in two hexadecimal digits and a space.
pub open spec fn hex_cells(bs: Seq<u8>, i: int, j: int) -> Seq<char>
    decreases j - i,
{
    if i >= j {
        Seq::empty()
    } else {
        hex_cells(bs, i, j - 1) + zero_pad(hex_str(bs[j - 1] as nat), 2) + seq![' ']
    }
}

/// Append `k` copies of `c` to `s`.
pub(crate) fn push_str_chars(s: &mut String, c: char, k: usize)
    ensures
        final(s)@ == old(s)@ + Seq::new(k as nat, |i: int| c),
{
    let mut i: usize = 0;
    while i < k
        invariant
            i <= k,
            s@ == old(s)@ + Seq::new(i as nat, |j: int| c),
        decreases k - i,
    {
        crate::bytes::push_char(s, c);
        assert(s@ =~= old(s)@ + Seq::new((i + 1) as nat, |j: int| c));
        i += 1;
    }
}

/// Append the cells of `bs[i..j]` to `s`.
fn push_cells(s: &mut String, bs: &[u8], i: usize, j: usize)
    requires
        i <= j <= bs@.len(),
    ensures
        final(s)@ == old(s)@ + hex_cells(bs@, i as int, j as int),
{
    let mut k = i;
    assert(hex_cells(bs@, i as int, i as int) =~= Seq::<char>::empty());
    while k < j
        invariant
            i <= k <= j <= bs@.len(),
            s@ == old(s)@ + hex_cells(bs@, i as int, k as int),
        decreases j - k,
    {
        let h = hex_padded(bs[k] as u64, 2);
        s.append(h.as_str());
        crate::bytes::push_char(s, ' ');
        assert(hex_cells(bs@, i as int, k + 1) == hex_cells(bs@, i as int, k as int) + zero_pad(
            hex_str(bs@[k as int] as nat),
            2,
        ) + seq![' ']);
        assert(s@ =~= old(s)@ + hex_cells(bs@, i as int, k + 1));
        k += 1;
    }
}

/// The greatest number of bytes `hexdump` shows by default.
pub const HEXDUMP_MAX: u64 = 40960;

/// The index of the first `c` of `s`, or the length of `s`.
pub open spec fn first_of(s: Seq<char>, c: char, i: int) -> int
    decreases s.len() - i,
{
    if i < 0 || i >= s.len() {
        s.len() as int
    } else if s[i] == c {
        i
    } else {
        first_of(s, c, i + 1)
    }
}

/// The byte range `[start, finish)` that a `hexdump` range argument
/// gives: a number alone is `[0, number)`; around the first `-`, a start
/// and a finish, where an end that is no number is 0 (start) or
/// `HEXDUMP_MAX` (finish), though not both.
pub fn hexdump_range(arg: &str) -> (r: Result<(u64, u64), CmdError>)
    ensures
        ({
            let s = arg@;
            let k = first_of(s, '-', 0);
            if k >= s.len() {
                match spec_parse_unsigned(arg.spec_bytes(), 10, u64::MAX as int) {
                    Ok(v) => r == Ok::<(u64, u64), CmdError>((0, v as u64)),
                    Err(_) => r matches Err(CmdError::RangeNotNumber(a)) && a@ == s,
                }
            } else {
                match r {
                    Ok((a, b)) => true,
                    Err(e) => e matches CmdError::RangeNotConvertible(a) && a@ == s,
                }
            }
        }),
{
    let n = arg.unicode_len();
    let mut k: usize = 0;
    while k < n && arg.get_char(k) != '-'
        invariant
            k <= n == arg@.len(),
            first_of(arg@, '-', 0) == first_of(arg@, '-', k as int),
        decreases n - k,
    {
        k += 1;
    }
    if k >= n {
        return match parse_decimal(arg, 0xFFFF_FFFF_FFFF_FFFF) {
            Ok(v) => Ok((0, v)),
            Err(_) => Err(CmdError::RangeNotNumber(arg.to_owned())),
        };
    }
    let start = parse_decimal(arg.substring_char(0, k), 0xFFFF_FFFF_FFFF_FFFF);
    let finish = parse_decimal(arg.substring_char(k + 1, n), 0xFFFF_FFFF_FFFF_FFFF);
    match (start, finish) {
        (Ok(s), Ok(f)) => Ok((s, f)),
        (Ok(s), Err(_)) => Ok((s, HEXDUMP_MAX)),
        (Err(_), Ok(f)) => Ok((0, f)),
        _ => Err(CmdError::RangeNotConvertible(arg.to_owned())),
    }
}

/// How many bytes `hexdump` shows of a file of `file_size` bytes for the
/// range `[start, finish)`: the length of the range, capped at the size.
pub open spec fn dump_size(file_size: u64, start: u64, finish: u64) -> nat {
    let span: nat = if finish > start { (finish - start) as nat } else { 0 };
    if span < file_size { span } else { file_size as nat }
}

/// `a + b`, or `u64::MAX` where that does not fit.
pub open spec fn sat_offset(a: u64, b: int) -> nat {
    if a + b > u64::MAX { u64::MAX as nat } else { (a + b) as nat }
}

/// Whether `l` is a `hexdump` line at `offset` of at most `limit` (and at
/// most `BYTES_PER_LINE`) bytes.
pub open spec fn is_dump_line(l: Seq<char>, offset: nat, limit: int) -> bool {
    exists|bytes: Seq<u8>|
        bytes.len() <= BYTES_PER_LINE && bytes.len() <= limit && l == #[trigger] hex_line_text(offset, bytes)
}

/// Whether the lines `v` are `hexdump` lines for the range from `start`,
/// `size` bytes long: line `k` at the offset `16 * k` past `start`.
pub open spec fn dump_lines_from(v: Seq<String>, start: u64, size: nat) -> bool {
    forall|k: int| 0 <= k < v.len() ==> is_dump_line(#[trigger] v[k]@, sat_offset(start, 16 * k), size - 16 * k)
}

/// The lines `hexdump` shows of the file of inode `n`, `file_size` bytes
/// long, for the range `[start, finish)`: one line for each 16 bytes from
/// `start`, up to `finish` and the file size, until a read starts past
/// the end; then the number of bytes in eight hexadecimal digits. An
/// empty file shows nothing. A read that fails otherwise ends the lines
/// with its error.
pub fn hexdump_lines(fs: &mut MinixFileSystem, n: u64, file_size: u64, start: u64, finish: u64) -> (r: Result<
    Vec<String>,
    (Vec<String>, FsError),
>)
    requires
        file_size <= u32::MAX,
    ensures
        final(fs).same_content(&*old(fs)),
        file_size == 0 ==> (r matches Ok(v) && v@.len() == 0),
        file_size > 0 ==> ({
            let size = dump_size(file_size, start, finish);
            match r {
                Ok(v) => {
                    &&& 1 <= v@.len() <= line_count(size) + 1
                    &&& dump_lines_from(v@.drop_last(), start, size)
                    &&& v@.last()@ == zero_pad(hex_str(size), 8)
                },
                Err((v, e)) => {
                    &&& e != FsError::OffsetBeyondEof
                    &&& v@.len() < line_count(size)
                    &&& dump_lines_from(v@, start, size)
                },
            }
        }),
        file_size > 0 && dump_size(file_size, start, finish) > 0 && old(fs).inode_at(n) is None
            ==> (r matches Err((v, e)) && v@.len() == 0 && e == FsError::InvalidInode { inode: n }),
        (file_size > 0 && (old(fs).inode_at(n) matches Some(ino) && start >= ino.size))
            ==> (r matches Ok(v) && v@.len() == 1),
{
    let mut lines: Vec<String> = Vec::new();
    if file_size == 0 {
        return Ok(lines);
    }
    let span = if finish > start { finish - start } else { 0 };
    let size = if span < file_size { span } else { file_size };
    let mut buf = crate::bytes::zeros(BYTES_PER_LINE);
    let mut i: u64 = 0;
    let ghost f0 = *fs;
    proof {
        crate::minix::read::lemma_same_content_refl(f0);
    }
    while i < size
        invariant_except_break
            i == 16 * lines@.len(),
            i == 0 || i < size,
        invariant
            size == dump_size(file_size, start, finish),
            size <= u32::MAX,
            file_size > 0,
            buf@.len() == BYTES_PER_LINE,
            fs.same_content(&f0),
            f0 == *old(fs),
            dump_lines_from(lines@, start, size as nat),
            f0.inode_at(n) is None ==> lines@.len() == 0,
            (f0.inode_at(n) matches Some(ino) && start >= ino.size) ==> lines@.len() == 0,
        ensures
            lines@.len() <= line_count(size as nat),
            dump_lines_from(lines@, start, size as nat),
            (f0.inode_at(n) matches Some(ino) && start >= ino.size) ==> lines@.len() == 0,
            f0.inode_at(n) is None ==> size == 0,
        decreases size - i,
    {
        let offset = start.saturating_add(i);
        let ghost fi = *fs;
        let got = fs.read_file(n, offset, buf.as_mut_slice());
        proof {
            crate::minix::read::lemma_same_content_trans(f0, fi, *fs);
        }
        match got {
            Ok(num) => {
                let left = size - i;
                let m = if num < left { num } else { left };
                let m = if m > BYTES_PER_LINE as u64 { BYTES_PER_LINE as u64 } else { m };
                let piece = crate::bytes::copy_range(buf.as_slice(), 0, m as usize);
                let line = hex_line(offset, piece.as_slice());
                let ghost before = lines@;
                lines.push(line);
                proof {
                    assert(is_dump_line(line@, sat_offset(start, 16 * before.len() as int), size - 16 * before.len() as int));
                    assert forall|k: int| 0 <= k < lines@.len() implies is_dump_line(
                        #[trigger] lines@[k]@,
                        sat_offset(start, 16 * k),
                        size - 16 * k,
                    ) by {
                        if k < before.len() {
                            assert(lines@[k] == before[k]);
                        }
                    }
                }
            },
            Err(FsError::OffsetBeyondEof) => {
                break;
            },
            Err(e) => {
                return Err((lines, e));
            },
        }
        if size - i <= BYTES_PER_LINE as u64 {
            break;
        }
        i += BYTES_PER_LINE as u64;
    }
    let ghost body = lines@;
    lines.push(hex_padded(size, 8));
    proof {
        assert(lines@.drop_last() =~= body);
    }
    Ok(lines)
}

/// How many lines of `BYTES_PER_LINE` bytes it takes to show `n` bytes.
pub open spec fn line_count(n: nat) -> nat {
    (n + 15) / 16
}

/// Whether `v` is what `catblock` shows of the block bytes `d`, `bs` of
/// them: for each 16 bytes from the start the `hexdump` line of the bytes
/// from there to the end, then `bs` in eight hexadecimal digits.
pub open spec fn is_block_dump(v: Seq<String>, d: Seq<u8>, bs: nat) -> bool {
    &&& v.len() == line_count(bs) + 1
    &&& forall|k: int| 0 <= k < line_count(bs) ==> #[trigger] v[k]@ == hex_line_text(
        (16 * k) as nat,
        d.subrange(16 * k, bs as int),
    )
    &&& v[line_count(bs) as int]@ == zero_pad(hex_str(bs), 8)
}

/// The lines `catblock` shows of block `b`: one for each 16 bytes of the
/// block, then the block size in eight hexadecimal digits. It fails where
/// the block cannot be read.
pub fn block_lines(fs: &mut MinixFileSystem, b: u64) -> (r: Result<Vec<String>, FsError>)
    ensures
        final(fs).same_but_cache(&*old(fs)),
        match old(fs).read_block_data(b, Seq::new(old(fs).superblock.block_size as nat, |i: int| 0u8)) {
            Ok(d) => r matches Ok(v) && is_block_dump(v@, d, old(fs).superblock.block_size as nat),
            Err(e) => r == Err::<Vec<String>, FsError>(e),
        },
{
    let bs = fs.superblock.block_size as usize;
    let mut data = crate::bytes::zeros(bs);
    assert(data@ =~= Seq::new(fs.superblock.block_size as nat, |i: int| 0u8));
    fs.read_block(b, data.as_mut_slice())?;
    let mut lines: Vec<String> = Vec::new();
    let mut i: usize = 0;
    while i < bs
        invariant_except_break
            i == 16 * lines@.len(),
            i == 0 || i < bs,
        invariant
            data@.len() == bs,
            bs <= u16::MAX,
            forall|k: int| 0 <= k < lines@.len() ==> #[trigger] lines@[k]@ == hex_line_text(
                (16 * k) as nat,
                data@.subrange(16 * k, bs as int),
            ),
        ensures
            lines@.len() == line_count(bs as nat),
            forall|k: int| 0 <= k < lines@.len() ==> #[trigger] lines@[k]@ == hex_line_text(
                (16 * k) as nat,
                data@.subrange(16 * k, bs as int),
            ),
        decreases bs - i,
    {
        let piece = crate::bytes::copy_range(data.as_slice(), i, bs);
        lines.push(hex_line(i as u64, piece.as_slice()));
        if bs - i <= BYTES_PER_LINE {
            break;
        }
        i += BYTES_PER_LINE;
    }
    lines.push(hex_padded(bs as u64, 8));
    Ok(lines)
}

/// The components `cs` joined by `/`, without a leading one.
pub open spec fn join_plain(cs: Seq<Seq<char>>) -> Seq<char>
    decreases cs.len(),
{
    if cs.len() == 0 {
        Seq::empty()
    } else if cs.len() == 1 {
        cs[0]
    } else {
        join_plain(cs.drop_last()) + seq!['/'] + cs.last()
    }
}

/// The path `catsymlink` reads for `arg` from `cwd`: the resolved
/// directory of all components but the last (the current one where there
/// is one component), followed directly by the last component; and the
/// target of the symbolic link it names.
pub fn catsymlink(fs: &mut MinixFileSystem, cwd: &[String], arg: &str) -> (r: Result<(String, String), CmdError>)
    ensures
        final(fs).same_but_cache(&*old(fs)),
        components(arg@).len() == 0 ==> (r matches Err(CmdError::InvalidPath(a)) && a@ == arg@),
        r matches Ok((p, t)) ==> {
            let cs = components(arg@);
            let dir = if cs.len() > 1 { join_plain(cs.drop_last()) } else { seq!['.'] };
            &&& crate::repl::entry::deref_of(*old(fs), crate::path::strings_view(cwd@), dir) matches crate::path::Resolution::Resolved(
                rs,
            )
            &&& p@ == crate::path::join_abs(rs) + cs.last()
            &&& lookup(trees_view(old(fs).tree@), components(p@)) matches Lookup::Found(v)
            &&& old(fs).inode_at(view_inode(v)) matches Some(i)
            &&& i.spec_file_type() == FileType::Symlink
            &&& old(fs).symlink_target(view_inode(v)) == Ok::<Seq<char>, FsError>(t@)
        },
{
    let ghost f0 = *fs;
    let parts = crate::path::split_path(arg);
    if parts.len() == 0 {
        return Err(CmdError::InvalidPath(arg.to_owned()));
    }
    let last = parts.len() - 1;
    let mut dir = String::new();
    if last == 0 {
        dir = String::from_str(".");
        proof {
            reveal_strlit(".");
            assert(dir@ =~= seq!['.']);
        }
    } else {
        let mut k: usize = 0;
        while k < last
            invariant
                k <= last < parts@.len(),
                k > 0 ==> dir@ == join_plain(crate::path::strs_view(parts@).take(k as int)),
                k == 0 ==> dir@.len() == 0,
            decreases last - k,
        {
            if k > 0 {
                crate::bytes::push_char(&mut dir, '/');
            }
            dir.append(parts[k]);
            proof {
                let v = crate::path::strs_view(parts@);
                assert(v.take(k + 1).drop_last() =~= v.take(k as int));
                if k == 0 {
                    assert(dir@ =~= v.take(1)[0]);
                }
            }
            k += 1;
        }
        proof {
            assert(crate::path::strs_view(parts@).take(last as int) =~= crate::path::strs_view(parts@).drop_last());
        }
    }
    let fpath = match build_path_deref(fs, cwd, dir.as_str()) {
        Ok(p) => p,
        Err(e) => {
            return Err(CmdError::Fs(e));
        },
    };
    let mut path = fpath;
    path.append(parts[last]);
    let item = match get_item(&*fs, path.as_str()) {
        Ok(i) => i,
        Err(e) => {
            return Err(CmdError::Fs(e));
        },
    };
    if item.is_dir() {
        return Err(CmdError::IsADirectory(path));
    }
    let ft = match fs.get_inode(item.inode()) {
        Ok(i) => i.get_file_type(),
        Err(e) => {
            return Err(CmdError::Fs(e));
        },
    };
    if ft != FileType::Symlink {
        return Err(CmdError::NotSymlink(path));
    }
    let ghost f1 = *fs;
    match fs.read_symlink(item.inode()) {
        Ok(t) => Ok((path, t)),
        Err(e) => Err(CmdError::Fs(e)),
    }
}


/// The value a lowercase hexadecimal digit character stands for.
pub open spec fn hex_char_value(c: char) -> int {
    if '0' <= c <= '9' {
        c as int - '0' as int
    } else {
        c as int - 'a' as int + 10
    }
}

/// The value of the hexadecimal digit characters `s`, the last one the
/// ones.
pub open spec fn hex_chars_value(s: Seq<char>) -> int
    decreases s.len(),
{
    if s.len() == 0 {
        0
    } else {
        hex_chars_value(s.drop_last()) * 16 + hex_char_value(s.last())
    }
}

/// The hexadecimal text of a number: lowercase digits `0`-`9`, `a`-`f`
/// that read back as the number, with no leading zero but for zero itself.
pub proof fn law_hex_digits(n: nat)
    ensures
        hex_str(n).len() >= 1,
        forall|i: int| 0 <= i < hex_str(n).len() ==> ('0' <= #[trigger] hex_str(n)[i] <= '9' || 'a' <= hex_str(n)[i] <= 'f'),
        hex_chars_value(hex_str(n)) == n,
        hex_str(n)[0] == '0' ==> n == 0,
    decreases n,
{
    if n < 16 {
        assert(hex_str(n) =~= seq![hex_digit(n)]);
        assert(hex_char_value(hex_digit(n)) == n);
        assert(seq![hex_digit(n)].drop_last() =~= Seq::<char>::empty());
        assert(hex_chars_value(Seq::<char>::empty()) == 0);
        assert(seq![hex_digit(n)].last() == hex_digit(n));
    } else {
        law_hex_digits(n / 16);
        let s = hex_str(n / 16);
        let c = hex_digit(n % 16);
        assert(hex_str(n) == s.push(c));
        assert(s.push(c).drop_last() =~= s);
        assert(s.push(c).last() == c);
        assert(hex_char_value(c) == n % 16);
        assert(hex_chars_value(s.push(c)) == hex_chars_value(s) * 16 + hex_char_value(c));
        assert((n / 16) * 16 + n % 16 == n);
        assert(s.push(c)[0] == s[0]);
        assert forall|i: int| 0 <= i < s.push(c).len() implies ('0' <= #[trigger] s.push(c)[i] <= '9' || 'a' <= s.push(c)[i]
            <= 'f') by {
            if i < s.len() {
                assert(s.push(c)[i] == s[i]);
            }
        }
    }
}

} // verus!
