//! Directory listings: which entries `ls` shows of which directory, in
//! which order, in how many columns, and the colors of their names.
use crate::cache::{item_view, trees_view, Item, ItemView};
use crate::error::FsError;
use crate::filetype::{spec_sort_order, FileType};
use crate::fs::{FileSystem, InodeOperations};
use crate::minix::fs::MinixFileSystem;
use crate::minix::inode::Inode;
use crate::path::{components, first_named, split_path, strs_view, view_inode, view_name};
use crate::repl::outcome::CmdError;
use crate::stat::{combined_list, make_combined_list};
use crate::terminal::{bright, normal, ANSI_NORMAL};
use vstd::prelude::*;
use vstd::string::{StrSliceExecFns, StringExecFns};

verus! {

/// The escape sequence that colors a name of type `ft`.
pub open spec fn spec_ansi_color(ft: FileType) -> &'static str {
    match ft {
        FileType::Directory => bright::BLUE,
        FileType::CharacterDevice | FileType::BlockDevice => bright::YELLOW,
        FileType::Fifo => normal::YELLOW,
        FileType::Socket => bright::MAGENTA,
        FileType::Symlink => bright::CYAN,
        FileType::Invalid => bright::WHITE,
        FileType::Regular => ANSI_NORMAL,
    }
}

/// The escape sequence that colors a name of type `file_type`: bright blue
/// directories, bright yellow devices, yellow FIFOs, bright magenta
/// sockets, bright cyan links, bright white invalid entries and regular
/// files in the normal color.
pub fn get_ansi_color(file_type: FileType) -> (r: &'static str)
    ensures
        r == spec_ansi_color(file_type),
{
    match file_type {
        FileType::Directory => bright::BLUE,
        FileType::CharacterDevice | FileType::BlockDevice => bright::YELLOW,
        FileType::Fifo => normal::YELLOW,
        FileType::Socket => bright::MAGENTA,
        FileType::Symlink => bright::CYAN,
        FileType::Invalid => bright::WHITE,
        FileType::Regular => ANSI_NORMAL,
    }
}

/// The name `s` as a listing shows it: as it is without color, else
/// between its type's color and the normal color.
pub fn mk_string(s: &str, file_type: FileType, color: bool) -> (r: String)
    ensures
        !color ==> r@ == s@,
        color ==> r@ == spec_ansi_color(file_type)@ + s@ + ANSI_NORMAL@,
{
    if !color {
        return String::from_str(s);
    }
    let color_code = get_ansi_color(file_type);
    let mut out = String::from_str(color_code);
    out.append(s);
    out.append(ANSI_NORMAL);
    out
}

/// Where the walk of `ls` along the components `cs` from the entries `t`
/// ends: an entry named as a component is entered where it is a
/// directory, stops the walk (with its name) where it is not, and a
/// component that names no entry is passed over.
pub open spec fn ls_walk(t: Seq<ItemView>, cs: Seq<Seq<char>>) -> Result<Seq<ItemView>, Seq<char>>
    decreases cs.len(),
{
    if cs.len() == 0 {
        Ok(t)
    } else {
        let k = first_named(t, cs[0]);
        if k < t.len() {
            match t[k] {
                ItemView::Directory { children, .. } => ls_walk(children, cs.drop_first()),
                v => Err(view_name(v)),
            }
        } else {
            ls_walk(t, cs.drop_first())
        }
    }
}

/// What a listing shows of one entry.
pub struct LsEntry {
    pub name: String,
    pub ftype: FileType,
    pub inode: u64,
    /// The mode column, such as `drwxr-xr-x`.
    pub mode_list: String,
    pub nlinks: u32,
    pub uid: u32,
    pub gid: u32,
    pub size: u64,
    /// The major and minor device numbers.
    pub node: (u16, u16),
    /// The target of a symbolic link entry.
    pub target: Option<String>,
}

/// Whether `a` comes before `b` in the order of characters.
pub open spec fn seq_lt(a: Seq<char>, b: Seq<char>) -> bool
    decreases a.len(),
{
    if b.len() == 0 {
        false
    } else if a.len() == 0 {
        true
    } else if a[0] != b[0] {
        a[0] < b[0]
    } else {
        seq_lt(a.drop_first(), b.drop_first())
    }
}

/// Whether entry `a` may stand before entry `b` in a listing: by the sort
/// order of their types, then by name.
pub open spec fn ls_le(a: LsEntry, b: LsEntry) -> bool {
    let (oa, ob) = (spec_sort_order(a.ftype), spec_sort_order(b.ftype));
    oa < ob || (oa == ob && !seq_lt(b.name@, a.name@))
}

/// Whether `s` is in listing order.
pub open spec fn ls_sorted(s: Seq<LsEntry>) -> bool {
    forall|i: int, j: int| 0 <= i < j < s.len() ==> ls_le(s[i], s[j])
}

/// Whether `a` comes before `b` in the order of characters.
fn str_lt(a: &str, b: &str) -> (r: bool)
    ensures
        r == seq_lt(a@, b@),
{
    let n = a.unicode_len();
    let m = b.unicode_len();
    let mut i: usize = 0;
    assert(a@.skip(0) =~= a@);
    assert(b@.skip(0) =~= b@);
    while i < n && i < m && a.get_char(i) == b.get_char(i)
        invariant
            n == a@.len(),
            m == b@.len(),
            i <= n,
            i <= m,
            seq_lt(a@, b@) == seq_lt(a@.skip(i as int), b@.skip(i as int)),
        decreases n - i,
    {
        assert(a@.skip(i as int).drop_first() =~= a@.skip(i + 1));
        assert(b@.skip(i as int).drop_first() =~= b@.skip(i + 1));
        i += 1;
    }
    if i == m {
        false
    } else if i == n {
        true
    } else {
        a.get_char(i) < b.get_char(i)
    }
}

proof fn lemma_seq_lt_total(a: Seq<char>, b: Seq<char>)
    ensures
        seq_lt(a, b) ==> !seq_lt(b, a),
        !seq_lt(a, b) && !seq_lt(b, a) ==> a == b,
    decreases a.len(),
{
    if a.len() > 0 && b.len() > 0 && a[0] == b[0] {
        lemma_seq_lt_total(a.drop_first(), b.drop_first());
        if !seq_lt(a, b) && !seq_lt(b, a) {
            assert(a =~= seq![a[0]] + a.drop_first());
            assert(b =~= seq![b[0]] + b.drop_first());
        }
    }
}

proof fn lemma_seq_lt_trans(a: Seq<char>, b: Seq<char>, c: Seq<char>)
    ensures
        !seq_lt(b, a) && !seq_lt(c, b) ==> !seq_lt(c, a),
    decreases a.len(),
{
    if a.len() > 0 && b.len() > 0 && c.len() > 0 && a[0] == b[0] && b[0] == c[0] {
        lemma_seq_lt_trans(a.drop_first(), b.drop_first(), c.drop_first());
    }
}

/// Put `e` into the listing-ordered `v` after every entry that may stand
/// before it.
fn insert_sorted(v: &mut Vec<LsEntry>, e: LsEntry)
    requires
        ls_sorted(old(v)@),
    ensures
        ls_sorted(final(v)@),
        final(v)@.to_multiset() == old(v)@.to_multiset().insert(e),
{
    let mut k: usize = v.len();
    let ghost s = v@;
    while k > 0 && !(ls_key_le(&v[k - 1], &e))
        invariant
            k <= v@.len(),
            v@ == s,
            forall|j: int| k <= j < v@.len() ==> !ls_le(v@[j], e),
        decreases k,
    {
        k -= 1;
    }
    proof {
        assert forall|j: int| 0 <= j < k implies ls_le(#[trigger] v@[j], e) by {
            if j < k - 1 {
                assert(ls_le(v@[j], v@[k - 1]));
                lemma_ls_le_trans(v@[j], v@[k - 1], e);
            }
        }
        assert forall|j: int| k <= j < v@.len() implies ls_le(e, #[trigger] v@[j]) by {
            lemma_ls_le_total(v@[j], e);
        }
        vstd::seq_lib::to_multiset_insert(s, k as int, e);
    }
    v.insert(k, e);
    proof {
        assert forall|i: int, j: int| 0 <= i < j < v@.len() implies ls_le(v@[i], v@[j]) by {
            if i < k && j > k {
                lemma_ls_le_trans(v@[i], e, v@[j]);
            }
        }
    }
}

proof fn lemma_ls_le_trans(a: LsEntry, b: LsEntry, c: LsEntry)
    requires
        ls_le(a, b),
        ls_le(b, c),
    ensures
        ls_le(a, c),
{
    lemma_seq_lt_trans(a.name@, b.name@, c.name@);
}

proof fn lemma_ls_le_total(a: LsEntry, b: LsEntry)
    ensures
        !ls_le(a, b) ==> ls_le(b, a),
{
    lemma_seq_lt_total(a.name@, b.name@);
}

/// Whether `a` may stand before `b` in a listing.
fn ls_key_le(a: &LsEntry, b: &LsEntry) -> (r: bool)
    ensures
        r == ls_le(*a, *b),
{
    let oa = a.ftype.sort_order();
    let ob = b.ftype.sort_order();
    oa < ob || (oa == ob && !str_lt(b.name.as_str(), a.name.as_str()))
}

/// Whether the listing entry `e` shows inode `e.inode` of `fs` as it is,
/// under a name that a listing of all entries or none starting with `.`
/// (as `all` says) holds.
pub open spec fn shows(e: LsEntry, fs: MinixFileSystem, all: bool) -> bool {
    &&& all || !(e.name@.len() > 0 && e.name@[0] == '.')
    &&& fs.inode_at(e.inode) matches Some(ino)
    &&& e.ftype == ino.spec_file_type()
    &&& e.mode_list@ == combined_list(ino.spec_file_type(), ino.spec_mode())
    &&& e.nlinks == ino.nlinks && e.uid == ino.uid && e.gid == ino.gid
    &&& e.size == ino.size
}

/// Whether `s` starts with a `.`.
fn hidden(s: &String) -> (r: bool)
    ensures
        r == (s@.len() > 0 && s@[0] == '.'),
{
    let t = s.as_str();
    t.unicode_len() > 0 && t.get_char(0) == '.'
}

/// Whether a listing shows the entry `it`: always where `all`, else when
/// its name does not start with `.`.
pub open spec fn is_shown(it: Item, all: bool) -> bool {
    all || !(it.spec_name().len() > 0 && it.spec_name()[0] == '.')
}

/// How many of the entries `t` a listing shows.
pub open spec fn shown_count(t: Seq<Item>, all: bool) -> nat
    decreases t.len(),
{
    if t.len() == 0 {
        0
    } else {
        shown_count(t.drop_last(), all) + if is_shown(t.last(), all) { 1nat } else { 0nat }
    }
}

/// Whether the listing `v` holds an entry with the name and inode of `it`.
pub open spec fn lists(v: Seq<LsEntry>, it: Item) -> bool {
    exists|k: int| 0 <= k < v.len() && v[k].inode == it.spec_inode() && v[k].name@ == it.spec_name()
}

/// The entries of `t` that a listing shows (all of them where `all`, else
/// those whose names do not start with `.`), looked up in `fs`, in
/// listing order: by the sort order of their types, then by name. It fails
/// exactly when the inode of a shown entry is not in the table.
pub fn ls_list(fs: &mut MinixFileSystem, t: &Vec<Item>, all: bool) -> (r: Result<Vec<LsEntry>, CmdError>)
    ensures
        *final(fs) == *old(fs),
        r is Ok <==> forall|j: int| 0 <= j < t@.len() && is_shown(#[trigger] t@[j], all)
            ==> old(fs).inode_at(t@[j].spec_inode()) is Some,
        r matches Ok(v) ==> {
            &&& ls_sorted(v@)
            &&& v@.len() == shown_count(t@, all)
            &&& forall|i: int| 0 <= i < v@.len() ==> shows(#[trigger] v@[i], *old(fs), all)
            &&& forall|j: int| 0 <= j < t@.len() && is_shown(#[trigger] t@[j], all) ==> lists(v@, t@[j])
        },
        r matches Err(e) ==> exists|j: int| 0 <= j < t@.len() && is_shown(#[trigger] t@[j], all)
            && e == CmdError::Fs(FsError::InvalidInode { inode: t@[j].spec_inode() }),
{
    let mut out: Vec<LsEntry> = Vec::new();
    let mut i: usize = 0;
    while i < t.len()
        invariant
            i <= t@.len(),
            ls_sorted(out@),
            out@.len() == shown_count(t@.take(i as int), all),
            *fs == *old(fs),
            forall|j: int| 0 <= j < out@.len() ==> shows(#[trigger] out@[j], *old(fs), all),
            forall|j: int| 0 <= j < i && is_shown(#[trigger] t@[j], all) ==> lists(out@, t@[j]),
            forall|j: int| 0 <= j < i && is_shown(#[trigger] t@[j], all)
                ==> old(fs).inode_at(t@[j].spec_inode()) is Some,
        decreases t@.len() - i,
    {
        proof {
            assert(t@.take(i + 1).drop_last() =~= t@.take(i as int));
        }
        let item = &t[i];
        let name = item.clone_name();
        if all || !hidden(&name) {
            let n = item.inode();
            let inode = match fs.get_inode(n) {
                Ok(x) => x,
                Err(e) => {
                    proof {
                        assert(is_shown(t@[i as int], all));
                    }
                    return Err(CmdError::Fs(e));
                },
            };
            let e = LsEntry {
                name,
                ftype: inode.get_file_type(),
                inode: n,
                mode_list: make_combined_list(inode),
                nlinks: inode.get_nlinks(),
                uid: inode.get_uid(),
                gid: inode.get_gid(),
                size: inode.get_size(),
                node: inode.get_node(),
                target: item.symlink_target(),
            };
            let ghost before = out@;
            insert_sorted(&mut out, e);
            proof {
                assert(shows(e, *old(fs), all));
                assert forall|j: int| 0 <= j < out@.len() implies shows(#[trigger] out@[j], *old(fs), all) by {
                    let x = out@[j];
                    assert(out@.contains(x));
                    vstd::seq_lib::to_multiset_contains(out@, x);
                    assert(before.to_multiset().insert(e).count(x) > 0);
                    if x != e {
                        assert(before.to_multiset().count(x) > 0);
                        vstd::seq_lib::to_multiset_contains(before, x);
                        let k = choose|k: int| 0 <= k < before.len() && before[k] == x;
                        assert(before[k] == x);
                    }
                }
                vstd::seq_lib::to_multiset_len(out@);
                vstd::seq_lib::to_multiset_len(before);
                assert forall|j: int| 0 <= j <= i && is_shown(#[trigger] t@[j], all) implies lists(out@, t@[j]) by {
                    if j == i {
                        assert(out@.to_multiset().count(e) > 0);
                        vstd::seq_lib::to_multiset_contains(out@, e);
                        assert(out@.contains(e));
                        let k = choose|k: int| 0 <= k < out@.len() && out@[k] == e;
                        assert(out@[k].inode == t@[j].spec_inode() && out@[k].name@ == t@[j].spec_name());
                    } else {
                        assert(lists(before, t@[j]));
                        let k = choose|k: int| 0 <= k < before.len() && before[k].inode == t@[j].spec_inode()
                            && before[k].name@ == t@[j].spec_name();
                        let x = before[k];
                        assert(before.contains(x));
                        vstd::seq_lib::to_multiset_contains(before, x);
                        assert(out@.to_multiset().count(x) > 0);
                        vstd::seq_lib::to_multiset_contains(out@, x);
                        let k2 = choose|k2: int| 0 <= k2 < out@.len() && out@[k2] == x;
                        assert(out@[k2] == x);
                    }
                }
            }
        }
        i += 1;
    }
    assert(t@.take(t@.len() as int) =~= t@);
    Ok(out)
}

/// A copy of the entries `t`, with all they hold.
pub fn clone_entries(t: &Vec<Item>) -> (r: Vec<Item>)
    ensures
        trees_view(r@) == trees_view(t@),
{
    let mut out: Vec<Item> = Vec::new();
    let mut i: usize = 0;
    while i < t.len()
        invariant
            i <= t@.len(),
            trees_view(out@) == trees_view(t@.take(i as int)),
        decreases t@.len() - i,
    {
        let e = t[i].deep_clone();
        let ghost prev = out@;
        out.push(e);
        proof {
            assert(out@.drop_last() =~= prev);
            assert(t@.take(i + 1).drop_last() =~= t@.take(i as int));
        }
        i += 1;
    }
    assert(t@.take(t@.len() as int) =~= t@);
    out
}

/// The entries of the directory that `ls` lists for `path` (see
/// `ls_walk`), copied out of the tree.
pub fn ls_dir(fs: &MinixFileSystem, path: &str) -> (r: Result<Vec<Item>, CmdError>)
    ensures
        match ls_walk(trees_view(fs.tree@), components(path@)) {
            Ok(t) => r matches Ok(v) && trees_view(v@) == t,
            Err(name) => r matches Err(CmdError::NotADirectory(s)) && s@ == name,
        },
{
    let parts = split_path(path);
    let ghost cs = strs_view(parts@);
    let mut at: &Vec<Item> = &fs.tree;
    let mut i: usize = 0;
    assert(cs.skip(0) =~= cs);
    proof {
        crate::path::lemma_item_views();
    }
    while i < parts.len()
        invariant
            i <= parts@.len(),
            cs == strs_view(parts@),
            cs == components(path@),
            ls_walk(trees_view(fs.tree@), cs) == ls_walk(trees_view(at@), cs.skip(i as int)),
            forall|it: Item| #[trigger] view_name(item_view(it)) == it.spec_name(),
        decreases parts@.len() - i,
    {
        let name = parts[i].to_owned();
        let k = crate::path::find_index(at, &name);
        proof {
            crate::cache::lemma_trees_view(at@);
            assert(cs.skip(i as int)[0] == name@);
            assert(cs.skip(i as int).drop_first() =~= cs.skip(i + 1));
        }
        if k < at.len() {
            match &at[k] {
                Item::Directory(_, c) => {
                    at = c;
                },
                other => {
                    return Err(CmdError::NotADirectory(other.clone_name()));
                },
            }
        }
        i += 1;
    }
    assert(cs.skip(cs.len() as int) =~= Seq::<Seq<char>>::empty());
    Ok(clone_entries(at))
}

/// A short listing starts a new column while its lines are shorter than
/// this.
pub const MAX_LINE_SIZE: usize = 25;

/// The column widths of a short listing of names of lengths `lens[i..]`,
/// from the widths `cols` and line length `line` so far: while the line
/// is shorter than `MAX_LINE_SIZE` each name opens a column; name `i`
/// goes in column `i % columns`, widening it (and the line) where it is
/// longer.
pub open spec fn layout_from(lens: Seq<usize>, i: int, cols: Seq<usize>, line: nat) -> Seq<usize>
    decreases lens.len() - i,
{
    if i < 0 || i >= lens.len() {
        cols
    } else {
        let c = if line < MAX_LINE_SIZE {
            cols.push(0)
        } else {
            cols
        };
        let x = i % c.len() as int;
        if lens[i] > c[x] {
            layout_from(lens, i + 1, c.update(x, lens[i]), line + lens[i] as nat)
        } else {
            layout_from(lens, i + 1, c, line)
        }
    }
}

/// The column widths of a short listing of names of lengths `lens`.
pub fn column_widths(lens: &Vec<usize>) -> (r: Vec<usize>)
    ensures
        r@ == layout_from(lens@, 0, Seq::empty(), 0),
        lens@.len() > 0 ==> r@.len() > 0,
{
    let mut cols: Vec<usize> = Vec::new();
    let mut line: usize = 0;
    let ghost mut sline: nat = 0;
    let mut i: usize = 0;
    while i < lens.len()
        invariant
            i <= lens@.len(),
            layout_from(lens@, 0, Seq::empty(), 0) == layout_from(lens@, i as int, cols@, sline),
            line == (if sline > usize::MAX { usize::MAX as nat } else { sline }),
            i > 0 ==> cols@.len() > 0,
            i == 0 ==> sline == 0,
            cols@.len() <= i,
        decreases lens@.len() - i,
    {
        if line < MAX_LINE_SIZE {
            cols.push(0);
        }
        let x = i % cols.len();
        if lens[i] > cols[x] {
            cols.set(x, lens[i]);
            line = line.saturating_add(lens[i]);
            proof {
                sline = sline + lens@[i as int] as nat;
            }
        }
        i += 1;
    }
    cols
}

/// The decimal digit `d` (below 10).
pub open spec fn dec_digit(d: nat) -> char {
    (('0' as nat) + d) as char
}

/// The decimal digits of `n`, without leading zeros (`0` for zero).
pub open spec fn dec_str(n: nat) -> Seq<char>
    decreases n,
{
    if n < 10 {
        seq![dec_digit(n)]
    } else {
        dec_str(n / 10).push(dec_digit(n % 10))
    }
}

/// `s` with spaces after it up to `w` characters.
pub open spec fn pad_right(s: Seq<char>, w: nat) -> Seq<char> {
    if s.len() >= w {
        s
    } else {
        s + Seq::new((w - s.len()) as nat, |i: int| ' ')
    }
}

/// `s` with spaces in front of it up to `w` characters.
pub open spec fn pad_left(s: Seq<char>, w: nat) -> Seq<char> {
    if s.len() >= w {
        s
    } else {
        Seq::new((w - s.len()) as nat, |i: int| ' ') + s
    }
}

/// The size column of a long listing: `major,minor` for a device (the
/// major number left-aligned and the minor number right-aligned in two
/// places each), else the size in bytes.
pub open spec fn size_column(e: LsEntry) -> Seq<char> {
    if e.ftype == FileType::CharacterDevice || e.ftype == FileType::BlockDevice {
        pad_right(dec_str(e.node.0 as nat), 2) + seq![','] + pad_left(dec_str(e.node.1 as nat), 2)
    } else {
        dec_str(e.size as nat)
    }
}

/// Two spaces, which part the columns of a long listing.
pub open spec fn gap() -> Seq<char> {
    seq![' ', ' ']
}

/// A row of a long listing for `e`, its name shown as `name`: the mode
/// column, then, two spaces apart, the link count, owner and group
/// left-aligned in 5, 4 and 4 places, the size column left-aligned in 9,
/// the inode number right-aligned in 5, and the name; a symbolic link's
/// row ends in ` -> ` and its target.
pub open spec fn long_row_text(e: LsEntry, name: Seq<char>) -> Seq<char> {
    e.mode_list@ + gap() + pad_right(dec_str(e.nlinks as nat), 5) + gap() + pad_right(dec_str(e.uid as nat), 4) + gap()
        + pad_right(dec_str(e.gid as nat), 4) + gap() + pad_right(size_column(e), 9) + gap() + pad_left(
        dec_str(e.inode as nat),
        5,
    ) + gap() + name + match e.target {
        Some(t) => seq![' ', '-', '>', ' '] + t@,
        None => Seq::empty(),
    }
}

/// The decimal digits of `n` in front of `acc`.
fn push_dec(n: u64, acc: &mut Vec<char>)
    ensures
        final(acc)@ == dec_str(n as nat) + old(acc)@,
    decreases n,
{
    let d = n % 10;
    let c = (0x30u8 + d as u8) as char;
    assert(c == dec_digit(d as nat));
    acc.insert(0, c);
    if n >= 10 {
        let ghost mid = acc@;
        push_dec(n / 10, acc);
        assert(dec_str(n as nat) == dec_str((n / 10) as nat).push(dec_digit(d as nat)));
        assert(dec_str((n / 10) as nat) + mid =~= dec_str(n as nat) + old(acc)@);
    } else {
        assert(acc@ =~= seq![c] + old(acc)@);
    }
}

/// Append the decimal digits of `n` to `s`, with spaces after them up to
/// `w` characters (`left` false) or in front of them (`left` true).
fn push_dec_padded(s: &mut String, n: u64, w: usize, left: bool)
    ensures
        left ==> final(s)@ == old(s)@ + pad_left(dec_str(n as nat), w as nat),
        !left ==> final(s)@ == old(s)@ + pad_right(dec_str(n as nat), w as nat),
{
    let mut digits: Vec<char> = Vec::new();
    push_dec(n, &mut digits);
    assert(digits@ =~= dec_str(n as nat));
    push_padded(s, &digits, w, left);
}

/// Append the characters `cs` to `s`, with spaces after them up to `w`
/// characters (`left` false) or in front of them (`left` true).
fn push_padded(s: &mut String, cs: &Vec<char>, w: usize, left: bool)
    ensures
        left ==> final(s)@ == old(s)@ + pad_left(cs@, w as nat),
        !left ==> final(s)@ == old(s)@ + pad_right(cs@, w as nat),
{
    let k = cs.len();
    let fill = if k < w {
        w - k
    } else {
        0
    };
    if left {
        crate::repl::cat::push_str_chars(s, ' ', fill);
        crate::repl::cat::append_chars(s, cs);
        proof {
            if k >= w {
                assert(Seq::new(0nat, |i: int| ' ') =~= Seq::<char>::empty());
            }
        }
        assert(s@ =~= old(s)@ + pad_left(cs@, w as nat));
    } else {
        crate::repl::cat::append_chars(s, cs);
        crate::repl::cat::push_str_chars(s, ' ', fill);
        proof {
            if k >= w {
                assert(Seq::new(0nat, |i: int| ' ') =~= Seq::<char>::empty());
            }
        }
        assert(s@ =~= old(s)@ + pad_right(cs@, w as nat));
    }
}

/// The characters of `s`.
fn chars_of(s: &str) -> (r: Vec<char>)
    ensures
        r@ == s@,
{
    let mut v: Vec<char> = Vec::new();
    let n = s.unicode_len();
    let mut i: usize = 0;
    while i < n
        invariant
            n == s@.len(),
            i <= n,
            v@ == s@.take(i as int),
        decreases n - i,
    {
        v.push(s.get_char(i));
        assert(s@.take(i + 1) =~= s@.take(i as int).push(s@[i as int]));
        i += 1;
    }
    assert(s@.take(n as int) =~= s@);
    v
}

/// The row of a long listing for `e`, its name shown as `name` (see
/// `long_row_text`).
pub fn long_row(e: &LsEntry, name: &str) -> (r: String)
    ensures
        r@ == long_row_text(*e, name@),
{
    let mut s = String::new();
    s.append(e.mode_list.as_str());
    crate::repl::cat::push_str_chars(&mut s, ' ', 2);
    push_dec_padded(&mut s, e.nlinks as u64, 5, false);
    crate::repl::cat::push_str_chars(&mut s, ' ', 2);
    push_dec_padded(&mut s, e.uid as u64, 4, false);
    crate::repl::cat::push_str_chars(&mut s, ' ', 2);
    push_dec_padded(&mut s, e.gid as u64, 4, false);
    crate::repl::cat::push_str_chars(&mut s, ' ', 2);
    let mut field = String::new();
    if e.ftype == FileType::CharacterDevice || e.ftype == FileType::BlockDevice {
        push_dec_padded(&mut field, e.node.0 as u64, 2, false);
        crate::bytes::push_char(&mut field, ',');
        push_dec_padded(&mut field, e.node.1 as u64, 2, true);
    } else {
        push_dec_padded(&mut field, e.size, 0, false);
    }
    let fc = chars_of(field.as_str());
    push_padded(&mut s, &fc, 9, false);
    crate::repl::cat::push_str_chars(&mut s, ' ', 2);
    push_dec_padded(&mut s, e.inode, 5, true);
    crate::repl::cat::push_str_chars(&mut s, ' ', 2);
    s.append(name);
    match &e.target {
        Some(t) => {
            crate::bytes::push_char(&mut s, ' ');
            crate::bytes::push_char(&mut s, '-');
            crate::bytes::push_char(&mut s, '>');
            crate::bytes::push_char(&mut s, ' ');
            s.append(t.as_str());
        },
        None => {},
    }
    proof {
        assert(Seq::new(2nat, |i: int| ' ') =~= gap());
        assert(pad_right(dec_str(e.size as nat), 0) == dec_str(e.size as nat));
    }
    assert(s@ =~= long_row_text(*e, name@));
    s
}


/// The value of the decimal digit characters `s`, the last one the ones.
pub open spec fn dec_chars_value(s: Seq<char>) -> int
    decreases s.len(),
{
    if s.len() == 0 {
        0
    } else {
        dec_chars_value(s.drop_last()) * 10 + (s.last() as int - '0' as int)
    }
}

/// The decimal text of a number: digits `0`-`9` that read back as the
/// number, with no leading zero but for zero itself.
pub proof fn law_dec_digits(n: nat)
    ensures
        dec_str(n).len() >= 1,
        forall|i: int| 0 <= i < dec_str(n).len() ==> '0' <= #[trigger] dec_str(n)[i] <= '9',
        dec_chars_value(dec_str(n)) == n,
        dec_str(n)[0] == '0' ==> n == 0,
    decreases n,
{
    if n < 10 {
        assert(dec_str(n) =~= seq![dec_digit(n)]);
        assert((dec_digit(n) as int - '0' as int) == n);
        assert(seq![dec_digit(n)].drop_last() =~= Seq::<char>::empty());
        assert(dec_chars_value(Seq::<char>::empty()) == 0);
        assert(seq![dec_digit(n)].last() == dec_digit(n));
    } else {
        law_dec_digits(n / 10);
        let s = dec_str(n / 10);
        let c = dec_digit(n % 10);
        assert(dec_str(n) == s.push(c));
        assert(s.push(c).drop_last() =~= s);
        assert(s.push(c).last() == c);
        assert((c as int - '0' as int) == n % 10);
        assert(dec_chars_value(s.push(c)) == dec_chars_value(s) * 10 + (c as int - '0' as int));
        assert((n / 10) * 10 + n % 10 == n);
        assert(s.push(c)[0] == s[0]);
        assert forall|i: int| 0 <= i < s.push(c).len() implies '0' <= #[trigger] s.push(c)[i] <= '9' by {
            if i < s.len() {
                assert(s.push(c)[i] == s[i]);
            }
        }
    }
}

} // verus!
