//! Path manipulation: path strings and the walk of the in-memory directory
//! tree.
//!
//! A path is a `/`-separated string; its components are the non-empty pieces
//! between the separators, `.` and `..` included as they are.
use crate::cache::{item_view, lemma_trees_view, new_entry_view, trees_view, Item, ItemView, Tree};
use crate::error::FsError;
use crate::filetype::FileType;
use crate::fs::{FileSystem, InodeOperations};
use vstd::prelude::*;
use vstd::string::{StrSliceExecFns, StringExecFns};

verus! {

broadcast use vstd::std_specs::vec::group_vec_axioms;

/// The components of `s[i..]`, the current piece being `cur`.
pub open spec fn comps_from(s: Seq<char>, i: int, cur: Seq<char>) -> Seq<Seq<char>>
    decreases s.len() - i,
{
    if i < 0 || i >= s.len() {
        if cur.len() > 0 {
            seq![cur]
        } else {
            Seq::empty()
        }
    } else if s[i] == '/' {
        (if cur.len() > 0 {
            seq![cur]
        } else {
            Seq::empty()
        }) + comps_from(s, i + 1, Seq::empty())
    } else {
        comps_from(s, i + 1, cur.push(s[i]))
    }
}

/// The components of a path: its non-empty `/`-separated pieces.
pub open spec fn components(s: Seq<char>) -> Seq<Seq<char>> {
    comps_from(s, 0, Seq::empty())
}

/// Whether a path starts at the root.
pub open spec fn is_absolute(s: Seq<char>) -> bool {
    s.len() > 0 && s[0] == '/'
}

/// `/c0/c1/...` for the components `cs`.
pub open spec fn join_rest(cs: Seq<Seq<char>>) -> Seq<char>
    decreases cs.len(),
{
    if cs.len() == 0 {
        Seq::empty()
    } else {
        seq!['/'] + cs[0] + join_rest(cs.drop_first())
    }
}

/// The absolute path with components `cs` (`/` for none).
pub open spec fn join_abs(cs: Seq<Seq<char>>) -> Seq<char> {
    if cs.len() == 0 {
        seq!['/']
    } else {
        join_rest(cs)
    }
}

/// The components after pushing the path `p` onto a path with components
/// `acc`: an absolute `p` replaces them.
pub open spec fn push_path(acc: Seq<Seq<char>>, p: Seq<char>) -> Seq<Seq<char>> {
    if is_absolute(p) {
        components(p)
    } else {
        acc + components(p)
    }
}

/// The components after pushing each path of `ps` in turn.
pub open spec fn push_all(acc: Seq<Seq<char>>, ps: Seq<Seq<char>>) -> Seq<Seq<char>>
    decreases ps.len(),
{
    if ps.len() == 0 {
        acc
    } else {
        push_all(push_path(acc, ps[0]), ps.drop_first())
    }
}

/// The last component of a path, or the path itself when it has none.
pub open spec fn spec_fname(s: Seq<char>) -> Seq<char> {
    if components(s).len() == 0 {
        s
    } else {
        components(s).last()
    }
}

proof fn lemma_comps_from_step(s: Seq<char>, i: int, cur: Seq<char>)
    requires
        0 <= i < s.len(),
    ensures
        s[i] == '/' ==> comps_from(s, i, cur) == (if cur.len() > 0 {
            seq![cur]
        } else {
            Seq::<Seq<char>>::empty()
        }) + comps_from(s, i + 1, Seq::empty()),
        s[i] != '/' ==> comps_from(s, i, cur) == comps_from(s, i + 1, cur.push(s[i])),
{
}

/// The views of a sequence of string slices.
pub open spec fn strs_view(v: Seq<&str>) -> Seq<Seq<char>> {
    v.map_values(|x: &str| x@)
}

/// Split `path` into its non-empty components, preserving `..` and `.`.
/// The leading `/` is stripped; `"/"` yields an empty vector.
pub fn split_path(path: &str) -> (r: Vec<&str>)
    ensures
        strs_view(r@) == components(path@),
{
    let n = path.unicode_len();
    let mut out: Vec<&str> = Vec::new();
    let mut start: usize = 0;
    let mut i: usize = 0;
    assert(path@.subrange(0, 0) =~= Seq::<char>::empty());
    assert(strs_view(out@) + components(path@) =~= components(path@));
    while i < n
        invariant
            n == path@.len(),
            start <= i <= n,
            strs_view(out@) + comps_from(path@, i as int, path@.subrange(start as int, i as int))
                == components(path@),
        decreases n - i,
    {
        let c = path.get_char(i);
        proof {
            lemma_comps_from_step(path@, i as int, path@.subrange(start as int, i as int));
        }
        if c == '/' {
            if start < i {
                let piece = path.substring_char(start, i);
                let ghost prev = out@;
                out.push(piece);
                assert(strs_view(out@) =~= strs_view(prev) + seq![piece@]);
            } else {
                assert(strs_view(out@) + Seq::<Seq<char>>::empty() =~= strs_view(out@));
            }
            assert(path@.subrange(i + 1, i + 1) =~= Seq::<char>::empty());
            i += 1;
            start = i;
        } else {
            assert(path@.subrange(start as int, i as int).push(c) =~= path@.subrange(
                start as int,
                i + 1,
            ));
            i += 1;
        }
        assert(strs_view(out@) + comps_from(path@, i as int, path@.subrange(start as int, i as int))
            == components(path@));
    }
    if start < n {
        let piece = path.substring_char(start, n);
        let ghost prev = out@;
        out.push(piece);
        assert(strs_view(out@) =~= strs_view(prev) + seq![piece@]);
    } else {
        assert(strs_view(out@) + Seq::<Seq<char>>::empty() =~= strs_view(out@));
    }
    out
}

/// Return the final component of `path` (as `basename` does), or `path`
/// itself when it has no component.
pub fn fname_from_path(path: &str) -> (r: &str)
    ensures
        r@ == spec_fname(path@),
{
    let parts = split_path(path);
    if parts.len() == 0 {
        path
    } else {
        let last = parts[parts.len() - 1];
        assert(strs_view(parts@).last() == last@);
        last
    }
}

/// The absolute path string with the components `cs`.
fn join_components(cs: &Vec<&str>) -> (r: String)
    ensures
        r@ == join_abs(strs_view(cs@)),
{
    let mut out = String::new();
    let mut k: usize = 0;
    assert(strs_view(cs@).subrange(0, cs@.len() as int) =~= strs_view(cs@));
    assert(out@ + join_rest(strs_view(cs@)) =~= join_rest(strs_view(cs@)));
    while k < cs.len()
        invariant
            k <= cs@.len(),
            out@ + join_rest(strs_view(cs@).subrange(k as int, cs@.len() as int)) == join_rest(strs_view(cs@)),
        decreases cs@.len() - k,
    {
        let ghost rest = strs_view(cs@).subrange(k as int, cs@.len() as int);
        assert(rest.drop_first() =~= strs_view(cs@).subrange(k + 1, cs@.len() as int));
        assert(rest[0] == cs@[k as int]@);
        out.append("/");
        out.append(cs[k]);
        proof {
            reveal_strlit("/");
            assert(out@ + join_rest(rest.drop_first()) =~= join_rest(strs_view(cs@)));
        }
        k += 1;
    }
    assert(strs_view(cs@).subrange(0, cs@.len() as int) =~= strs_view(cs@));
    if cs.len() == 0 {
        out.append("/");
        proof {
            reveal_strlit("/");
            assert(out@ =~= seq!['/']);
        }
    }
    out
}

/// The views of a sequence of strings.
pub open spec fn strings_view(v: Seq<String>) -> Seq<Seq<char>> {
    v.map_values(|x: String| x@)
}

/// The components of the path that `build_path_noderef` builds.
pub open spec fn noderef_components(cwd: Seq<Seq<char>>, name: Seq<char>) -> Seq<Seq<char>> {
    push_path(push_all(Seq::empty(), cwd), name)
}

proof fn lemma_push_all_snoc(acc: Seq<Seq<char>>, ps: Seq<Seq<char>>, p: Seq<char>)
    ensures
        push_all(acc, ps.push(p)) == push_path(push_all(acc, ps), p),
    decreases ps.len(),
{
    reveal_with_fuel(push_all, 2);
    if ps.len() == 0 {
        assert(ps.push(p).drop_first() =~= Seq::<Seq<char>>::empty());
    } else {
        assert(ps.push(p)[0] == ps[0]);
        assert(ps.push(p).drop_first() =~= ps.drop_first().push(p));
        lemma_push_all_snoc(push_path(acc, ps[0]), ps.drop_first(), p);
    }
}

/// Push the path `p` onto the components `comps`.
fn push_onto<'a>(comps: &mut Vec<&'a str>, p: &'a str)
    ensures
        strs_view(final(comps)@) == push_path(strs_view(old(comps)@), p@),
{
    let parts = split_path(p);
    if p.unicode_len() > 0 && p.get_char(0) == '/' {
        *comps = parts;
    } else {
        let mut k: usize = 0;
        let ghost start = strs_view(comps@);
        while k < parts.len()
            invariant
                k <= parts@.len(),
                strs_view(comps@) == start + strs_view(parts@).take(k as int),
            decreases parts@.len() - k,
        {
            let ghost prev = comps@;
            comps.push(parts[k]);
            assert(comps@ == prev.push(parts@[k as int]));
            assert(strs_view(comps@) =~= strs_view(prev).push(parts@[k as int]@));
            assert(strs_view(parts@).take(k + 1) =~= strs_view(parts@).take(k as int).push(parts@[k as int]@));
            assert(strs_view(comps@) =~= start + strs_view(parts@).take(k + 1));
            k += 1;
        }
        assert(strs_view(parts@).take(parts@.len() as int) =~= strs_view(parts@));
    }
}

/// Combine `cwd` and `name` into an absolute path without resolving
/// symbolic links. An absolute `name` ignores `cwd`. The result is not
/// lexically normalised: `.` and `..` components are kept as they are.
pub fn build_path_noderef(cwd: &[String], name: &str) -> (r: String)
    ensures
        r@ == join_abs(noderef_components(strings_view(cwd@), name@)),
{
    let mut comps: Vec<&str> = Vec::new();
    let mut k: usize = 0;
    assert(strings_view(cwd@).take(0) =~= Seq::<Seq<char>>::empty());
    while k < cwd.len()
        invariant
            k <= cwd@.len(),
            strs_view(comps@) == push_all(Seq::empty(), strings_view(cwd@).take(k as int)),
        decreases cwd@.len() - k,
    {
        push_onto(&mut comps, cwd[k].as_str());
        proof {
            assert(strings_view(cwd@).take(k + 1) =~= strings_view(cwd@).take(k as int).push(cwd@[k as int]@));
            lemma_push_all_snoc(Seq::empty(), strings_view(cwd@).take(k as int), cwd@[k as int]@);
        }
        k += 1;
    }
    assert(strings_view(cwd@).take(cwd@.len() as int) =~= strings_view(cwd@));
    push_onto(&mut comps, name);
    join_components(&comps)
}


// The walk of the in-memory directory tree.

/// The name of a tree entry.
pub open spec fn view_name(v: ItemView) -> Seq<char> {
    match v {
        ItemView::File { name, .. } => name,
        ItemView::Directory { name, .. } => name,
        ItemView::Symlink { name, .. } => name,
    }
}

/// The inode number of a tree entry.
pub open spec fn view_inode(v: ItemView) -> u64 {
    match v {
        ItemView::File { inode, .. } => inode,
        ItemView::Directory { inode, .. } => inode,
        ItemView::Symlink { inode, .. } => inode,
    }
}

/// The index of the first entry of `t` at or after `i` named `name`, or
/// `t.len()` when there is none.
pub open spec fn first_named_from(t: Seq<ItemView>, name: Seq<char>, i: int) -> int
    decreases t.len() - i,
{
    if i < 0 || i >= t.len() {
        t.len() as int
    } else if view_name(t[i]) == name {
        i
    } else {
        first_named_from(t, name, i + 1)
    }
}

/// The index of the first entry of `t` named `name`, or `t.len()`.
pub open spec fn first_named(t: Seq<ItemView>, name: Seq<char>) -> int {
    first_named_from(t, name, 0)
}

/// Where a walk down the tree along some components ends.
pub enum Walk {
    /// The entries of the directory reached.
    Reached(Seq<ItemView>),
    /// The component names an entry that is not a directory.
    NotADirectory(Seq<char>),
    /// A component names no entry.
    Missing,
}

/// The walk from the entries `t` down along the directory names `cs`; each
/// name is looked up as the first entry with that name.
pub open spec fn walk(t: Seq<ItemView>, cs: Seq<Seq<char>>) -> Walk
    decreases cs.len(),
{
    if cs.len() == 0 {
        Walk::Reached(t)
    } else {
        let k = first_named(t, cs[0]);
        if k >= t.len() {
            Walk::Missing
        } else {
            match t[k] {
                ItemView::Directory { children, .. } => walk(children, cs.drop_first()),
                _ => Walk::NotADirectory(cs[0]),
            }
        }
    }
}

/// The entries `t` with the entries of the directory that `cs` leads to
/// replaced by `new`.
pub open spec fn replace_at(t: Seq<ItemView>, cs: Seq<Seq<char>>, new: Seq<ItemView>) -> Seq<ItemView>
    decreases cs.len(),
{
    if cs.len() == 0 {
        new
    } else {
        let k = first_named(t, cs[0]);
        if k >= t.len() {
            t
        } else {
            match t[k] {
                ItemView::Directory { name, inode, children } => t.update(
                    k,
                    ItemView::Directory {
                        name,
                        inode,
                        children: replace_at(children, cs.drop_first(), new),
                    },
                ),
                _ => t,
            }
        }
    }
}

/// The components of the directory that holds the last component: all but
/// the last one (none for none).
pub open spec fn parent_comps(cs: Seq<Seq<char>>) -> Seq<Seq<char>> {
    if cs.len() == 0 {
        cs
    } else {
        cs.drop_last()
    }
}

/// The error that a failed walk reports for the path `path`, as `r` holds it.
pub open spec fn walk_error<T>(w: Walk, path: Seq<char>, r: Result<T, FsError>) -> bool {
    match w {
        Walk::NotADirectory(c) => r matches Err(FsError::NotADirectory { component, path: p })
            && component@ == c && p@ == path,
        Walk::Missing => r matches Err(FsError::NotFound { path: p }) && p@ == path,
        Walk::Reached(_) => false,
    }
}

pub proof fn lemma_view_name(it: Item)
    ensures
        view_name(item_view(it)) == it.spec_name(),
        view_inode(item_view(it)) == it.spec_inode(),
        (item_view(it) is Directory) == (it is Directory),
        it is Directory ==> item_view(it) == (ItemView::Directory {
            name: it.spec_name(),
            inode: it.spec_inode(),
            children: trees_view(it.children()),
        }),
{
}

/// The owned components of a path.
pub(crate) fn owned_components(path: &str) -> (r: Vec<String>)
    ensures
        strings_view(r@) == components(path@),
{
    let parts = split_path(path);
    let mut out: Vec<String> = Vec::new();
    let mut k: usize = 0;
    while k < parts.len()
        invariant
            k <= parts@.len(),
            strings_view(out@) == strs_view(parts@).take(k as int),
        decreases parts@.len() - k,
    {
        let ghost prev = out@;
        let piece = parts[k].to_owned();
        out.push(piece);
        assert(strings_view(out@) =~= strings_view(prev).push(parts@[k as int]@));
        assert(strs_view(parts@).take(k + 1) =~= strs_view(parts@).take(k as int).push(parts@[k as int]@));
        k += 1;
    }
    assert(strs_view(parts@).take(parts@.len() as int) =~= strs_view(parts@));
    out
}

/// The index of the first entry of `t` named `name`, or `t.len()`.
pub(crate) fn find_index(t: &Tree, name: &String) -> (r: usize)
    ensures
        r == first_named(trees_view(t@), name@),
{
    proof {
        lemma_trees_view(t@);
    }
    let mut j: usize = 0;
    while j < t.len()
        invariant
            j <= t@.len(),
            trees_view(t@).len() == t@.len(),
            forall|m: int| 0 <= m < t@.len() ==> #[trigger] trees_view(t@)[m] == item_view(t@[m]),
            first_named(trees_view(t@), name@) == first_named_from(trees_view(t@), name@, j as int),
        decreases t@.len() - j,
    {
        proof {
            lemma_view_name(t@[j as int]);
        }
        if t[j].name().eq(name) {
            return j;
        }
        j += 1;
    }
    j
}

/// Walk from `tree` along `names[i..n]`.
fn walk_ref<'a>(tree: &'a Tree, names: &Vec<String>, n: usize, path: &str) -> (r: Result<&'a Tree, FsError>)
    requires
        n <= names@.len(),
    ensures
        match walk(trees_view(tree@), strings_view(names@).take(n as int)) {
            Walk::Reached(t) => r matches Ok(c) && trees_view(c@) == t,
            w => walk_error(w, path@, r),
        },
{
    let mut cur: &Tree = tree;
    let mut i: usize = 0;
    assert(strings_view(names@).take(n as int).subrange(0, n as int) =~= strings_view(names@).take(n as int));
    while i < n
        invariant
            i <= n <= names@.len(),
            walk(trees_view(tree@), strings_view(names@).take(n as int))
                == walk(trees_view(cur@), strings_view(names@).subrange(i as int, n as int)),
        decreases n - i,
    {
        let ghost cs = strings_view(names@).subrange(i as int, n as int);
        assert(cs[0] == names@[i as int]@);
        assert(cs.drop_first() =~= strings_view(names@).subrange(i + 1, n as int));
        let j = find_index(cur, &names[i]);
        proof {
            lemma_trees_view(cur@);
        }
        if j >= cur.len() {
            return Err(FsError::NotFound { path: path.to_owned() });
        }
        proof {
            lemma_view_name(cur@[j as int]);
        }
        match cur[j].next() {
            Some(sub) => {
                cur = sub;
            },
            None => {
                return Err(FsError::NotADirectory { component: names[i].clone(), path: path.to_owned() });
            },
        }
        i += 1;
    }
    assert(strings_view(names@).subrange(n as int, n as int) =~= Seq::<Seq<char>>::empty());
    Ok(cur)
}

/// Walk from `tree` along `names[i..n]`, handing out the entries reached to
/// change.
fn walk_mut<'a>(tree: &'a mut Tree, names: &Vec<String>, i: usize, n: usize, path: &str) -> (r: Result<&'a mut Tree, FsError>)
    requires
        i <= n <= names@.len(),
    ensures
        match walk(trees_view(old(tree)@), strings_view(names@).subrange(i as int, n as int)) {
            Walk::Reached(t) => r matches Ok(c) && trees_view(c@) == t && trees_view(final(tree)@)
                == replace_at(trees_view(old(tree)@), strings_view(names@).subrange(i as int, n as int), trees_view(final(c)@)),
            w => walk_error(w, path@, r) && trees_view(final(tree)@) == trees_view(old(tree)@),
        },
    decreases n - i,
{
    let ghost cs = strings_view(names@).subrange(i as int, n as int);
    if i == n {
        assert(cs =~= Seq::<Seq<char>>::empty());
        return Ok(tree);
    }
    assert(cs[0] == names@[i as int]@);
    assert(cs.drop_first() =~= strings_view(names@).subrange(i + 1, n as int));
    let j = find_index(tree, &names[i]);
    proof {
        lemma_trees_view(tree@);
    }
    if j >= tree.len() {
        return Err(FsError::NotFound { path: path.to_owned() });
    }
    proof {
        lemma_view_name(tree@[j as int]);
    }
    if !tree[j].is_dir() {
        return Err(FsError::NotADirectory { component: names[i].clone(), path: path.to_owned() });
    }
    let ghost old_tree = tree@;
    proof {
        lemma_trees_view_update(old_tree, j as int);
        lemma_item_views();
        assert(trees_view(old_tree).update(j as int, trees_view(old_tree)[j as int]) =~= trees_view(old_tree));
    }
    let item = &mut tree[j];
    match item.next_mut() {
        Some(sub) => walk_mut(sub, names, i + 1, n, path),
        None => Err(FsError::NoTree),
    }
}

proof fn lemma_trees_view_update(s: Seq<Item>, j: int)
    requires
        0 <= j < s.len(),
    ensures
        forall|x: Item| #[trigger] trees_view(s.update(j, x)) == trees_view(s).update(j, item_view(x)),
{
    assert forall|x: Item| #[trigger] trees_view(s.update(j, x)) == trees_view(s).update(j, item_view(x)) by {
        lemma_trees_view(s);
        lemma_trees_view(s.update(j, x));
        assert(trees_view(s.update(j, x)) =~= trees_view(s).update(j, item_view(x)));
    }
}

pub proof fn lemma_item_views()
    ensures
        forall|it: Item| #[trigger] item_view(it) is Directory ==> item_view(it) == (ItemView::Directory {
            name: it.spec_name(),
            inode: it.spec_inode(),
            children: trees_view(it.children()),
        }),
        forall|it: Item| #[trigger] view_name(item_view(it)) == it.spec_name(),
{
    assert forall|it: Item| #[trigger] view_name(item_view(it)) == it.spec_name() by {
        lemma_view_name(it);
    }
    assert forall|it: Item| #[trigger] item_view(it) is Directory implies item_view(it) == (ItemView::Directory {
            name: it.spec_name(),
            inode: it.spec_inode(),
            children: trees_view(it.children()),
        }) by {
        lemma_view_name(it);
    }
}

/// The entry that the components `cs` name: the root's `.` entry when
/// there are none.
pub enum Lookup {
    Found(ItemView),
    /// The root directory has no `.` entry.
    NoRoot,
    /// The walk to the entry failed.
    Failed(Walk),
}

/// Look up the components `cs` from the root entries `t`.
pub open spec fn lookup(t: Seq<ItemView>, cs: Seq<Seq<char>>) -> Lookup {
    if cs.len() == 0 {
        let k = first_named(t, seq!['.']);
        if k < t.len() {
            Lookup::Found(t[k])
        } else {
            Lookup::NoRoot
        }
    } else {
        match walk(t, cs.drop_last()) {
            Walk::Reached(p) => {
                let k = first_named(p, cs.last());
                if k < p.len() {
                    Lookup::Found(p[k])
                } else {
                    Lookup::Failed(Walk::Missing)
                }
            },
            w => Lookup::Failed(w),
        }
    }
}

/// The result `r` of a lookup `l` made for the path `path`.
pub open spec fn lookup_result(l: Lookup, path: Seq<char>, r: Result<Item, FsError>) -> bool {
    match l {
        Lookup::Found(v) => r matches Ok(it) && item_view(it) == v,
        Lookup::NoRoot => r == Err::<Item, FsError>(FsError::NoRootItem),
        Lookup::Failed(w) => walk_error(w, path, r),
    }
}

/// The entries `t` without those named `name`.
pub open spec fn without_name(t: Seq<ItemView>, name: Seq<char>) -> Seq<ItemView>
    decreases t.len(),
{
    if t.len() == 0 {
        t
    } else if view_name(t.last()) == name {
        without_name(t.drop_last(), name)
    } else {
        without_name(t.drop_last(), name).push(t.last())
    }
}

/// A copy of the entry that `names` leads to from `tree` (see `lookup`).
pub(crate) fn lookup_in(tree: &Tree, names: &Vec<String>, path: &str) -> (r: Result<Item, FsError>)
    ensures
        lookup_result(lookup(trees_view(tree@), strings_view(names@)), path@, r),
{
    proof {
        lemma_item_views();
    }
    let n = names.len();
    if n == 0 {
        let dot = String::from_str(".");
        proof {
            reveal_strlit(".");
            assert(dot@ =~= seq!['.']);
            assert(strings_view(names@).len() == 0);
        }
        let j = find_index(tree, &dot);
        proof {
            lemma_trees_view(tree@);
        }
        if j < tree.len() {
            return Ok(tree[j].deep_clone());
        }
        return Err(FsError::NoRootItem);
    }
    assert(strings_view(names@).take(n - 1) =~= strings_view(names@).drop_last());
    let parent = match walk_ref(tree, names, n - 1, path) {
        Ok(p) => p,
        Err(e) => {
            return Err(e);
        },
    };
    let j = find_index(parent, &names[n - 1]);
    proof {
        lemma_trees_view(parent@);
    }
    if j < parent.len() {
        Ok(parent[j].deep_clone())
    } else {
        Err(FsError::NotFound { path: path.to_owned() })
    }
}

/// The absolute path string of the first `n` components of `cs`.
pub(crate) fn join_owned(cs: &Vec<String>, n: usize) -> (r: String)
    requires
        n <= cs@.len(),
    ensures
        r@ == join_abs(strings_view(cs@).take(n as int)),
{
    let mut parts: Vec<&str> = Vec::new();
    let mut k: usize = 0;
    while k < n
        invariant
            k <= n <= cs@.len(),
            strs_view(parts@) == strings_view(cs@).take(k as int),
        decreases n - k,
    {
        let ghost prev = parts@;
        parts.push(cs[k].as_str());
        assert(strs_view(parts@) =~= strs_view(prev).push(cs@[k as int]@));
        assert(strings_view(cs@).take(k + 1) =~= strings_view(cs@).take(k as int).push(cs@[k as int]@));
        k += 1;
    }
    join_components(&parts)
}

/// Walk down the directory tree along every component of `abs_path` but the
/// last, and return the entries of the directory that holds the last one.
/// The root has no parent: for it the result is `EmptyPath`.
pub fn find_parent_ref<'a, F: FileSystem>(fs: &'a F, abs_path: &str) -> (r: Result<&'a Tree, FsError>)
    ensures
        match fs.spec_tree() {
            None => r == Err::<&Tree, FsError>(FsError::NoTree),
            Some(t) => if components(abs_path@).len() == 0 {
                r == Err::<&Tree, FsError>(FsError::EmptyPath)
            } else {
                match walk(t, parent_comps(components(abs_path@))) {
                    Walk::Reached(p) => r matches Ok(c) && trees_view(c@) == p,
                    w => walk_error(w, abs_path@, r),
                }
            },
        },
{
    let names = owned_components(abs_path);
    let tree = match fs.get_tree() {
        Some(t) => t,
        None => {
            return Err(FsError::NoTree);
        },
    };
    if names.len() == 0 {
        return Err(FsError::EmptyPath);
    }
    let n = if names.len() == 0 { 0 } else { names.len() - 1 };
    assert(strings_view(names@).take(n as int) =~= parent_comps(strings_view(names@)));
    walk_ref(tree, &names, n, abs_path)
}

/// The changeable form of `find_parent_ref`: the entries of the directory
/// that holds the last component of `abs_path`.
pub fn find_parent_mut<'a, F: FileSystem>(fs: &'a mut F, abs_path: &str) -> (r: Result<&'a mut Tree, FsError>)
    ensures
        match old(fs).spec_tree() {
            None => r == Err::<&mut Tree, FsError>(FsError::NoTree) && *final(fs) == *old(fs),
            Some(t) => {
                let cs = parent_comps(components(abs_path@));
                &&& final(fs).same_but_tree(old(fs))
                &&& match walk(t, cs) {
                    Walk::Reached(p) => r matches Ok(c) && trees_view(c@) == p
                        && final(fs).spec_tree() == Some(replace_at(t, cs, trees_view(final(c)@))),
                    w => walk_error(w, abs_path@, r) && final(fs).spec_tree() == old(fs).spec_tree(),
                }
            },
        },
{
    let names = owned_components(abs_path);
    let tree = match fs.get_tree_mut() {
        Some(t) => t,
        None => {
            return Err(FsError::NoTree);
        },
    };
    let n = if names.len() == 0 { 0 } else { names.len() - 1 };
    assert(strings_view(names@).subrange(0, n as int) =~= parent_comps(strings_view(names@)));
    walk_mut(tree, &names, 0, n, abs_path)
}

/// Look up `abs_path` in the directory tree and return a copy of its entry;
/// the root (no component) is the root directory's `.` entry.
pub fn get_item<F: FileSystem>(fs: &F, abs_path: &str) -> (r: Result<Item, FsError>)
    ensures
        match fs.spec_tree() {
            None => r == Err::<Item, FsError>(FsError::NoTree),
            Some(t) => lookup_result(lookup(t, components(abs_path@)), abs_path@, r),
        },
{
    let tree = match fs.get_tree() {
        Some(t) => t,
        None => {
            return Err(FsError::NoTree);
        },
    };
    let names = owned_components(abs_path);
    lookup_in(tree, &names, abs_path)
}

/// The entries of `t` without those named `name`, in their order.
fn retain_not_named(t: &mut Tree, name: &String)
    ensures
        trees_view(final(t)@) == without_name(trees_view(old(t)@), name@),
{
    let mut rest: Tree = Vec::new();
    std::mem::swap(t, &mut rest);
    let ghost orig = rest@;
    let total = rest.len();
    let mut k: usize = 0;
    assert(orig.take(0) =~= Seq::<Item>::empty());
    proof {
        lemma_item_views();
    }
    while rest.len() > 0
        invariant
            k <= orig.len() == total,
            rest@ == orig.skip(k as int),
            trees_view(t@) == without_name(trees_view(orig.take(k as int)), name@),
            forall|it: Item| #[trigger] view_name(item_view(it)) == it.spec_name(),
        decreases rest@.len(),
    {
        let it = rest.remove(0);
        assert(it == orig[k as int]);
        assert(orig.take(k + 1).drop_last() =~= orig.take(k as int));
        assert(orig.skip(k + 1) =~= orig.skip(k as int).remove(0));
        let ghost tv = trees_view(orig.take(k + 1));
        assert(tv.drop_last() == trees_view(orig.take(k as int)));
        assert(tv.last() == item_view(it));
        if !it.name().eq(name) {
            let ghost prev = t@;
            t.push(it);
            proof {
                assert(t@.drop_last() =~= prev);
            }
        }
        k += 1;
    }
    assert(orig.take(orig.len() as int) =~= orig);
}

/// Remove every entry named as the last component of `abs_path` from the
/// directory that holds it. Nothing to remove is no error.
pub fn remove_item<F: FileSystem>(fs: &mut F, abs_path: &str) -> (r: Result<(), FsError>)
    ensures
        match old(fs).spec_tree() {
            None => r == Err::<(), FsError>(FsError::NoTree) && *final(fs) == *old(fs),
            Some(t) => {
                let cs = parent_comps(components(abs_path@));
                &&& final(fs).same_but_tree(old(fs))
                &&& match walk(t, cs) {
                    Walk::Reached(p) => r is Ok && final(fs).spec_tree() == Some(
                        replace_at(t, cs, without_name(p, spec_fname(abs_path@))),
                    ),
                    w => walk_error(w, abs_path@, r) && final(fs).spec_tree() == old(fs).spec_tree(),
                }
            },
        },
{
    let current = find_parent_mut(fs, abs_path)?;
    let fname = fname_from_path(abs_path).to_owned();
    retain_not_named(current, &fname);
    Ok(())
}

/// Add an entry for `abs_path`, of the type of inode `inode_num`, to the
/// directory that holds it, which must be in the tree already.
pub fn add_item<F: FileSystem>(fs: &mut F, abs_path: &str, inode_num: u64) -> (r: Result<(), FsError>)
    ensures
        match old(fs).spec_inode(inode_num) {
            None => r is Err && *final(fs) == *old(fs),
            Some(ino) => match old(fs).spec_tree() {
                None => r == Err::<(), FsError>(FsError::NoTree) && *final(fs) == *old(fs),
                Some(t) => {
                    let cs = components(abs_path@);
                    &&& final(fs).same_but_tree(old(fs))
                    &&& if cs.len() == 0 {
                        r == Err::<(), FsError>(FsError::RootEntry) && final(fs).spec_tree() == old(fs).spec_tree()
                    } else {
                        match walk(t, cs.drop_last()) {
                            Walk::Reached(p) => r is Ok && final(fs).spec_tree() == Some(
                                replace_at(t, cs.drop_last(), p.push(new_entry_view(cs.last(), inode_num, ino.spec_file_type()))),
                            ),
                            w => walk_error(w, abs_path@, r) && final(fs).spec_tree() == old(fs).spec_tree(),
                        }
                    }
                },
            },
        },
{
    let ftype = match fs.get_inode(inode_num) {
        Ok(ino) => ino.get_file_type(),
        Err(e) => {
            return Err(e);
        },
    };
    let names = owned_components(abs_path);
    let tree = match fs.get_tree_mut() {
        Some(t) => t,
        None => {
            return Err(FsError::NoTree);
        },
    };
    if names.len() == 0 {
        return Err(FsError::RootEntry);
    }
    let n = names.len() - 1;
    assert(strings_view(names@).subrange(0, n as int) =~= strings_view(names@).drop_last());
    let current = walk_mut(tree, &names, 0, n, abs_path)?;
    let fname = fname_from_path(abs_path).to_owned();
    let item = Item::new(fname, inode_num, ftype);
    let ghost prev = current@;
    current.push(item);
    proof {
        assert(current@.drop_last() =~= prev);
    }
    Ok(())
}

/// The entry of a path and the entry of the directory that holds it.
pub struct SplitItems {
    pub dir_part: Item,
    pub file_part: Item,
}

impl SplitItems {
    pub fn new(dir_part: Item, file_part: Item) -> (r: Self)
        ensures
            r.dir_part == dir_part,
            r.file_part == file_part,
    {
        Self { dir_part, file_part }
    }
}

/// Resolve `path` and return its entry with the entry of its directory. The
/// directory's entry is its `.` entry; where that is missing, the directory
/// is looked up from the root.
pub fn split_items<F: FileSystem>(fs: &F, path: &str) -> (r: Result<SplitItems, FsError>)
    ensures
        match fs.spec_tree() {
            None => r is Err && r->Err_0 == FsError::NoTree,
            Some(t) => {
                let cs = components(path@);
                match walk(t, parent_comps(cs)) {
                    Walk::Reached(p) => if cs.len() == 0 {
                        r is Err && r->Err_0 == FsError::EmptyPath
                    } else {
                        let f = first_named(p, cs.last());
                        let d = first_named(p, seq!['.']);
                        if f >= p.len() {
                            r matches Err(FsError::NotFound { path: q }) && q@ == path@
                        } else if d < p.len() {
                            r matches Ok(s) && item_view(s.file_part) == p[f] && item_view(s.dir_part) == p[d]
                        } else {
                            match lookup(t, cs.drop_last()) {
                                Lookup::Found(v) => r matches Ok(s) && item_view(s.file_part) == p[f]
                                    && item_view(s.dir_part) == v,
                                Lookup::NoRoot => r is Err && r->Err_0 == FsError::NoRootItem,
                                Lookup::Failed(w) => walk_error(w, join_abs(cs.drop_last()), r),
                            }
                        }
                    },
                    w => walk_error(w, path@, r),
                }
            },
        },
{
    proof {
        lemma_item_views();
    }
    let tree = match fs.get_tree() {
        Some(t) => t,
        None => {
            return Err(FsError::NoTree);
        },
    };
    let names = owned_components(path);
    let n = if names.len() == 0 { 0 } else { names.len() - 1 };
    assert(strings_view(names@).take(n as int) =~= parent_comps(strings_view(names@)));
    let current = match walk_ref(tree, &names, n, path) {
        Ok(c) => c,
        Err(e) => {
            return Err(e);
        },
    };
    if names.len() == 0 {
        return Err(FsError::EmptyPath);
    }
    proof {
        lemma_trees_view(current@);
    }
    let f = find_index(current, &names[n]);
    if f >= current.len() {
        return Err(FsError::NotFound { path: path.to_owned() });
    }
    let file_part = current[f].deep_clone();
    let dot = String::from_str(".");
    proof {
        reveal_strlit(".");
    }
    proof {
        assert(dot@ =~= seq!['.']);
    }
    let d = find_index(current, &dot);
    let dir_part = if d < current.len() {
        current[d].deep_clone()
    } else {
        let parent_path = join_owned(&names, n);
        let mut parent_names = names;
        parent_names.pop();
        assert(strings_view(parent_names@) =~= strings_view(names@).drop_last());
        assert(strings_view(names@).take(n as int) =~= strings_view(names@).drop_last());
        match lookup_in(tree, &parent_names, parent_path.as_str()) {
            Ok(it) => it,
            Err(e) => {
                return Err(e);
            },
        }
    };
    Ok(SplitItems::new(dir_part, file_part))
}

/// Why a resolution of a path failed.
pub enum DerefFail {
    /// The file system has no tree.
    NoTree,
    /// The lookup of the given path failed so.
    Lookup(Lookup, Seq<char>),
    /// The inode of an entry could not be had.
    Inode,
    /// A symbolic link was met again at the given path.
    Loop(Seq<char>),
    /// The target of a symbolic link could not be read.
    Symlink(FsError),
    /// Components follow the given path, which is no directory.
    NotADirectory(Seq<char>),
}

/// The outcome of a resolution: the components of the resolved path, or why
/// it failed.
pub enum Resolution {
    Resolved(Seq<Seq<char>>),
    Failed(DerefFail),
}

/// Resolve the components `queue` from the directory `resolved`, following
/// symbolic links; `seen` holds the inodes of the links followed so far.
/// `.` is passed over, `..` goes up (not above the root), a symbolic link
/// puts the components of its target in front of the rest (from the root
/// for an absolute target), and a file ends the path.
pub open spec fn resolve<F: FileSystem>(fs: F, queue: Seq<Seq<char>>, resolved: Seq<Seq<char>>, seen: Seq<u64>) -> Resolution
    decreases 0x1_0000_0000_0000_0000 - seen.len(), queue.len(),
    when seen.len() <= 0x1_0000_0000_0000_0000
{
    if queue.len() == 0 {
        Resolution::Resolved(resolved)
    } else {
        let comp = queue[0];
        let rest = queue.drop_first();
        if comp == seq!['.'] {
            resolve(fs, rest, resolved, seen)
        } else if comp == seq!['.', '.'] {
            resolve(fs, rest, parent_comps(resolved), seen)
        } else {
            let cand = resolved.push(comp);
            match fs.spec_tree() {
                None => Resolution::Failed(DerefFail::NoTree),
                Some(t) => match lookup(t, cand) {
                    Lookup::Found(v) => {
                        let n = view_inode(v);
                        match fs.spec_inode(n) {
                            None => Resolution::Failed(DerefFail::Inode),
                            Some(ino) => {
                                let ft = ino.spec_file_type();
                                if ft == FileType::Symlink {
                                    if seen.contains(n) || seen.len() >= 0x1_0000_0000_0000_0000 {
                                        Resolution::Failed(DerefFail::Loop(join_abs(cand)))
                                    } else {
                                        match fs.spec_symlink(n) {
                                            Err(e) => Resolution::Failed(DerefFail::Symlink(e)),
                                            Ok(target) => resolve(
                                                fs,
                                                components(target) + rest,
                                                if is_absolute(target) {
                                                    Seq::empty()
                                                } else {
                                                    resolved
                                                },
                                                seen.push(n),
                                            ),
                                        }
                                    }
                                } else if ft == FileType::Directory {
                                    resolve(fs, rest, cand, seen)
                                } else if rest.len() > 0 {
                                    Resolution::Failed(DerefFail::NotADirectory(join_abs(cand)))
                                } else {
                                    Resolution::Resolved(cand)
                                }
                            },
                        }
                    },
                    l => Resolution::Failed(DerefFail::Lookup(l, join_abs(cand))),
                },
            }
        }
    }
}

/// The result `r` of a resolution that came to `res`.
pub open spec fn deref_result(res: Resolution, r: Result<String, FsError>) -> bool {
    match res {
        Resolution::Resolved(cs) => r matches Ok(s) && s@ == join_abs(cs),
        Resolution::Failed(f) => match f {
            DerefFail::NoTree => r == Err::<String, FsError>(FsError::NoTree),
            DerefFail::Lookup(l, p) => match l {
                Lookup::NoRoot => r == Err::<String, FsError>(FsError::NoRootItem),
                Lookup::Failed(w) => walk_error(w, p, r),
                Lookup::Found(_) => false,
            },
            DerefFail::Inode => r is Err,
            DerefFail::Loop(p) => r matches Err(FsError::SymlinkLoop { path }) && path@ == p,
            DerefFail::Symlink(e) => r == Err::<String, FsError>(e),
            DerefFail::NotADirectory(p) => r matches Err(FsError::NotADirectoryPath { path }) && path@ == p,
        },
    }
}

/// Whether `v` holds `x`.
fn contains_u64(v: &Vec<u64>, x: u64) -> (r: bool)
    ensures
        r == v@.contains(x),
{
    let mut i: usize = 0;
    while i < v.len()
        invariant
            i <= v@.len(),
            forall|j: int| 0 <= j < i ==> v@[j] != x,
        decreases v@.len() - i,
    {
        if v[i] == x {
            return true;
        }
        i += 1;
    }
    false
}

/// Combine `cwd` and `name` into an absolute path and resolve it against the
/// directory tree, following symbolic links (as `realpath` does). A link met
/// twice is a loop and an error.
pub fn build_path_deref<F: FileSystem>(fs: &mut F, cwd: &[String], name: &str) -> (r: Result<String, FsError>)
    ensures
        deref_result(
            resolve(*old(fs), components(join_abs(noderef_components(strings_view(cwd@), name@))), Seq::empty(), Seq::empty()),
            r,
        ),
        final(fs).spec_tree() == old(fs).spec_tree(),
        forall|n: u64| #[trigger] final(fs).spec_inode(n) == old(fs).spec_inode(n),
        forall|n: u64| #[trigger] final(fs).spec_symlink(n) == old(fs).spec_symlink(n),
        final(fs).cache_only_change(old(fs)),
{
    let ghost f0 = *fs;
    proof {
        F::lemma_cache_only_refl(&f0);
    }
    let raw = build_path_noderef(cwd, name);
    let mut queue = owned_components(raw.as_str());
    let mut resolved: Vec<String> = Vec::new();
    let mut seen: Vec<u64> = Vec::new();
    let dot = String::from_str(".");
    let dotdot = String::from_str("..");
    proof {
        reveal_strlit(".");
        reveal_strlit("..");
        assert(dot@ =~= seq!['.']);
        assert(dotdot@ =~= seq!['.', '.']);
        lemma_item_views();
    }
    assert(strings_view(resolved@) =~= Seq::<Seq<char>>::empty());
    while queue.len() > 0
        invariant
            dot@ == seq!['.'],
            dotdot@ == seq!['.', '.'],
            fs.spec_tree() == f0.spec_tree(),
            forall|n: u64| #[trigger] fs.spec_inode(n) == f0.spec_inode(n),
            forall|n: u64| #[trigger] fs.spec_symlink(n) == f0.spec_symlink(n),
            fs.cache_only_change(&f0),
            f0 == *old(fs),
            seen@.no_duplicates(),
            seen@.len() <= usize::MAX,
            forall|it: Item| #[trigger] view_name(item_view(it)) == it.spec_name(),
            resolve(f0, components(join_abs(noderef_components(strings_view(cwd@), name@))), Seq::empty(), Seq::empty())
                == resolve(f0, strings_view(queue@), strings_view(resolved@), seen@),
        decreases 0x1_0000_0000_0000_0000 - seen@.len(), queue@.len(),
    {
        let ghost q = strings_view(queue@);
        let ghost res0 = strings_view(resolved@);
        let ghost seen_before = seen@;
        assert(seen@.len() == seen.len());
        let comp = queue.remove(0);
        assert(strings_view(queue@) =~= q.drop_first());
        assert(comp@ == q[0]);
        if comp.eq(&dot) {
        } else if comp.eq(&dotdot) {
            resolved.pop();
            assert(strings_view(resolved@) =~= parent_comps(res0));
        } else {
            resolved.push(comp);
            assert(strings_view(resolved@) =~= res0.push(q[0]));
            let cand_str = join_owned(&resolved, resolved.len());
            assert(strings_view(resolved@).take(resolved@.len() as int) =~= strings_view(resolved@));
            let tree = match fs.get_tree() {
                Some(t) => t,
                None => {
                    return Err(FsError::NoTree);
                },
            };
            let item = match lookup_in(tree, &resolved, cand_str.as_str()) {
                Ok(it) => it,
                Err(e) => {
                    return Err(e);
                },
            };
            let inode_num = item.inode();
            proof {
                lemma_view_name(item);
            }
            let ftype = match fs.get_inode(inode_num) {
                Ok(i) => i.get_file_type(),
                Err(e) => {
                    return Err(e);
                },
            };
            match ftype {
                FileType::Symlink => {
                    if contains_u64(&seen, inode_num) {
                        return Err(FsError::SymlinkLoop { path: cand_str });
                    }
                    let ghost seen0 = seen@;
                    seen.push(inode_num);
                    proof {
                        assert(seen@.len() == seen.len());
                        assert forall|a: int, b: int| 0 <= a < b < seen@.len() implies seen@[a] != seen@[b] by {
                            if b == seen@.len() - 1 {
                                assert(seen0[a] == seen@[a]);
                            } else {
                                assert(seen0[a] != seen0[b]);
                            }
                        }
                    }
                    let ghost f1 = *fs;
                    let target = match fs.read_symlink(inode_num) {
                        Ok(t) => t,
                        Err(e) => {
                            proof {
                                F::lemma_cache_only_trans(&f0, &f1, &*fs);
                            }
                            return Err(e);
                        },
                    };
                    proof {
                        F::lemma_cache_only_trans(&f0, &f1, &*fs);
                    }
                    resolved.pop();
                    assert(strings_view(resolved@) =~= res0);
                    let t_str = target.as_str();
                    if t_str.unicode_len() > 0 && t_str.get_char(0) == '/' {
                        resolved = Vec::new();
                        assert(strings_view(resolved@) =~= Seq::<Seq<char>>::empty());
                    }
                    let mut tq = owned_components(t_str);
                    let ghost tqv = strings_view(tq@);
                    tq.append(&mut queue);
                    assert(strings_view(tq@) =~= tqv + q.drop_first());
                    queue = tq;
                    assert(resolve(f0, q, res0, seen_before) == resolve(f0, strings_view(queue@), strings_view(resolved@), seen@));
                },
                FileType::Directory => {
                    assert(resolve(f0, q, res0, seen_before) == resolve(f0, strings_view(queue@), strings_view(resolved@), seen@));
                },
                _ => {
                    if queue.len() > 0 {
                        return Err(FsError::NotADirectoryPath { path: cand_str });
                    }
                },
            }
        }
    }
    assert(strings_view(resolved@).take(resolved@.len() as int) =~= strings_view(resolved@));
    Ok(join_owned(&resolved, resolved.len()))
}

/// Two file systems with the same tree, inodes and link targets resolve
/// every path alike.
pub proof fn lemma_resolve_agree<F: FileSystem>(a: F, b: F, queue: Seq<Seq<char>>, resolved: Seq<Seq<char>>, seen: Seq<u64>)
    requires
        a.spec_tree() == b.spec_tree(),
        forall|n: u64| #[trigger] a.spec_inode(n) == b.spec_inode(n),
        forall|n: u64| #[trigger] a.spec_symlink(n) == b.spec_symlink(n),
        seen.len() <= 0x1_0000_0000_0000_0000,
    ensures
        resolve(a, queue, resolved, seen) == resolve(b, queue, resolved, seen),
    decreases 0x1_0000_0000_0000_0000 - seen.len(), queue.len(),
{
    if queue.len() > 0 {
        let comp = queue[0];
        let rest = queue.drop_first();
        if comp == seq!['.'] {
            lemma_resolve_agree(a, b, rest, resolved, seen);
        } else if comp == seq!['.', '.'] {
            lemma_resolve_agree(a, b, rest, parent_comps(resolved), seen);
        } else {
            let cand = resolved.push(comp);
            match a.spec_tree() {
                None => {},
                Some(t) => match lookup(t, cand) {
                    Lookup::Found(v) => {
                        let n = view_inode(v);
                        assert(a.spec_inode(n) == b.spec_inode(n));
                        assert(a.spec_symlink(n) == b.spec_symlink(n));
                        match a.spec_inode(n) {
                            None => {},
                            Some(ino) => {
                                let ft = ino.spec_file_type();
                                if ft == FileType::Symlink {
                                    if !(seen.contains(n) || seen.len() >= 0x1_0000_0000_0000_0000) {
                                        match a.spec_symlink(n) {
                                            Err(e) => {},
                                            Ok(target) => {
                                                lemma_resolve_agree(
                                                    a,
                                                    b,
                                                    components(target) + rest,
                                                    if is_absolute(target) {
                                                        Seq::empty()
                                                    } else {
                                                        resolved
                                                    },
                                                    seen.push(n),
                                                );
                                            },
                                        }
                                    }
                                } else if ft == FileType::Directory {
                                    lemma_resolve_agree(a, b, rest, cand, seen);
                                }
                            },
                        }
                    },
                    _ => {},
                },
            }
        }
    }
}

/// After the entries of the directory that `cs` leads to are replaced by
/// `new`, the walk along `cs` reaches `new`.
pub proof fn law_walk_replace(t: Seq<ItemView>, cs: Seq<Seq<char>>, new: Seq<ItemView>)
    requires
        walk(t, cs) is Reached,
    ensures
        walk(replace_at(t, cs, new), cs) == Walk::Reached(new),
    decreases cs.len(),
{
    if cs.len() > 0 {
        let k = first_named(t, cs[0]);
        lemma_first_named_from(t, cs[0], 0);
        match t[k] {
            ItemView::Directory { name, inode, children } => {
                let t2 = replace_at(t, cs, new);
                assert(t2[k] == (ItemView::Directory { name, inode, children: replace_at(children, cs.drop_first(), new) }));
                lemma_first_named_update(t, cs[0], k, ItemView::Directory {
                    name,
                    inode,
                    children: replace_at(children, cs.drop_first(), new),
                });
                law_walk_replace(children, cs.drop_first(), new);
            },
            _ => {},
        }
    }
}

proof fn lemma_first_named_from(t: Seq<ItemView>, name: Seq<char>, i: int)
    requires
        0 <= i <= t.len(),
    ensures
        i <= first_named_from(t, name, i) <= t.len(),
        first_named_from(t, name, i) < t.len() ==> view_name(t[first_named_from(t, name, i)]) == name,
        forall|j: int| i <= j < first_named_from(t, name, i) ==> view_name(#[trigger] t[j]) != name,
    decreases t.len() - i,
{
    if i < t.len() && view_name(t[i]) != name {
        lemma_first_named_from(t, name, i + 1);
    }
}

/// The first entry named `name` is the first of that name still after it
/// is replaced by an entry of the same name.
proof fn lemma_first_named_update(t: Seq<ItemView>, name: Seq<char>, k: int, v: ItemView)
    requires
        k == first_named(t, name),
        k < t.len(),
        view_name(v) == name,
    ensures
        first_named(t.update(k, v), name) == k,
{
    lemma_first_named_from(t, name, 0);
    let t2 = t.update(k, v);
    assert forall|i: int| 0 <= i <= k implies first_named_from(t2, name, i) == k by {
        lemma_first_named_rest(t2, name, i, k);
    }
}

proof fn lemma_first_named_rest(t: Seq<ItemView>, name: Seq<char>, i: int, k: int)
    requires
        0 <= i <= k < t.len(),
        view_name(t[k]) == name,
        forall|j: int| i <= j < k ==> view_name(#[trigger] t[j]) != name,
    ensures
        first_named_from(t, name, i) == k,
    decreases k - i,
{
    if i < k {
        lemma_first_named_rest(t, name, i + 1, k);
    }
}

/// No entry named `name` is left after those named `name` are removed.
pub proof fn law_without_name(t: Seq<ItemView>, name: Seq<char>)
    ensures
        first_named(without_name(t, name), name) == without_name(t, name).len(),
        forall|j: int| 0 <= j < without_name(t, name).len() ==> view_name(#[trigger] without_name(t, name)[j]) != name,
    decreases t.len(),
{
    if t.len() > 0 {
        law_without_name(t.drop_last(), name);
    }
    let w = without_name(t, name);
    assert forall|i: int| 0 <= i <= w.len() implies first_named_from(w, name, i) == w.len() by {
        lemma_first_named_none(w, name, i);
    }
}

proof fn lemma_first_named_none(t: Seq<ItemView>, name: Seq<char>, i: int)
    requires
        0 <= i <= t.len(),
        forall|j: int| 0 <= j < t.len() ==> view_name(#[trigger] t[j]) != name,
    ensures
        first_named_from(t, name, i) == t.len(),
    decreases t.len() - i,
{
    if i < t.len() {
        lemma_first_named_none(t, name, i + 1);
    }
}

/// `find_parent_mut` and `find_parent_ref` give the same directory for a
/// path below the root: the entries that the walk along all but the last
/// component reaches (`from_ref` and `from_mut` are the views of what the
/// two returned). Pushing `item` into that directory changes the tree
/// there and nowhere else: the walk then reaches the entries with `item`
/// added.
pub proof fn law_parent_mut_agrees_with_ref(
    t: Seq<ItemView>,
    path: Seq<char>,
    from_ref: Seq<ItemView>,
    from_mut: Seq<ItemView>,
    item: ItemView,
)
    requires
        components(path).len() > 0,
        walk(t, parent_comps(components(path))) == Walk::Reached(from_ref),
        walk(t, parent_comps(components(path))) == Walk::Reached(from_mut),
    ensures
        from_ref == from_mut,
        walk(replace_at(t, parent_comps(components(path)), from_mut.push(item)), parent_comps(components(path)))
            == Walk::Reached(from_ref.push(item)),
{
    law_walk_replace(t, parent_comps(components(path)), from_mut.push(item));
}


/// Whether `s` holds no `/`.
pub open spec fn no_slash(s: Seq<char>) -> bool {
    forall|i: int| 0 <= i < s.len() ==> #[trigger] s[i] != '/'
}

proof fn lemma_comps_shift(x: Seq<char>, q: Seq<char>, j: int, cur: Seq<char>)
    requires
        0 <= j <= q.len(),
    ensures
        comps_from(x + q, j + x.len(), cur) == comps_from(q, j, cur),
    decreases q.len() - j,
{
    if j < q.len() {
        assert((x + q)[j + x.len()] == q[j]);
        lemma_comps_shift(x, q, j + 1, Seq::empty());
        lemma_comps_shift(x, q, j + 1, cur.push(q[j]));
    }
}

proof fn lemma_comps_plain(s: Seq<char>, i: int, cur: Seq<char>)
    requires
        0 <= i <= s.len(),
        no_slash(s),
    ensures
        comps_from(s, i, cur) == (if cur.len() + s.len() - i > 0 {
            seq![cur + s.subrange(i, s.len() as int)]
        } else {
            Seq::<Seq<char>>::empty()
        }),
    decreases s.len() - i,
{
    if i < s.len() {
        assert(s[i] != '/');
        lemma_comps_plain(s, i + 1, cur.push(s[i]));
        assert(cur.push(s[i]) + s.subrange(i + 1, s.len() as int) =~= cur + s.subrange(i, s.len() as int));
    } else {
        assert(cur + s.subrange(i, s.len() as int) =~= cur);
    }
}

proof fn lemma_comps_join(p: Seq<char>, q: Seq<char>, i: int, cur: Seq<char>)
    requires
        0 <= i <= p.len(),
    ensures
        comps_from(p + seq!['/'] + q, i, cur) == comps_from(p, i, cur) + components(q),
    decreases p.len() - i,
{
    let s = p + seq!['/'] + q;
    let c = if cur.len() > 0 { seq![cur] } else { Seq::<Seq<char>>::empty() };
    if i == p.len() {
        assert(s[i] == '/');
        assert(s =~= (p + seq!['/']) + q);
        lemma_comps_shift(p + seq!['/'], q, 0, Seq::empty());
        assert(comps_from(p, i, cur) == c);
    } else {
        assert(s[i] == p[i]);
        if p[i] == '/' {
            lemma_comps_join(p, q, i + 1, Seq::empty());
            assert(c + (comps_from(p, i + 1, Seq::empty()) + components(q)) =~= (c + comps_from(p, i + 1, Seq::empty()))
                + components(q));
        } else {
            lemma_comps_join(p, q, i + 1, cur.push(p[i]));
        }
    }
}

/// Path components: a name with no `/` is a path of that one component;
/// joining two paths with a `/` joins their components; so the last
/// component of a path with `/name` at its end is `name`.
pub proof fn law_components(p: Seq<char>, q: Seq<char>, name: Seq<char>)
    ensures
        name.len() > 0 && no_slash(name) ==> components(name) == seq![name],
        components(p + seq!['/'] + q) == components(p) + components(q),
        name.len() > 0 && no_slash(name) ==> spec_fname(p + seq!['/'] + name) == name,
{
    lemma_comps_join(p, q, 0, Seq::empty());
    lemma_comps_join(p, name, 0, Seq::empty());
    if name.len() > 0 && no_slash(name) {
        lemma_comps_plain(name, 0, Seq::empty());
        assert(Seq::<char>::empty() + name.subrange(0, name.len() as int) =~= name);
        assert((components(p) + seq![name]).last() == name);
    }
}

} // verus!
